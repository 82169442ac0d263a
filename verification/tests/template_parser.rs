use mopper::function::template_parser::parse_template;

#[test]
fn template_parser_normal_template() {
    let result = parse_template("Hello {world}!", &None).unwrap();
    let expected = vec![
        (false, "Hello ".to_string()),
        (true, "world".to_string()),
        (false, "!".to_string()),
    ];
    assert_eq!(expected, result);
}

#[test]
fn template_parser_no_template_var() {
    let result = parse_template("Hello world!", &None).unwrap();
    let expected = vec![
        (false, "Hello world!".to_string()),
    ];
    assert_eq!(expected, result);
}

#[test]
fn template_parser_two_template_vars() {
    let result = parse_template("{Hello}{world}!", &None).unwrap();
    let expected = vec![
        (true, "Hello".to_string()),
        (true, "world".to_string()),
        (false, "!".to_string()),
    ];
    assert_eq!(expected, result);
}

#[test]
fn template_parser_template_var_at_end() {
    let result = parse_template("{a}", &None).unwrap();
    let expected = vec![
        (true, "a".to_string()),
    ];
    assert_eq!(expected, result);
}

#[test]
fn template_parser_escaped_template() {
    let result = parse_template("Hello \\{world\\}!", &None).unwrap();
    let expected = vec![
        (false, "Hello {world}!".to_string()),
    ];
    assert_eq!(expected, result);
}

#[test]
fn template_parser_nested_template_var() {
    let result = parse_template("Hello {{world}}!", &None);
    assert!(result.is_err());
}

#[test]
fn template_parser_wrong_character_escaped() {
    let result = parse_template("Hello w\\orld!", &None);
    assert!(result.is_err());
}

#[test]
fn template_parser_unclosed_template_var() {
    let result = parse_template("Hello {world!", &None);
    assert!(result.is_err());
}

#[test]
fn template_parser_empty_template_var() {
    let result = parse_template("Hello {}!", &None).unwrap();
    let expected = vec![
        (false, "Hello ".to_string()),
        (false, "!".to_string()),
    ];
    assert_eq!(expected, result);
}

#[test]
fn template_parser_empty_template() {
    let result = parse_template("", &None).unwrap();
    let expected: Vec<(bool, String)> = Vec::new();
    assert_eq!(expected, result);
}
