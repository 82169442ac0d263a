use mopper::function::template_string::parse_template;

#[test]
fn template_string_normal_template() {
    let result = parse_template("Hello {world}!").unwrap();
    let expected = vec![
        (false, "Hello ".to_string()),
        (true, "world".to_string()),
        (false, "!".to_string()),
    ];
    assert_eq!(expected, result);
}

#[test]
fn template_string_no_template_var() {
    let result = parse_template("Hello world!").unwrap();
    let expected = vec![
        (false, "Hello world!".to_string()),
    ];
    assert_eq!(expected, result);
}

#[test]
fn template_string_two_template_vars() {
    let result = parse_template("{Hello}{world}!").unwrap();
    let expected = vec![
        (true, "Hello".to_string()),
        (true, "world".to_string()),
        (false, "!".to_string()),
    ];
    assert_eq!(expected, result);
}

#[test]
fn template_string_template_var_at_end() {
    let result = parse_template("{a}").unwrap();
    let expected = vec![
        (true, "a".to_string()),
    ];
    assert_eq!(expected, result);
}

#[test]
fn template_string_escaped_template() {
    let result = parse_template("Hello \\{world\\}!").unwrap();
    let expected = vec![
        (false, "Hello {world}!".to_string()),
    ];
    assert_eq!(expected, result);
}

#[test]
fn template_string_nested_template_var() {
    let result = parse_template("Hello {{world}}!");
    assert!(result.is_err());
}

#[test]
fn template_string_wrong_character_escaped() {
    let result = parse_template("Hello w\\orld!");
    assert!(result.is_err());
}

#[test]
fn template_string_unclosed_template_var() {
    let result = parse_template("Hello {world!");
    assert!(result.is_err());
}

#[test]
fn template_string_empty_template_var() {
    let result = parse_template("Hello {}!").unwrap();
    let expected = vec![
        (false, "Hello ".to_string()),
        (false, "!".to_string()),
    ];
    assert_eq!(expected, result);
}

#[test]
fn template_string_empty_template() {
    let result = parse_template("").unwrap();
    let expected: Vec<(bool, String)> = Vec::new();
    assert_eq!(expected, result);
}
