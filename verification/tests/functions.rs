use mopper::function::any_function::{tag_of, AnyFunction};
use mopper::function::basic_function::{BasicFunction, ResultType};
use mopper::function::blank_node::BlankNodeFunction;
use mopper::function::constant::ConstantFunction;
use mopper::function::iri::{settled_iri, with_base, IriFunction};
use mopper::function::literal::LiteralFunction;
use mopper::function::reference::ReferenceFunction;
use mopper::function::template_function_value::TemplateFunctionValueFunction;
use mopper::function::template_parser::parse_template;
use mopper::function::template_string::TemplateStrFunction;
use mopper::function::uri_encode::UriEncodeFunction;
use mopper::util::remove_join_alias_prefix;

fn t(items: &[&str]) -> Vec<String> {
    items.iter().map(|s| s.to_string()).collect()
}

fn constant(v: &str) -> Box<AnyFunction> {
    Box::new(AnyFunction::Constant(ConstantFunction::new(v.to_string())))
}

fn reference(name: &str) -> Box<AnyFunction> {
    Box::new(AnyFunction::Reference(ReferenceFunction::new(name.to_string(), &None)))
}

#[test]
fn constant_gives_its_value() {
    let mut f = ConstantFunction::new("v".to_string());
    f.variable_names(&t(&["a", "b"]));
    assert_eq!(f.exec(&t(&["1", "2"])), t(&["v"]));
    assert_eq!(f.exec(&t(&[])), t(&["v"]));
    assert_eq!(f.get_result_type(), "str");
}

#[test]
fn reference_gives_the_first_column_with_its_name() {
    let mut f = ReferenceFunction::new("b".to_string(), &None);
    assert_eq!(f.exec(&t(&["1", "2", "3"])), t(&["1"]));
    f.variable_names(&t(&["a", "b", "b"]));
    assert!(f.can_eval(&t(&["1", "2", "3"])));
    assert_eq!(f.exec(&t(&["1", "2", "3"])), t(&["2"]));
    assert!(!f.can_eval(&t(&["1"])));
    assert_eq!(f.get_result_type(), "str");
}

#[test]
fn reference_points_to_the_first_column_if_no_column_has_its_name() {
    let mut f = ReferenceFunction::new("zz".to_string(), &None);
    f.variable_names(&t(&["a", "zz"]));
    assert_eq!(f.exec(&t(&["1", "2"])), t(&["2"]));
    f.variable_names(&t(&["a", "b"]));
    assert_eq!(f.exec(&t(&["1", "2"])), t(&["1"]));
    assert!(!f.can_eval(&t(&[])));
}

#[test]
fn reference_loses_the_alias_prefix() {
    let mut f = ReferenceFunction::new("j_b".to_string(), &Some("j".to_string()));
    f.variable_names(&t(&["a", "b", "j_a", "j_b"]));
    assert_eq!(f.exec(&t(&["1", "2", "3", "4"])), t(&["2"]));
}

#[test]
fn alias_prefix_is_taken_off_only_with_its_underscore() {
    assert_eq!(remove_join_alias_prefix("j_a", &Some("j".to_string())), "a");
    assert_eq!(remove_join_alias_prefix("j_a", &None), "j_a");
    assert_eq!(remove_join_alias_prefix("ja", &Some("j".to_string())), "ja");
    assert_eq!(remove_join_alias_prefix("jxa", &Some("j".to_string())), "jxa");
    assert_eq!(remove_join_alias_prefix("j", &Some("j".to_string())), "j");
    assert_eq!(remove_join_alias_prefix("j_", &Some("j".to_string())), "");
    assert_eq!(remove_join_alias_prefix("a_j_b", &Some("j".to_string())), "a_j_b");
    assert_eq!(remove_join_alias_prefix("é_ü", &Some("é".to_string())), "ü");
    assert_eq!(remove_join_alias_prefix("_x", &Some("".to_string())), "x");
}

#[test]
fn template_string_fills_in_the_values_as_they_are() {
    let mut f = TemplateStrFunction::new("http://ex/person/{id}/{name}!", &None).unwrap();
    f.variable_names(&t(&["id", "name"]));
    assert!(f.can_eval(&t(&["1", "A b/c"])));
    assert_eq!(f.exec(&t(&["1", "A b/c"])), t(&["http://ex/person/1/A b/c!"]));
    assert_eq!(f.get_result_type(), "str");
}

#[test]
fn template_string_takes_the_last_column_with_a_name() {
    let mut f = TemplateStrFunction::new("{x}", &None).unwrap();
    f.variable_names(&t(&["x", "y", "x"]));
    assert_eq!(f.exec(&t(&["1", "2", "3"])), t(&["3"]));
    assert_eq!(f.exec(&t(&["1", "2"])), t(&["1"]));
}

#[test]
fn template_string_cannot_be_evaluated_without_its_columns() {
    let mut f = TemplateStrFunction::new("{x}-{y}", &None).unwrap();
    assert!(!f.can_eval(&t(&["1"])));
    f.variable_names(&t(&["x"]));
    assert!(!f.can_eval(&t(&["1"])));
    assert!(!f.can_eval(&t(&["1", "2"])));
    f.variable_names(&t(&["x", "y"]));
    assert!(f.can_eval(&t(&["1", "2"])));
    assert!(!f.can_eval(&t(&["1"])));
    assert!(!f.can_eval(&t(&["1", "2", "3"])));
}

#[test]
fn template_string_with_alias() {
    let mut f = TemplateStrFunction::new("{j_a}/{b}", &Some("j".to_string())).unwrap();
    f.variable_names(&t(&["a", "b"]));
    assert_eq!(f.exec(&t(&["1", "2"])), t(&["1/2"]));
}

#[test]
fn template_string_reports_a_template_that_does_not_parse() {
    let e = TemplateStrFunction::new("{a", &None).err().unwrap();
    assert_eq!(e.to_string(), "\"Error parsing template '{a': missing '}' (code 1)\"");
}

#[test]
fn template_over_expressions_takes_the_first_value_of_each() {
    let subs = vec![
        ("x".to_string(), *reference("b")),
        ("y".to_string(), *constant("C")),
        ("x".to_string(), *constant("never")),
    ];
    let mut f = TemplateFunctionValueFunction::new("{x}-{y}-{x}", subs, &None).unwrap();
    f.variable_names(&t(&["a", "b"]));
    assert!(f.can_eval(&t(&["1", "2"])));
    assert_eq!(f.exec(&t(&["1", "2"])), t(&["2-C-2"]));
    assert!(!f.can_eval(&t(&["1"])));
    assert_eq!(f.get_result_type(), "str");
    let missing = TemplateFunctionValueFunction::new("{z}", vec![], &None).unwrap();
    assert!(!missing.can_eval(&t(&["1"])));
    assert!(TemplateFunctionValueFunction::new("{z", vec![], &None).is_err());
}

#[test]
fn iri_passes_an_absolute_iri_on() {
    let f = IriFunction::new(&Some("http://base/".to_string()), constant("http://ex.com/a?b#c"));
    assert_eq!(f.exec(&t(&[])), t(&["http://ex.com/a?b#c"]));
    assert_eq!(f.get_result_type(), "iri");
}

#[test]
fn iri_puts_the_base_in_front_of_what_is_not_absolute() {
    let f = IriFunction::new(&Some("http://base/".to_string()), constant("person/1"));
    assert_eq!(f.exec(&t(&[])), t(&["http://base/person/1"]));
    let f = IriFunction::new(&None, constant("person/1"));
    assert_eq!(f.exec(&t(&[])), t(&["person/1"]));
}

#[test]
fn iri_gives_invalid_for_what_is_no_iri() {
    let f = IriFunction::new(&None, constant("not an iri"));
    assert_eq!(f.exec(&t(&[])), t(&["INVALID"]));
    let f = IriFunction::new(&Some("http://base/".to_string()), constant("a b"));
    assert_eq!(f.exec(&t(&[])), t(&["INVALID"]));
    let f = IriFunction::new(&Some("no base ".to_string()), constant("x"));
    assert_eq!(f.exec(&t(&[])), t(&["INVALID"]));
}

#[test]
fn iri_binds_and_evaluates_its_inner_expression() {
    let mut f = IriFunction::new(&Some("http://base/".to_string()), reference("id"));
    f.variable_names(&t(&["name", "id"]));
    assert!(f.can_eval(&t(&["n", "7"])));
    assert!(!f.can_eval(&t(&["n"])));
    assert_eq!(f.exec(&t(&["n", "7"])), t(&["http://base/7"]));
}

#[test]
fn the_verdicts_settle_the_iri() {
    let v = || "v".to_string();
    let full = || "bv".to_string();
    assert_eq!(settled_iri(v(), true, full(), true), "v");
    assert_eq!(settled_iri(v(), true, full(), false), "v");
    assert_eq!(settled_iri(v(), false, full(), true), "bv");
    assert_eq!(settled_iri(v(), false, full(), false), "INVALID");
    assert_eq!(with_base(&Some("b".to_string()), "v"), "bv");
    assert_eq!(with_base(&None, "v"), "v");
}

#[test]
fn literal_and_blank_node_pass_the_inner_values_on() {
    let mut l = LiteralFunction::new(reference("b"));
    l.variable_names(&t(&["a", "b"]));
    assert_eq!(l.exec(&t(&["1", "2"])), t(&["2"]));
    assert_eq!(l.get_result_type(), "lit");
    assert!(l.can_eval(&t(&["1", "2"])));
    let mut b = BlankNodeFunction::new(reference("a"));
    b.variable_names(&t(&["a", "b"]));
    assert_eq!(b.exec(&t(&["1", "2"])), t(&["1"]));
    assert_eq!(b.get_result_type(), "blank");
}

#[test]
fn uri_encode_escapes_what_a_uri_reserves() {
    let f = UriEncodeFunction::_new(constant("a b/c?d=é%"));
    assert_eq!(f.exec(&t(&[])), t(&["a%20b%2Fc%3Fd%3D%C3%A9%25"]));
    assert_eq!(f.get_result_type(), "str");
    let mut f = UriEncodeFunction::_new(reference("x"));
    f.variable_names(&t(&["x"]));
    assert!(f.can_eval(&t(&["Hello World!"])));
    assert_eq!(f.exec(&t(&["Hello World!"])), t(&["Hello%20World%21"]));
    assert_eq!(f.exec(&t(&["plain-text_1.~"])), t(&["plain-text_1.~"]));
}

#[test]
fn any_function_does_what_the_expression_in_it_does() {
    let mut f = AnyFunction::Literal(LiteralFunction::new(reference("b")));
    f.variable_names(&t(&["a", "b"]));
    assert_eq!(f.exec(&t(&["1", "2"])), t(&["2"]));
    assert_eq!(f.get_result_type(), "lit");
    assert_eq!(f.result_type(), ResultType::Lit);
    assert_eq!(AnyFunction::Iri(IriFunction::new(&None, constant("x"))).result_type(), ResultType::Iri);
    assert_eq!(AnyFunction::BlankNode(BlankNodeFunction::new(constant("x"))).result_type(), ResultType::Blank);
    assert_eq!(constant("x").result_type(), ResultType::Str);
    assert_eq!(AnyFunction::UriEncode(UriEncodeFunction::_new(constant("x"))).result_type(), ResultType::Str);
    assert_eq!(tag_of(ResultType::Str), "str");
    assert_eq!(tag_of(ResultType::Iri), "iri");
    assert_eq!(tag_of(ResultType::Lit), "lit");
    assert_eq!(tag_of(ResultType::Blank), "blank");
}

#[test]
fn escaped_braces_give_one_literal_part() {
    assert_eq!(parse_template("\\{x\\}", &None).unwrap(), vec![(false, "{x}".to_string())]);
    assert_eq!(parse_template("a\\\\b", &None).unwrap(), vec![(false, "a\\b".to_string())]);
}

#[test]
fn literal_parts_are_the_template_without_its_segments() {
    let parts = parse_template("ab{x}cd{}{y}e", &None).unwrap();
    let literal: String =
        parts.iter().filter(|(is_variable, _)| !is_variable).map(|(_, text)| text.as_str()).collect();
    assert_eq!(literal, "abcde");
    assert_eq!(
        parts,
        vec![
            (false, "ab".to_string()),
            (true, "x".to_string()),
            (false, "cd".to_string()),
            (true, "y".to_string()),
            (false, "e".to_string()),
        ]
    );
}

#[test]
fn variable_names_lose_the_alias_prefix() {
    let parts = parse_template("{j_a}{b}{j_}j_c", &Some("j".to_string())).unwrap();
    assert_eq!(
        parts,
        vec![
            (true, "a".to_string()),
            (true, "b".to_string()),
            (true, "".to_string()),
            (false, "j_c".to_string()),
        ]
    );
}

#[test]
fn template_parse_errors() {
    let message = |template: &str| parse_template(template, &None).err().unwrap().to_string();
    assert_eq!(message("{a"), "\"Error parsing template '{a': missing '}' (code 1)\"");
    assert_eq!(
        message("a}b"),
        "\"Error parsing template 'a}b': Unescaped '}' found between {}. (code 1)\""
    );
    assert_eq!(
        message("\\x"),
        "\"Error parsing template '\\\\x': character 'x' is being escaped, but it doesn't need escaping. (code 1)\""
    );
    assert_eq!(
        message("{{x}}"),
        "\"Error parsing template '{{x}}': Unescaped '{' found between {}. (code 1)\""
    );
    assert_eq!(
        message("ab\\"),
        "\"Error parsing template 'ab\\\\': expecting character to escape after final '\\\\' (code 1)\""
    );
    assert_eq!(message("{a\\"), "\"Error parsing template '{a\\\\': missing '}' (code 1)\"");
}
