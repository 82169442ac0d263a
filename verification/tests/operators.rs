use mopper::error::{aggregate, GeneralError};
use mopper::fabric::{has_receiver, senders_for};
use mopper::function::basic_function::BasicFunction;
use mopper::mopper_options::{ForcedOutput, MopperOptions, MopperOptionsBuilder};
use mopper::operator::extension::{get_function, ExtendOperator};
use mopper::plan::{Node, PlanGraph};
use mopper::plan_rewriter::rewrite;
use mopper::schema::{
    DataFormat, Extend, Function, IOType, Join, JoinType, Operator, ReferenceFormulation,
    Serializer, Source, Target,
};
use mopper::serializer::{create_template_template_string_parts, format_value, SerializeOperator};
use mopper::sink::writer_sink::WriterSink;
use mopper::source::csv_file::{find_file, CSVFileSource};
use mopper::text::{
    chars_of, copy_strings, decimal_string, find_last_text, find_text, payload_of, same_text, string_of,
};
use std::collections::HashSet;

fn t(items: &[&str]) -> Vec<String> {
    items.iter().map(|s| s.to_string()).collect()
}

fn boxed(f: Function) -> Box<Function> {
    Box::new(f)
}

fn person_pairs() -> Vec<(String, Function)> {
    vec![
        (
            "?s".to_string(),
            Function::Iri {
                base_iri: None,
                inner_function: boxed(Function::TemplateString {
                    value: "http://ex/person/{id}".to_string(),
                }),
            },
        ),
        (
            "?p".to_string(),
            Function::Iri {
                base_iri: None,
                inner_function: boxed(Function::Constant { value: "http://ex/name".to_string() }),
            },
        ),
        (
            "?o".to_string(),
            Function::Literal {
                inner_function: boxed(Function::Reference { value: "name".to_string() }),
            },
        ),
    ]
}

#[test]
fn extend_announces_names_and_types() {
    let op = ExtendOperator::new(&person_pairs(), &5, &None).unwrap();
    assert_eq!(op.header_tuple(), t(&["5", "s", "p", "o"]));
    assert_eq!(op.type_tuple(), t(&["5", "iri", "iri", "lit"]));
}

#[test]
fn extend_strips_one_character_of_each_name() {
    let pairs = vec![
        ("".to_string(), Function::Constant { value: "a".to_string() }),
        ("x".to_string(), Function::Constant { value: "b".to_string() }),
        ("éy".to_string(), Function::BlankNode { inner_function: boxed(Function::Constant { value: "c".to_string() }) }),
    ];
    let op = ExtendOperator::new(&pairs, &12, &None).unwrap();
    assert_eq!(op.header_tuple(), t(&["12", "", "", "y"]));
    assert_eq!(op.type_tuple(), t(&["12", "str", "str", "blank"]));
}

#[test]
fn extend_binds_the_header_and_evaluates_the_data() {
    let mut op = ExtendOperator::new(&person_pairs(), &5, &None).unwrap();
    assert!(op.awaits_header());
    assert_eq!(op.on_tuple(&t(&["0", "id", "name"])), None);
    assert!(!op.awaits_header());
    assert!(op.is_ready_for(&t(&["0", "1", "Alice"])));
    assert_eq!(
        op.on_tuple(&t(&["0", "1", "Alice"])),
        Some(t(&["5", "http://ex/person/1", "http://ex/name", "Alice"]))
    );
    assert!(!op.is_ready_for(&t(&["0", "1"])));
    assert_eq!(
        op.on_tuple(&t(&["0", "2", "Bob"])),
        Some(t(&["5", "http://ex/person/2", "http://ex/name", "Bob"]))
    );
}

#[test]
fn extend_after_a_self_join_sees_every_column_twice() {
    let pairs = vec![
        ("?x".to_string(), Function::TemplateString { value: "{a}-{j_b}".to_string() }),
        ("?y".to_string(), Function::Reference { value: "j_a".to_string() }),
        ("?z".to_string(), Function::Reference { value: "b".to_string() }),
    ];
    let mut op = ExtendOperator::new(&pairs, &3, &Some("j".to_string())).unwrap();
    assert_eq!(op.on_tuple(&t(&["0", "a", "b"])), None);
    assert!(op.is_ready_for(&t(&["0", "1", "2"])));
    assert_eq!(op.on_tuple(&t(&["0", "1", "2"])), Some(t(&["3", "1-2", "1", "2"])));
}

#[test]
fn extend_fails_early_on_a_template_that_does_not_parse() {
    let pairs = vec![
        ("?a".to_string(), Function::Constant { value: "a".to_string() }),
        ("?b".to_string(), Function::Literal { inner_function: boxed(Function::TemplateString { value: "x}".to_string() }) }),
        ("?c".to_string(), Function::TemplateString { value: "{y".to_string() }),
    ];
    let e = ExtendOperator::new(&pairs, &3, &None).err().unwrap();
    assert_eq!(
        e.to_string(),
        "\"Error parsing template 'x}': Unescaped '}' found between {}. (code 1)\""
    );
}

#[test]
fn a_description_becomes_its_expression() {
    let mut f = get_function(
        &Function::UriEncode {
            inner_function: boxed(Function::Reference { value: "a".to_string() }),
        },
        &None,
    )
    .unwrap();
    f.variable_names(&t(&["a"]));
    assert_eq!(f.exec(&t(&["x y"])), t(&["x y"]));
    let mut f = get_function(
        &Function::TemplateFunctionValue {
            template: "{x}+{y}".to_string(),
            variable_function_pairs: vec![
                ("x".to_string(), Function::Reference { value: "b".to_string() }),
                (
                    "y".to_string(),
                    Function::Iri {
                        base_iri: Some("http://b/".to_string()),
                        inner_function: boxed(Function::Reference { value: "a".to_string() }),
                    },
                ),
            ],
        },
        &None,
    )
    .unwrap();
    f.variable_names(&t(&["a", "b"]));
    assert_eq!(f.exec(&t(&["1", "2"])), t(&["2+http://b/1"]));
    let bad = get_function(
        &Function::TemplateFunctionValue {
            template: "{x".to_string(),
            variable_function_pairs: vec![(
                "x".to_string(),
                Function::TemplateString { value: "\\z".to_string() },
            )],
        },
        &None,
    );
    assert_eq!(
        bad.err().unwrap().to_string(),
        "\"Error parsing template '\\\\z': character 'z' is being escaped, but it doesn't need escaping. (code 1)\""
    );
    let copy = Function::Iri {
        base_iri: Some("b".to_string()),
        inner_function: boxed(Function::Constant { value: "c".to_string() }),
    }
    .duplicate();
    assert!(matches!(copy, Function::Iri { base_iri: Some(b), .. } if b == "b"));
}

#[test]
fn statement_template_is_split_at_question_marks_and_spaces() {
    let part = |v: bool, s: &str| (v, s.to_string());
    assert_eq!(
        create_template_template_string_parts("?s ?p ?o ."),
        vec![part(true, "s"), part(false, " "), part(true, "p"), part(false, " "), part(true, "o"), part(false, " .")]
    );
    assert_eq!(
        create_template_template_string_parts("<?s> <?p> ?o ."),
        vec![part(false, "<"), part(true, "s>"), part(false, " <"), part(true, "p>"), part(false, " "), part(true, "o"), part(false, " .")]
    );
    assert_eq!(create_template_template_string_parts("a b"), vec![part(false, "a b")]);
    assert_eq!(create_template_template_string_parts("?a?b"), vec![part(false, "ab")]);
    assert_eq!(create_template_template_string_parts("? x"), vec![part(false, " x")]);
    assert_eq!(create_template_template_string_parts(""), Vec::<(bool, String)>::new());
}

#[test]
fn values_are_formatted_by_their_types() {
    assert_eq!(format_value("v", "iri"), Some("<v>".to_string()));
    assert_eq!(format_value("v", "lit"), Some("\"v\"".to_string()));
    assert_eq!(format_value("v", "blank"), Some("_:v".to_string()));
    assert_eq!(format_value("v", "str"), Some("str".to_string()));
    assert_eq!(format_value("v", "other"), None);
}

fn nt(template: &str) -> Serializer {
    Serializer { template: template.to_string(), format: DataFormat::NTriples }
}

#[test]
fn serializer_writes_a_line_for_each_data_tuple() {
    let mut op = SerializeOperator::new(&nt("?s ?p ?o ."), &7);
    assert!(!op.can_render(&t(&["5", "a", "b", "c"])));
    assert_eq!(op.on_tuple(&t(&["5", "s", "p", "o"])), None);
    assert!(!op.can_render(&t(&["5", "a", "b", "c"])));
    assert!(op.awaits_header());
    assert_eq!(op.on_tuple(&t(&["5", "iri", "blank", "lit"])), None);
    assert!(!op.awaits_header());
    assert!(op.can_render(&t(&["5", "a", "b", "c"])));
    assert_eq!(op.on_tuple(&t(&["5", "a", "b", "c"])), Some(t(&["7", "<a> _:b \"c\" ."])));
    assert_eq!(op.on_tuple(&t(&["5", "x", "y", "z"])), Some(t(&["7", "<x> _:y \"z\" ."])));
    assert!(!op.can_render(&t(&["5", "a", "b"])));
    assert!(!op.can_render(&t(&["5", "a", "b", "c", "d"])));
}

#[test]
fn serializer_writes_the_tag_for_a_plain_string() {
    let mut op = SerializeOperator::new(
        &Serializer { template: "?a ?b ".to_string(), format: DataFormat::NQuads },
        &7,
    );
    op.on_tuple(&t(&["5", "a", "b"]));
    op.on_tuple(&t(&["5", "str", "nothing known"]));
    assert!(!op.can_render(&t(&["5", "1", "2"])));
    let mut op = SerializeOperator::new(
        &Serializer { template: "?a ?b".to_string(), format: DataFormat::NQuads },
        &7,
    );
    op.on_tuple(&t(&["5", "a", "b"]));
    op.on_tuple(&t(&["5", "str", "nothing known"]));
    assert!(op.can_render(&t(&["5", "1", "2"])));
    assert_eq!(op.on_tuple(&t(&["5", "1", "2"])), Some(t(&["7", "str b"])));
    let mut op = SerializeOperator::new(&nt("?a ?a "), &7);
    op.on_tuple(&t(&["5", "a", "a"]));
    op.on_tuple(&t(&["5", "str", "lit"]));
    assert!(op.can_render(&t(&["5", "1", "2"])));
    assert_eq!(op.on_tuple(&t(&["5", "1", "2"])), Some(t(&["7", "\"2\" \"2\" "])));
    assert_eq!(op.on_tuple(&t(&["5", "1"])), Some(t(&["7", "str str "])));
}

#[test]
fn payload_is_the_tuple_without_its_sender() {
    assert_eq!(payload_of(&t(&["1", "a", "b"])), t(&["a", "b"]));
    assert_eq!(payload_of(&t(&["1"])), t(&[]));
    assert_eq!(payload_of(&t(&[])), t(&[]));
}

#[test]
fn csv_source_passes_on_the_attributes_asked_for() {
    let attributes = Some(t(&["name", "missing", "id"]));
    let mut src = CSVFileSource::new("people.csv".to_string(), &attributes, &0);
    assert_eq!(src.file_path(), "people.csv");
    assert_eq!(src.on_header(&t(&["id", "name", "age"])), t(&["0", "name", "missing", "id"]));
    assert!(src.fits(&t(&["1", "Alice", "30"])));
    assert_eq!(src.on_record(&t(&["1", "Alice", "30"])), t(&["0", "Alice", "1"]));
    assert!(src.fits(&t(&["1", "Alice"])));
    assert!(!src.fits(&t(&["1"])));
    assert_eq!(src.open_failure("no such file"), (1, "Cannot open people.csv: no such file".to_string()));
}

#[test]
fn csv_source_without_attributes_passes_on_the_identifier_only() {
    let mut src = CSVFileSource::new("a.csv".to_string(), &None, &42);
    assert_eq!(src.on_header(&t(&["id"])), t(&["42"]));
    assert!(src.fits(&t(&[])));
    assert_eq!(src.on_record(&t(&["1"])), t(&["42"]));
}

#[test]
fn a_source_file_is_looked_for_under_the_hint_too() {
    let hinted = Some("dir/a.csv".to_string());
    assert_eq!(find_file("a.csv", true, &hinted, true), Some("a.csv".to_string()));
    assert_eq!(find_file("a.csv", true, &None, false), Some("a.csv".to_string()));
    assert_eq!(find_file("a.csv", false, &hinted, true), Some("dir/a.csv".to_string()));
    assert_eq!(find_file("a.csv", false, &hinted, false), None);
    assert_eq!(find_file("a.csv", false, &None, true), None);
}

#[test]
fn options_have_defaults() {
    let options = MopperOptionsBuilder::default().build().unwrap();
    assert!(!options.force_to_std_out());
    assert_eq!(options.force_to_file(), &None);
    assert_eq!(options.working_dir_hint(), &None);
    assert_eq!(options.message_buffer_capacity(), 128);
    assert!(!options.deduplicate());
    assert!(!options.to_one_target());
    let options = MopperOptions::default();
    assert_eq!(options.message_buffer_capacity(), 128);
    assert!(!options.to_one_target());
}

#[test]
fn options_are_set_one_by_one() {
    let options = MopperOptionsBuilder::default()
        .force_to_file("out.nq")
        .working_dir_hint("dir")
        .message_buffer_capacity(0)
        .deduplicate(true)
        .build()
        .unwrap();
    assert!(!options.force_to_std_out());
    assert_eq!(options.force_to_file(), &Some("out.nq".to_string()));
    assert_eq!(options.working_dir_hint(), &Some("dir".to_string()));
    assert_eq!(options.message_buffer_capacity(), 0);
    assert!(options.deduplicate());
    assert!(options.to_one_target());
    let mut builder = MopperOptionsBuilder::default();
    builder.force_to_std_out(true);
    let options = builder.build().unwrap();
    assert!(options.force_to_std_out());
    assert!(options.to_one_target());
    assert_eq!(options.force_to_file(), &None);
}

#[test]
fn standard_output_goes_before_a_file() {
    let mut builder = MopperOptionsBuilder::default();
    assert!(matches!(builder.build().unwrap().forced_output(), ForcedOutput::Nowhere));
    builder.force_to_file("out.nq");
    assert!(matches!(builder.build().unwrap().forced_output(), ForcedOutput::File(p) if p == "out.nq"));
    builder.force_to_std_out(true);
    assert!(matches!(builder.build().unwrap().forced_output(), ForcedOutput::StdOut));
}

#[test]
fn failures_are_written_line_by_line() {
    let e = GeneralError::new(vec![(1, "first".to_string()), (200, "second \"x\"".to_string())]);
    assert_eq!(e.to_string(), "\"first (code 1)\\nsecond \\\"x\\\" (code 200)\"");
    assert_eq!(GeneralError::from_msg("m".to_string()).to_string(), "\"m (code 1)\"");
    assert_eq!(GeneralError::new(vec![]).to_string(), "\"\"");
}

#[test]
fn statuses_other_than_zero_make_a_failure() {
    assert!(aggregate(vec![]).is_ok());
    assert!(aggregate(vec![(0, String::new()), (0, "fine".to_string())]).is_ok());
    let e = aggregate(vec![(0, String::new()), (1, "a".to_string()), (0, "b".to_string()), (3, "c".to_string())])
        .err()
        .unwrap();
    assert_eq!(e.to_string(), "\"a (code 1)\\nc (code 3)\"");
}

#[test]
fn numbers_are_written_in_decimal() {
    assert_eq!(decimal_string(0), "0");
    assert_eq!(decimal_string(7), "7");
    assert_eq!(decimal_string(10), "10");
    assert_eq!(decimal_string(1203), "1203");
    assert_eq!(decimal_string(usize::MAX), usize::MAX.to_string());
}

#[test]
fn text_helpers() {
    assert_eq!(chars_of("aé"), vec!['a', 'é']);
    assert_eq!(string_of(&vec!['a', 'b', 'c'], 1, 3), "bc");
    assert_eq!(string_of(&vec!['a'], 1, 1), "");
    assert_eq!(copy_strings(&t(&["a", "b"])), t(&["a", "b"]));
    assert!(same_text("abc", "abc"));
    assert!(!same_text("abc", "abd"));
    assert!(!same_text("abc", "ab"));
    assert_eq!(find_text(&t(&["a", "b", "a"]), "a"), Some(0));
    assert_eq!(find_text(&t(&["a", "b", "a"]), "c"), None);
    assert_eq!(find_last_text(&t(&["a", "b", "a"]), 3, "a"), Some(2));
    assert_eq!(find_last_text(&t(&["a", "b", "a"]), 2, "a"), Some(0));
    assert_eq!(find_last_text(&t(&["a", "b", "a"]), 0, "a"), None);
}

fn node(operator: Operator) -> Node {
    Node { operator, from: Vec::new(), to: HashSet::new(), attributes: None, join_alias: None }
}

#[test]
fn senders_follow_the_upstream_lists() {
    let src = |f: u64| {
        node(Operator::SourceOp {
            config: Source {
                fingerprint: f,
                source_type: IOType::File,
                path: "a.csv".to_string(),
                reference_formulation: ReferenceFormulation::CSVRows,
            },
        })
    };
    let join = node(Operator::JoinOp {
        config: Join {
            left_right_attr_pairs: vec![("a".to_string(), "b".to_string())],
            join_type: JoinType::InnerJoin,
            join_alias: "j".to_string(),
        },
    });
    let ext = node(Operator::ExtendOp { config: Extend { extend_pairs: vec![] } });
    let tgt = node(Operator::TargetOp { config: Target { fingerprint: 9, target_type: IOType::StdOut } });
    let plan = PlanGraph {
        nodes: vec![src(1), src(2), join, ext, tgt],
        edges: vec![(0, 2), (1, 2), (2, 3), (0, 3), (3, 4)],
    };
    let map = rewrite(&plan, false);
    assert_eq!(senders_for(&map, 0, 5), vec![2, 3]);
    assert_eq!(senders_for(&map, 1, 5), vec![2]);
    assert_eq!(senders_for(&map, 2, 5), vec![3]);
    assert_eq!(senders_for(&map, 3, 5), vec![4]);
    assert_eq!(senders_for(&map, 4, 5), Vec::<usize>::new());
    assert_eq!(senders_for(&map, 0, 3), vec![2]);
    assert!(!has_receiver(&map[&0]));
    assert!(has_receiver(&map[&2]));
    assert!(has_receiver(&map[&4]));
}

#[test]
fn one_source_through_extend_and_serializer_to_the_sink() {
    let mut source = CSVFileSource::new("people.csv".to_string(), &Some(t(&["id", "name"])), &0);
    let mut extend = ExtendOperator::new(&person_pairs(), &1, &None).unwrap();
    let mut serializer = SerializeOperator::new(&nt("?s ?p ?o ."), &2);
    let mut sink = WriterSink::new(&3, false);
    let mut written = String::new();

    assert_eq!(serializer.on_tuple(&extend.header_tuple()), None);
    assert_eq!(serializer.on_tuple(&extend.type_tuple()), None);
    let header = source.on_header(&t(&["id", "name"]));
    assert_eq!(header, t(&["0", "id", "name"]));
    assert_eq!(extend.on_tuple(&header), None);
    for row in [t(&["1", "Alice"]), t(&["2", "Bob"])] {
        assert!(source.fits(&row));
        let data = source.on_record(&row);
        assert!(extend.is_ready_for(&data));
        let extended = extend.on_tuple(&data).unwrap();
        assert!(serializer.can_render(&extended));
        let line = serializer.on_tuple(&extended).unwrap();
        written.push_str(&sink.on_tuple(&line).unwrap());
    }
    assert_eq!(
        written,
        "<http://ex/person/1> <http://ex/name> \"Alice\" .\n<http://ex/person/2> <http://ex/name> \"Bob\" .\n"
    );
}
