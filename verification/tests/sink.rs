use mopper::sink::std_out::StdOutSink;
use mopper::sink::writer_sink::{block_of, WriterSink};
use mopper::text_set::{hash_text, TextSet};

fn t(items: &[&str]) -> Vec<String> {
    items.iter().map(|s| s.to_string()).collect()
}

#[test]
fn deduplicating_sink_writes_each_line_once() {
    let mut sink = WriterSink::new(&4, true);
    let mut written = String::new();
    for line in ["a", "a", "b", "a"] {
        if let Some(text) = sink.on_tuple(&t(&["3", line])) {
            written.push_str(&text);
        }
    }
    assert_eq!(written, "a\nb\n");
}

#[test]
fn sink_without_deduplication_writes_every_line() {
    let mut sink = WriterSink::new(&4, false);
    let mut written = String::new();
    for line in ["a", "a", "b", "a"] {
        if let Some(text) = sink.on_tuple(&t(&["3", line])) {
            written.push_str(&text);
        }
    }
    assert_eq!(written, "a\na\nb\na\n");
}

#[test]
fn deduplication_looks_at_the_text_not_at_the_sender() {
    let mut sink = WriterSink::new(&4, true);
    assert_eq!(sink.on_tuple(&t(&["1", "x"])), Some("x\n".to_string()));
    assert_eq!(sink.on_tuple(&t(&["2", "x"])), None);
    assert_eq!(sink.on_tuple(&t(&["2", "x", "y"])), Some("x\ny\n".to_string()));
    assert_eq!(sink.on_tuple(&t(&["2", "x", "y"])), None);
}

#[test]
fn the_elements_after_the_first_are_joined_with_line_breaks() {
    assert_eq!(block_of(&t(&["1", "a", "b", "c"])), "a\nb\nc\n");
    assert_eq!(block_of(&t(&["1", "a"])), "a\n");
    assert_eq!(block_of(&t(&["1"])), "\n");
    assert_eq!(block_of(&t(&[])), "\n");
    assert_eq!(block_of(&t(&["1", "", ""])), "\n\n");
}

#[test]
fn sink_ends_with_success() {
    let sink = WriterSink::new(&4, true);
    assert_eq!(sink.status(), (0, String::new()));
}

#[test]
fn std_out_sink_ends_every_element_with_a_line_break() {
    let sink = StdOutSink::new();
    assert_eq!(sink.on_tuple(&t(&["1", "a", "b"])), "a\nb\n");
    assert_eq!(sink.on_tuple(&t(&["1"])), "");
    assert_eq!(sink.on_tuple(&t(&[])), "");
}

#[test]
fn text_set_holds_each_text_once() {
    let mut set = TextSet::new();
    assert!(!set.contains("a"));
    assert!(set.insert("a".to_string()));
    assert!(set.contains("a"));
    assert!(!set.insert("a".to_string()));
    assert!(set.insert("".to_string()));
    assert!(set.contains(""));
    assert!(!set.contains("b"));
    for i in 0..500 {
        assert!(set.insert(format!("line {i}")));
    }
    for i in 0..500 {
        assert!(set.contains(&format!("line {i}")));
        assert!(!set.insert(format!("line {i}")));
    }
    assert!(!set.contains("line 500"));
}

#[test]
fn text_hash_mixes_in_one_character_after_the_other() {
    assert_eq!(hash_text(""), 7);
    assert_eq!(hash_text("a"), 7 * 31 + 97);
    assert_eq!(hash_text("ab"), (7 * 31 + 97) * 31 + 98);
    let long = "x".repeat(100);
    let mut h: u64 = 7;
    for _ in 0..100 {
        h = h.wrapping_mul(31).wrapping_add(120);
    }
    assert_eq!(hash_text(&long), h);
}
