use mopper::operator::join::{join_tuples, process_data_for_one_join_side, JoinData, JoinOperator};
use mopper::schema::{Join, JoinType};

fn t(items: &[&str]) -> Vec<String> {
    items.iter().map(|s| s.to_string()).collect()
}

fn config(pairs: &[(&str, &str)], alias: &str) -> Join {
    Join {
        left_right_attr_pairs: pairs.iter().map(|(a, b)| (a.to_string(), b.to_string())).collect(),
        join_type: JoinType::InnerJoin,
        join_alias: alias.to_string(),
    }
}

fn run(op: &mut JoinOperator, tuples: &[Vec<String>]) -> Vec<Vec<String>> {
    let mut out = Vec::new();
    for tuple in tuples {
        out.extend(op.on_tuple(tuple));
    }
    out
}

#[test]
fn inner_join_of_two_sources() {
    let mut op = JoinOperator::new(&config(&[("id", "fk")], "r"), &1, &2, &3);
    let out = run(
        &mut op,
        &[
            t(&["1", "id", "v"]),
            t(&["2", "fk", "w"]),
            t(&["1", "1", "A"]),
            t(&["1", "2", "B"]),
            t(&["2", "1", "X"]),
            t(&["2", "1", "Y"]),
            t(&["2", "3", "Z"]),
        ],
    );
    assert_eq!(
        out,
        vec![
            t(&["3", "id", "v", "r_fk", "r_w"]),
            t(&["3", "1", "A", "1", "X"]),
            t(&["3", "1", "A", "1", "Y"]),
        ]
    );
}

#[test]
fn inner_join_gives_the_same_tuples_for_another_order_of_arrival() {
    let mut op = JoinOperator::new(&config(&[("id", "fk")], "r"), &1, &2, &3);
    let out = run(
        &mut op,
        &[
            t(&["2", "fk", "w"]),
            t(&["2", "1", "X"]),
            t(&["1", "id", "v"]),
            t(&["2", "1", "Y"]),
            t(&["1", "1", "A"]),
            t(&["2", "3", "Z"]),
            t(&["1", "2", "B"]),
        ],
    );
    assert_eq!(out[0], t(&["3", "id", "v", "r_fk", "r_w"]));
    let mut data: Vec<Vec<String>> = out[1..].to_vec();
    data.sort();
    assert_eq!(data, vec![t(&["3", "1", "A", "1", "X"]), t(&["3", "1", "A", "1", "Y"])]);
}

#[test]
fn the_header_waits_for_both_sides() {
    let mut op = JoinOperator::new(&config(&[("id", "fk")], "r"), &1, &2, &3);
    assert!(op.on_tuple(&t(&["1", "id", "v"])).is_empty());
    assert!(op.on_tuple(&t(&["1", "1", "A"])).is_empty());
    assert_eq!(op.on_tuple(&t(&["2", "fk", "w"])), vec![t(&["3", "id", "v", "r_fk", "r_w"])]);
    assert_eq!(op.on_tuple(&t(&["2", "1", "X"])), vec![t(&["3", "1", "A", "1", "X"])]);
}

#[test]
fn a_tuple_of_neither_side_is_passed_over() {
    let mut op = JoinOperator::new(&config(&[("id", "fk")], "r"), &1, &2, &3);
    assert!(op.on_tuple(&t(&["9", "id", "v"])).is_empty());
    assert!(op.on_tuple(&t(&[])).is_empty());
    assert!(op.on_tuple(&t(&["1", "id", "v"])).is_empty());
    assert_eq!(op.on_tuple(&t(&["2", "fk", "w"])).len(), 1);
}

#[test]
fn join_on_two_attributes_takes_them_in_the_order_of_the_pairs() {
    let mut op = JoinOperator::new(&config(&[("a", "x"), ("b", "y")], "p"), &10, &11, &12);
    let out = run(
        &mut op,
        &[
            t(&["10", "b", "a"]),
            t(&["11", "x", "y"]),
            t(&["10", "B1", "A1"]),
            t(&["11", "A1", "B1"]),
            t(&["11", "B1", "A1"]),
            t(&["11", "A1", "B2"]),
        ],
    );
    assert_eq!(
        out,
        vec![t(&["12", "b", "a", "p_x", "p_y"]), t(&["12", "B1", "A1", "A1", "B1"])]
    );
}

#[test]
fn a_record_without_a_join_value_joins_with_nothing() {
    let mut op = JoinOperator::new(&config(&[("id", "fk")], "r"), &1, &2, &3);
    let out = run(
        &mut op,
        &[
            t(&["1", "other", "v"]),
            t(&["2", "fk", "w"]),
            t(&["1", "1", "A"]),
            t(&["2", "1", "X"]),
            t(&["2"]),
        ],
    );
    assert_eq!(out, vec![t(&["3", "other", "v", "r_fk", "r_w"])]);
}

#[test]
fn one_side_of_a_join() {
    let mut left = JoinData::new(t(&["id"]));
    let mut right = JoinData::new(t(&["fk"]));
    left.set_join_attribute_positions(&t(&["id", "v"]));
    right.set_join_attribute_positions(&t(&["w", "fk"]));
    assert_eq!(left.add(&t(&["1", "A"])), vec![Some("1".to_string())]);
    assert_eq!(left.add(&t(&["2", "B"])), vec![Some("2".to_string())]);
    assert_eq!(left.add(&t(&["1", "C"])), vec![Some("1".to_string())]);
    assert_eq!(left.return_values_if_match(&vec![Some("1".to_string())]), Some(vec![0, 2]));
    assert_eq!(left.return_values_if_match(&vec![Some("3".to_string())]), None);
    assert_eq!(left.return_values_if_match(&vec![None]), None);
    assert_eq!(left.record(2), &t(&["1", "C"]));
    assert_eq!(
        process_data_for_one_join_side(&t(&["X", "2"]), &mut right, &left),
        Some(vec![1])
    );
    assert_eq!(process_data_for_one_join_side(&t(&["Y", "7"]), &mut right, &left), None);
    assert_eq!(right.record(1), &t(&["Y", "7"]));
    assert_eq!(right.header(), &Some(t(&["w", "fk"])));
    assert!(JoinData::keys_agree(&vec![Some("a".to_string())], &vec![Some("a".to_string())]));
    assert!(!JoinData::keys_agree(&vec![None], &vec![None]));
    assert!(!JoinData::keys_agree(&vec![Some("a".to_string())], &vec![]));
    assert_eq!(JoinData::hash_key(&vec![None]), None);
    assert_eq!(JoinData::hash_key(&vec![Some("a".to_string()), None]), None);
    assert_eq!(JoinData::hash_key(&vec![]), Some(7));
    assert_eq!(
        JoinData::hash_key(&vec![Some("ab".to_string())]),
        Some(7 * 31 + ((7 * 31 + 97) * 31 + 98))
    );
}

#[test]
fn many_records_with_few_keys() {
    let mut op = JoinOperator::new(&config(&[("k", "k")], "r"), &1, &2, &3);
    op.on_tuple(&t(&["1", "k", "n"]));
    op.on_tuple(&t(&["2", "k", "m"]));
    for i in 0..200 {
        let key = (i % 7).to_string();
        let out = op.on_tuple(&t(&["1", &key, &i.to_string()]));
        assert!(out.is_empty());
    }
    let out = op.on_tuple(&t(&["2", "3", "x"]));
    let expected: Vec<Vec<String>> = (0..200)
        .filter(|i| i % 7 == 3)
        .map(|i| t(&["3", "3", &i.to_string(), "3", "x"]))
        .collect();
    assert_eq!(out, expected);
    assert!(op.on_tuple(&t(&["2", "8", "y"])).is_empty());
}

#[test]
fn joined_tuple_has_the_identifier_in_front() {
    assert_eq!(join_tuples("7", &t(&["a", "b"]), &t(&["c"])), t(&["7", "a", "b", "c"]));
    assert_eq!(join_tuples("7", &t(&[]), &t(&[])), t(&["7"]));
}
