use mopper::fabric::senders_for;
use mopper::plan::{Node, PlanGraph};
use mopper::plan_rewriter::{add_to_hash_map, check_edges, classify, rewrite};
use mopper::schema::{
    DataFormat, Extend, Function, IOType, Join, JoinType, Operator, Projection,
    ReferenceFormulation, Serializer, Source, Target,
};
use mopper::source::csv_file::CSVFileSource;
use std::collections::{HashMap, HashSet};

fn node(operator: Operator) -> Node {
    Node { operator, from: Vec::new(), to: HashSet::new(), attributes: None, join_alias: None }
}

fn source(fingerprint: u64, path: &str) -> Node {
    node(Operator::SourceOp {
        config: Source {
            fingerprint,
            source_type: IOType::File,
            path: path.to_string(),
            reference_formulation: ReferenceFormulation::CSVRows,
        },
    })
}

fn target(fingerprint: u64) -> Node {
    node(Operator::TargetOp { config: Target { fingerprint, target_type: IOType::StdOut } })
}

fn extend(name: &str) -> Node {
    node(Operator::ExtendOp {
        config: Extend {
            extend_pairs: vec![(
                "?x".to_string(),
                Function::Reference { value: name.to_string() },
            )],
        },
    })
}

fn project(names: &[&str]) -> Node {
    node(Operator::ProjectOp {
        config: Projection {
            projection_attributes: names.iter().map(|n| n.to_string()).collect(),
        },
    })
}

fn join(alias: &str) -> Node {
    node(Operator::JoinOp {
        config: Join {
            left_right_attr_pairs: vec![("a".to_string(), "b".to_string())],
            join_type: JoinType::InnerJoin,
            join_alias: alias.to_string(),
        },
    })
}

fn serializer() -> Node {
    node(Operator::SerializerOp {
        config: Serializer { template: "?x .".to_string(), format: DataFormat::NTriples },
    })
}

fn set(ids: &[usize]) -> HashSet<usize> {
    ids.iter().copied().collect()
}

fn assert_symmetric(map: &HashMap<usize, Node>) {
    for (x, n) in map.iter() {
        for y in n.to.iter() {
            let other = map.get(y).expect("a downstream node is missing");
            assert!(other.from.contains(x));
        }
        for y in n.from.iter() {
            let other = map.get(y).expect("an upstream node is missing");
            assert!(other.to.contains(x));
        }
    }
}

fn assert_no_projection_or_fragmenter(map: &HashMap<usize, Node>) {
    for n in map.values() {
        assert!(!matches!(n.operator, Operator::ProjectOp { .. }));
        assert!(!matches!(n.operator, Operator::FragmentOp));
    }
}

#[test]
fn edges_are_loaded_into_the_nodes() {
    let plan = PlanGraph {
        nodes: vec![source(1, "a.csv"), extend("id"), target(2)],
        edges: vec![(0, 1), (1, 2)],
    };
    assert!(check_edges(&plan));
    let map = rewrite(&plan, false);
    assert_eq!(map.len(), 3);
    assert_eq!(map[&0].to, set(&[1]));
    assert!(map[&0].from.is_empty());
    assert_eq!(map[&1].from, vec![0]);
    assert_eq!(map[&1].to, set(&[2]));
    assert_eq!(map[&2].from, vec![1]);
    assert!(map[&2].to.is_empty());
    assert_symmetric(&map);
}

#[test]
fn an_edge_out_of_range_is_found() {
    let plan = PlanGraph { nodes: vec![source(1, "a.csv"), target(2)], edges: vec![(0, 2)] };
    assert!(!check_edges(&plan));
    let plan = PlanGraph { nodes: vec![source(1, "a.csv"), target(2)], edges: vec![(0, 1)] };
    assert!(check_edges(&plan));
}

#[test]
fn projection_is_elided_and_its_attributes_go_to_the_source() {
    let plan = PlanGraph {
        nodes: vec![source(1, "people.csv"), project(&["id"]), extend("id"), target(2)],
        edges: vec![(0, 1), (1, 2), (2, 3)],
    };
    let map = rewrite(&plan, false);
    assert!(!map.contains_key(&1));
    assert_eq!(map.len(), 3);
    assert_eq!(map[&0].attributes, Some(vec!["id".to_string()]));
    assert_eq!(map[&0].to, set(&[2]));
    assert_eq!(map[&2].from, vec![0]);
    assert_eq!(map[&2].to, set(&[3]));
    assert_no_projection_or_fragmenter(&map);
    assert_symmetric(&map);
    let mut reader = CSVFileSource::new("people.csv".to_string(), &map[&0].attributes, &0);
    let header: Vec<String> = vec!["name".to_string(), "id".to_string()];
    assert_eq!(reader.on_header(&header), vec!["0".to_string(), "id".to_string()]);
    let row: Vec<String> = vec!["Alice".to_string(), "1".to_string()];
    assert_eq!(reader.on_record(&row), vec!["0".to_string(), "1".to_string()]);
}

#[test]
fn projection_attributes_are_united_with_those_of_the_source() {
    let mut src = source(1, "people.csv");
    src.attributes = Some(vec!["name".to_string(), "id".to_string()]);
    let plan = PlanGraph {
        nodes: vec![src, project(&["id", "age", "age"]), extend("id")],
        edges: vec![(0, 1), (1, 2)],
    };
    let map = rewrite(&plan, false);
    assert_eq!(
        map[&0].attributes,
        Some(vec!["name".to_string(), "id".to_string(), "age".to_string()])
    );
}

#[test]
fn fragmenter_is_elided() {
    let plan = PlanGraph {
        nodes: vec![source(1, "a.csv"), node(Operator::FragmentOp), extend("x"), extend("y")],
        edges: vec![(0, 1), (1, 2), (1, 3)],
    };
    let map = rewrite(&plan, false);
    assert!(!map.contains_key(&1));
    assert_eq!(map[&0].to, set(&[2, 3]));
    assert_eq!(map[&0].attributes, None);
    assert_eq!(map[&2].from, vec![0]);
    assert_eq!(map[&3].from, vec![0]);
    assert_no_projection_or_fragmenter(&map);
    assert_symmetric(&map);
    assert_eq!(senders_for(&map, 0, 4), vec![2, 3]);
}

#[test]
fn chained_fragmenter_and_projection_are_elided() {
    let plan = PlanGraph {
        nodes: vec![
            source(1, "a.csv"),
            project(&["id"]),
            node(Operator::FragmentOp),
            extend("id"),
            serializer(),
            target(9),
        ],
        edges: vec![(0, 1), (1, 2), (2, 3), (3, 4), (4, 5)],
    };
    let map = rewrite(&plan, false);
    assert_eq!(map.len(), 4);
    assert_eq!(map[&0].to, set(&[3]));
    assert_eq!(map[&3].from, vec![0]);
    assert_eq!(map[&0].attributes, Some(vec!["id".to_string()]));
    assert_no_projection_or_fragmenter(&map);
    assert_symmetric(&map);
}

#[test]
fn self_join_is_elided() {
    let plan = PlanGraph {
        nodes: vec![source(1, "s.csv"), join("j"), extend("a"), target(2)],
        edges: vec![(0, 1), (0, 1), (1, 2), (2, 3)],
    };
    let map = rewrite(&plan, false);
    assert!(!map.contains_key(&1));
    assert_eq!(map[&2].join_alias, Some("j".to_string()));
    assert_eq!(map[&2].from, vec![0]);
    assert_eq!(map[&0].to, set(&[2]));
    assert_eq!(map[&0].join_alias, None);
    assert_symmetric(&map);
}

#[test]
fn a_join_of_two_inputs_stays() {
    let plan = PlanGraph {
        nodes: vec![source(1, "l.csv"), source(2, "r.csv"), join("r"), extend("a")],
        edges: vec![(0, 2), (1, 2), (2, 3)],
    };
    let map = rewrite(&plan, false);
    assert_eq!(map.len(), 4);
    assert_eq!(map[&2].from, vec![0, 1]);
    assert_eq!(map[&3].join_alias, None);
    assert_symmetric(&map);
}

#[test]
fn equal_sources_are_merged_into_the_first() {
    let plan = PlanGraph {
        nodes: vec![source(7, "a.csv"), source(7, "a.csv"), extend("x"), extend("y"), source(8, "b.csv"), extend("z")],
        edges: vec![(0, 2), (1, 3), (4, 5)],
    };
    let map = rewrite(&plan, false);
    assert!(!map.contains_key(&1));
    assert_eq!(map.len(), 5);
    assert_eq!(map[&0].to, set(&[2, 3]));
    assert_eq!(map[&2].from, vec![0]);
    assert_eq!(map[&3].from, vec![0]);
    assert_eq!(map[&4].to, set(&[5]));
    assert_symmetric(&map);
}

#[test]
fn three_equal_sources_into_one_join() {
    let plan = PlanGraph {
        nodes: vec![source(7, "a.csv"), source(7, "a.csv"), source(7, "a.csv"), join("r"), extend("x")],
        edges: vec![(1, 3), (2, 3), (3, 4)],
    };
    let map = rewrite(&plan, false);
    assert!(!map.contains_key(&1));
    assert!(!map.contains_key(&2));
    assert!(!map.contains_key(&3));
    assert_eq!(map[&0].to, set(&[4]));
    assert_eq!(map[&4].from, vec![0]);
    assert_eq!(map[&4].join_alias, Some("r".to_string()));
    assert_symmetric(&map);
}

#[test]
fn targets_stay_apart_unless_all_output_goes_to_one_place() {
    let nodes = || vec![source(1, "a.csv"), serializer(), serializer(), target(5), target(6)];
    let edges = vec![(0, 1), (0, 2), (1, 3), (2, 4)];
    let apart = rewrite(&PlanGraph { nodes: nodes(), edges: edges.clone() }, false);
    assert_eq!(apart.len(), 5);
    assert_eq!(apart[&3].from, vec![1]);
    assert_eq!(apart[&4].from, vec![2]);
    let one = rewrite(&PlanGraph { nodes: nodes(), edges }, true);
    assert_eq!(one.len(), 4);
    assert!(!one.contains_key(&4));
    assert_eq!(one[&3].from, vec![1, 2]);
    assert_eq!(one[&2].to, set(&[3]));
    assert_eq!(one[&1].to, set(&[3]));
    assert_symmetric(&one);
}

#[test]
fn classification_finds_the_nodes_of_each_pass() {
    let plan = PlanGraph {
        nodes: vec![
            source(7, "a.csv"),
            node(Operator::FragmentOp),
            project(&["id"]),
            join("j"),
            source(7, "a.csv"),
            target(3),
            node(Operator::FragmentOp),
        ],
        edges: vec![],
    };
    let indices = classify(&plan, false);
    assert_eq!(indices.fragment_indices, vec![1, 6]);
    assert_eq!(indices.projection_indices, vec![2]);
    assert_eq!(indices.join_indices, vec![3]);
    assert_eq!(indices.io_hash_to_node_index[&7], vec![0, 4]);
    assert_eq!(indices.io_hash_to_node_index[&3], vec![5]);
    let indices = classify(&plan, true);
    assert_eq!(indices.io_hash_to_node_index[&0], vec![5]);
}

#[test]
fn groups_gather_the_nodes_with_one_hash() {
    let mut groups: HashMap<u64, Vec<usize>> = HashMap::new();
    add_to_hash_map(&mut groups, 5, 0, false);
    add_to_hash_map(&mut groups, 6, 1, false);
    add_to_hash_map(&mut groups, 5, 2, false);
    add_to_hash_map(&mut groups, 9, 3, true);
    assert_eq!(groups[&5], vec![0, 2]);
    assert_eq!(groups[&6], vec![1]);
    assert_eq!(groups[&0], vec![3]);
    assert_eq!(groups.len(), 3);
}

#[test]
fn node_edits() {
    let mut n = extend("x");
    n.add_from(3);
    n.add_from(4);
    n.add_from(3);
    n.replace_from(3, 9);
    assert_eq!(n.from, vec![9, 4, 9]);
    n.add_all_from(&[1, 2]);
    assert_eq!(n.from, vec![9, 4, 9, 1, 2]);
    n.add_to(5);
    n.add_all_to(&set(&[6, 7]));
    assert_eq!(n.to, set(&[5, 6, 7]));
    n.replace_to(6, 8);
    assert_eq!(n.to, set(&[5, 7, 8]));
    n.replace_to(100, 6);
    assert_eq!(n.to, set(&[5, 6, 7, 8]));
    n.change_to_ids(&set(&[1, 2]), 5);
    assert_eq!(n.to, set(&[1, 2, 6, 7, 8]));
    n.add_attributes(None);
    assert_eq!(n.attributes, None);
    n.add_attributes(Some(vec!["a".to_string(), "b".to_string()]));
    assert_eq!(n.attributes, Some(vec!["a".to_string(), "b".to_string()]));
    n.add_attributes(Some(vec!["b".to_string(), "c".to_string()]));
    assert_eq!(n.attributes, Some(vec!["a".to_string(), "b".to_string(), "c".to_string()]));
    n.add_attributes(None);
    assert_eq!(n.attributes, Some(vec!["a".to_string(), "b".to_string(), "c".to_string()]));
    let copy = n.duplicate();
    assert_eq!(copy.from, n.from);
    assert_eq!(copy.to, n.to);
    assert_eq!(copy.attributes, n.attributes);
}
