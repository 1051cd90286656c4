use nexus_core::graph_comparison::{ComparisonOptions, GraphComparator};
use nexus_core::graph_simple::{Graph, PropertyValue};

fn same(a: &PropertyValue, b: &PropertyValue) -> bool {
    a == b
}

#[test]
fn identical_graphs_have_empty_diff() {
    let mut a = Graph::new();
    let n = a.create_node(vec!["Person".to_string()]).unwrap();
    let m = a.create_node(vec![]).unwrap();
    a.create_edge(n, m, "KNOWS".to_string()).unwrap();
    let mut b = Graph::new();
    let n2 = b.create_node(vec!["Person".to_string()]).unwrap();
    let m2 = b.create_node(vec![]).unwrap();
    b.create_edge(n2, m2, "KNOWS".to_string()).unwrap();
    let diff = GraphComparator::compare_graphs(&a, &b, &ComparisonOptions::default(), &same).unwrap();
    assert_eq!(diff.summary.nodes_added, 0);
    assert_eq!(diff.summary.nodes_removed, 0);
    assert_eq!(diff.summary.nodes_modified, 0);
    assert_eq!(diff.summary.edges_modified, 0);
    assert_eq!(diff.summary.nodes_count_original, 2);
    assert_eq!(diff.summary.edges_count_modified, 1);
}

#[test]
fn diff_reports_added_removed_and_changed() {
    let mut a = Graph::new();
    let x = a.create_node(vec!["Person".to_string()]).unwrap();
    let _y = a.create_node(vec![]).unwrap();
    let mut b = Graph::new();
    let x2 = b.create_node(vec!["Employee".to_string()]).unwrap();
    assert_eq!(x, x2);
    let mut node = b.get_node(x2).unwrap().unwrap().clone();
    node.set_property("age".to_string(), PropertyValue::Int64(3));
    b.update_node(node).unwrap();
    let diff = GraphComparator::compare_graphs(&a, &b, &ComparisonOptions::default(), &same).unwrap();
    assert_eq!(diff.summary.nodes_removed, 1);
    assert_eq!(diff.removed_nodes[0].id.value(), 1);
    assert_eq!(diff.summary.nodes_added, 0);
    assert_eq!(diff.summary.nodes_modified, 1);
    let changes = &diff.modified_nodes[0].changes;
    assert_eq!(changes.added_labels, vec!["Employee".to_string()]);
    assert_eq!(changes.removed_labels, vec!["Person".to_string()]);
    assert!(changes.added_properties.contains_key("age"));
}

#[test]
fn node_changes_follow_options() {
    let mut g = Graph::new();
    let id = g.create_node(vec!["A".to_string()]).unwrap();
    let original = g.get_node(id).unwrap().unwrap().clone();
    let mut modified = original.clone();
    modified.add_label("B".to_string());
    modified.set_property("k".to_string(), PropertyValue::Bool(true));
    let mut options = ComparisonOptions::default();
    options.include_label_changes = false;
    let changes = GraphComparator::compare_node_changes(&original, &modified, &options, &same).unwrap();
    assert!(changes.added_labels.is_empty());
    assert!(changes.added_properties.contains_key("k"));
    options.include_property_changes = false;
    assert!(GraphComparator::compare_node_changes(&original, &modified, &options, &same).is_none());
}

#[test]
fn edge_changes_report_type_and_property_changes() {
    let mut g = Graph::new();
    let a = g.create_node(vec![]).unwrap();
    let b = g.create_node(vec![]).unwrap();
    let e = g.create_edge(a, b, "R".to_string()).unwrap();
    let mut original = g.get_edge(e).unwrap().unwrap().clone();
    original.set_property("w".to_string(), PropertyValue::Int64(1));
    let mut modified = original.clone();
    modified.relationship_type = "S".to_string();
    modified.set_property("w".to_string(), PropertyValue::Int64(2));
    let changes =
        GraphComparator::compare_edge_changes(&original, &modified, &ComparisonOptions::default(), &same).unwrap();
    assert!(changes.relationship_type_changed);
    assert!(!changes.endpoints_changed);
    assert!(changes.modified_properties.contains_key("w"));
    assert!(GraphComparator::compare_edge_changes(&original, &original, &ComparisonOptions::default(), &same).is_none());
}

#[test]
fn values_equal_decides_all_but_floats() {
    let anything = |_: &PropertyValue, _: &PropertyValue| true;
    assert!(!GraphComparator::values_equal(&PropertyValue::Int64(1), &PropertyValue::Int64(2), &anything));
    assert!(GraphComparator::values_equal(&PropertyValue::Int64(2), &PropertyValue::Int64(2), &anything));
    assert!(!GraphComparator::values_equal(&PropertyValue::Null, &PropertyValue::Bool(false), &anything));
    assert!(GraphComparator::values_equal(
        &PropertyValue::String("x".to_string()),
        &PropertyValue::String("x".to_string()),
        &anything
    ));
    assert!(!GraphComparator::values_equal(&PropertyValue::Bytes(vec![1, 2]), &PropertyValue::Bytes(vec![1]), &anything));
    assert!(GraphComparator::values_equal(&PropertyValue::Float64(1), &PropertyValue::Float64(2), &anything));
    let never = |_: &PropertyValue, _: &PropertyValue| false;
    assert!(!GraphComparator::values_equal(&PropertyValue::Float64(1), &PropertyValue::Float64(1), &never));
}

fn floats_never_asked(_: &PropertyValue, _: &PropertyValue) -> bool {
    false
}

#[test]
fn test_property_value_equality() {
    let test = floats_never_asked;
    assert!(GraphComparator::values_equal(&PropertyValue::Null, &PropertyValue::Null, &test));
    assert!(GraphComparator::values_equal(&PropertyValue::Bool(true), &PropertyValue::Bool(true), &test));
    assert!(!GraphComparator::values_equal(&PropertyValue::Bool(true), &PropertyValue::Bool(false), &test));
    assert!(GraphComparator::values_equal(&PropertyValue::Int64(42), &PropertyValue::Int64(42), &test));
    assert!(!GraphComparator::values_equal(&PropertyValue::Int64(42), &PropertyValue::Int64(43), &test));
    assert!(GraphComparator::values_equal(
        &PropertyValue::String("hello".to_string()),
        &PropertyValue::String("hello".to_string()),
        &test
    ));
    assert!(!GraphComparator::values_equal(
        &PropertyValue::String("hello".to_string()),
        &PropertyValue::String("world".to_string()),
        &test
    ));
}

#[test]
fn test_bytes_equality() {
    let test = floats_never_asked;
    let bytes1 = PropertyValue::Bytes(vec![1, 2, 3]);
    let bytes2 = PropertyValue::Bytes(vec![1, 2, 3]);
    let bytes3 = PropertyValue::Bytes(vec![1, 2, 4]);
    assert!(GraphComparator::values_equal(&bytes1, &bytes2, &test));
    assert!(!GraphComparator::values_equal(&bytes1, &bytes3, &test));
}

#[test]
fn test_bytes_inequality() {
    let test = floats_never_asked;
    let bytes1 = PropertyValue::Bytes(vec![1, 2, 3]);
    let bytes2 = PropertyValue::Bytes(vec![3, 2, 1]);
    assert!(!GraphComparator::values_equal(&bytes1, &bytes2, &test));
}
