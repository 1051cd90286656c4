use nexus_core::index::label_index::LabelIndex;

#[test]
fn test_label_index_creation() {
    let index = LabelIndex::new();
    let stats = index.get_stats();
    assert_eq!(stats.total_nodes, 0);
    assert_eq!(stats.label_count, 0);
}

#[test]
fn test_label_index_add_node() {
    let mut index = LabelIndex::new();
    index.add_node(1, &[0, 1]).unwrap();
    index.add_node(2, &[0]).unwrap();
    index.add_node(3, &[1, 2]).unwrap();
    let stats = index.get_stats();
    assert_eq!(stats.total_nodes, 3);
    assert_eq!(stats.label_count, 3);
    let nodes_with_label_0 = index.get_nodes(0).unwrap();
    assert_eq!(nodes_with_label_0.len(), 2);
    assert!(nodes_with_label_0.contains(1));
    assert!(nodes_with_label_0.contains(2));
}

#[test]
fn test_label_index_intersection() {
    let mut index = LabelIndex::new();
    index.add_node(1, &[0, 1]).unwrap();
    index.add_node(2, &[0]).unwrap();
    index.add_node(3, &[1, 2]).unwrap();
    let nodes_with_both = index.get_nodes_with_labels(&[0, 1]).unwrap();
    assert_eq!(nodes_with_both.len(), 1);
    assert!(nodes_with_both.contains(1));
}

#[test]
fn test_label_index_union() {
    let mut index = LabelIndex::new();
    index.add_node(1, &[0, 1]).unwrap();
    index.add_node(2, &[0]).unwrap();
    index.add_node(3, &[1, 2]).unwrap();
    let nodes_with_any = index.get_nodes_with_any_labels(&[0, 1]).unwrap();
    assert_eq!(nodes_with_any.len(), 3);
}

#[test]
fn test_label_index_remove_node() {
    let mut index = LabelIndex::new();
    index.add_node(1, &[0, 1]).unwrap();
    index.add_node(2, &[0]).unwrap();
    index.remove_node(1).unwrap();
    let nodes_with_label_0 = index.get_nodes(0).unwrap();
    assert_eq!(nodes_with_label_0.len(), 1);
    assert!(nodes_with_label_0.contains(2));
}

#[test]
fn test_label_index_clear() {
    let mut index = LabelIndex::new();
    index.add_node(1, &[0, 1]).unwrap();
    index.add_node(2, &[0]).unwrap();
    assert_eq!(index.get_stats().total_nodes, 2);
    index.clear().unwrap();
    assert_eq!(index.get_stats().total_nodes, 0);
    assert_eq!(index.get_stats().label_count, 0);
}

#[test]
fn label_index_queries_on_unknown_labels() {
    let mut index = LabelIndex::new();
    index.add_node(5, &[7]).unwrap();
    assert!(index.get_nodes(8).unwrap().is_empty());
    assert!(index.get_nodes_with_labels(&[7, 8]).unwrap().is_empty());
    assert!(index.get_nodes_with_labels(&[]).unwrap().is_empty());
    assert_eq!(index.get_nodes_with_any_labels(&[8, 7]).unwrap().len(), 1);
    assert_eq!(index.estimate_cardinality(7), 1);
    assert_eq!(index.estimate_cardinality(8), 0);
    assert!(index.has_label(7));
    assert!(!index.has_label(8));
    assert_eq!(index.get_all_labels(), vec![7]);
    index.remove_node(5).unwrap();
    index.remove_node(5).unwrap();
    assert_eq!(index.get_stats().total_nodes, 0);
    assert!(index.has_label(7));
}
