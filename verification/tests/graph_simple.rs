use nexus_core::graph_simple::{EdgeId, Graph, NodeId, PropertyValue};
use nexus_core::Error;

#[test]
fn test_node_creation() {
    let mut graph = Graph::new();
    let node_id = graph.create_node(vec!["Person".to_string()]).unwrap();
    assert_eq!(node_id.value(), 0);
    let node = graph.get_node(node_id).unwrap().unwrap();
    assert_eq!(node.id, node_id);
    assert!(node.has_label("Person"));
    assert_eq!(node.labels.len(), 1);
}

#[test]
fn test_node_with_multiple_labels() {
    let mut graph = Graph::new();
    let node_id = graph.create_node(vec!["Person".to_string(), "Employee".to_string()]).unwrap();
    let node = graph.get_node(node_id).unwrap().unwrap();
    assert!(node.has_label("Person"));
    assert!(node.has_label("Employee"));
    assert_eq!(node.labels.len(), 2);
}

#[test]
fn test_node_properties() {
    let mut graph = Graph::new();
    let node_id = graph.create_node(vec!["Person".to_string()]).unwrap();
    let mut node = graph.get_node(node_id).unwrap().unwrap().clone();
    node.set_property("name".to_string(), PropertyValue::String("John".to_string()));
    node.set_property("age".to_string(), PropertyValue::Int64(30));
    graph.update_node(node).unwrap();
    let updated_node = graph.get_node(node_id).unwrap().unwrap();
    assert!(updated_node.has_property("name"));
    assert!(updated_node.has_property("age"));
    assert_eq!(updated_node.property_keys().len(), 2);
}

#[test]
fn test_edge_creation() {
    let mut graph = Graph::new();
    let source_id = graph.create_node(vec!["Person".to_string()]).unwrap();
    let target_id = graph.create_node(vec!["Person".to_string()]).unwrap();
    let edge_id = graph.create_edge(source_id, target_id, "KNOWS".to_string()).unwrap();
    assert_eq!(edge_id.value(), 0);
    let edge = graph.get_edge(edge_id).unwrap().unwrap();
    assert_eq!(edge.id, edge_id);
    assert_eq!(edge.source, source_id);
    assert_eq!(edge.target, target_id);
    assert_eq!(edge.relationship_type, "KNOWS");
}

#[test]
fn test_edge_properties() {
    let mut graph = Graph::new();
    let source_id = graph.create_node(vec!["Person".to_string()]).unwrap();
    let target_id = graph.create_node(vec!["Person".to_string()]).unwrap();
    let edge_id = graph.create_edge(source_id, target_id, "KNOWS".to_string()).unwrap();
    let mut edge = graph.get_edge(edge_id).unwrap().unwrap().clone();
    edge.set_property("since".to_string(), PropertyValue::Int64(2020));
    graph.update_edge(edge).unwrap();
    let updated_edge = graph.get_edge(edge_id).unwrap().unwrap();
    assert!(updated_edge.has_property("since"));
    assert_eq!(updated_edge.property_keys().len(), 1);
}

#[test]
fn test_node_deletion() {
    let mut graph = Graph::new();
    let node_id = graph.create_node(vec!["Person".to_string()]).unwrap();
    assert!(graph.get_node(node_id).unwrap().is_some());
    let deleted = graph.delete_node(node_id).unwrap();
    assert!(deleted);
    assert!(graph.get_node(node_id).unwrap().is_none());
}

#[test]
fn test_edge_deletion() {
    let mut graph = Graph::new();
    let source_id = graph.create_node(vec!["Person".to_string()]).unwrap();
    let target_id = graph.create_node(vec!["Person".to_string()]).unwrap();
    let edge_id = graph.create_edge(source_id, target_id, "KNOWS".to_string()).unwrap();
    assert!(graph.get_edge(edge_id).unwrap().is_some());
    let deleted = graph.delete_edge(edge_id).unwrap();
    assert!(deleted);
    assert!(graph.get_edge(edge_id).unwrap().is_none());
}

#[test]
fn test_get_nodes_by_label() {
    let mut graph = Graph::new();
    let _person1 = graph.create_node(vec!["Person".to_string()]).unwrap();
    let _person2 = graph.create_node(vec!["Person".to_string()]).unwrap();
    let _company = graph.create_node(vec!["Company".to_string()]).unwrap();
    let person_nodes = graph.get_nodes_by_label("Person").unwrap();
    assert_eq!(person_nodes.len(), 2);
    let company_nodes = graph.get_nodes_by_label("Company").unwrap();
    assert_eq!(company_nodes.len(), 1);
}

#[test]
fn test_get_edges_by_type() {
    let mut graph = Graph::new();
    let person1 = graph.create_node(vec!["Person".to_string()]).unwrap();
    let person2 = graph.create_node(vec!["Person".to_string()]).unwrap();
    let company = graph.create_node(vec!["Company".to_string()]).unwrap();
    let _knows_edge = graph.create_edge(person1, person2, "KNOWS".to_string()).unwrap();
    let _works_edge = graph.create_edge(person1, company, "WORKS_AT".to_string()).unwrap();
    let knows_edges = graph.get_edges_by_type("KNOWS").unwrap();
    assert_eq!(knows_edges.len(), 1);
    let works_edges = graph.get_edges_by_type("WORKS_AT").unwrap();
    assert_eq!(works_edges.len(), 1);
}

#[test]
fn test_get_edges_for_node() {
    let mut graph = Graph::new();
    let person1 = graph.create_node(vec!["Person".to_string()]).unwrap();
    let person2 = graph.create_node(vec!["Person".to_string()]).unwrap();
    let person3 = graph.create_node(vec!["Person".to_string()]).unwrap();
    let _edge1 = graph.create_edge(person1, person2, "KNOWS".to_string()).unwrap();
    let _edge2 = graph.create_edge(person1, person3, "KNOWS".to_string()).unwrap();
    let edges = graph.get_edges_for_node(person1).unwrap();
    assert_eq!(edges.len(), 2);
}

#[test]
fn test_graph_stats() {
    let mut graph = Graph::new();
    let _person1 = graph.create_node(vec!["Person".to_string()]).unwrap();
    let _person2 = graph.create_node(vec!["Person".to_string()]).unwrap();
    let _edge = graph.create_edge(NodeId::new(0), NodeId::new(1), "KNOWS".to_string()).unwrap();
    let stats = graph.stats().unwrap();
    assert_eq!(stats.total_nodes, 2);
    assert_eq!(stats.total_edges, 1);
}

#[test]
fn test_node_label_operations() {
    let mut graph = Graph::new();
    let node_id = graph.create_node(vec!["Person".to_string()]).unwrap();
    let mut node = graph.get_node(node_id).unwrap().unwrap().clone();
    node.add_label("Employee".to_string());
    assert!(node.has_label("Employee"));
    assert_eq!(node.labels.len(), 2);
    let removed = node.remove_label("Person");
    assert!(removed);
    assert!(!node.has_label("Person"));
    assert!(node.has_label("Employee"));
    assert_eq!(node.labels.len(), 1);
    let not_removed = node.remove_label("NonExistent");
    assert!(!not_removed);
    graph.update_node(node).unwrap();
}

#[test]
fn test_edge_other_end() {
    let mut graph = Graph::new();
    let source_id = graph.create_node(vec!["Person".to_string()]).unwrap();
    let target_id = graph.create_node(vec!["Person".to_string()]).unwrap();
    let edge_id = graph.create_edge(source_id, target_id, "KNOWS".to_string()).unwrap();
    let edge = graph.get_edge(edge_id).unwrap().unwrap();
    assert_eq!(edge.other_end(source_id), Some(target_id));
    assert_eq!(edge.other_end(target_id), Some(source_id));
    assert_eq!(edge.other_end(NodeId::new(999)), None);
}

#[test]
fn test_node_property_operations() {
    let mut graph = Graph::new();
    let node_id = graph.create_node(vec!["Person".to_string()]).unwrap();
    let mut node = graph.get_node(node_id).unwrap().unwrap().clone();
    node.set_property("name".to_string(), PropertyValue::String("John".to_string()));
    node.set_property("age".to_string(), PropertyValue::Int64(30));
    assert!(node.has_property("name"));
    assert!(node.has_property("age"));
    assert_eq!(node.property_keys().len(), 2);
    let age = node.get_property("age").unwrap();
    assert_eq!(age, &PropertyValue::Int64(30));
    let removed = node.remove_property("age");
    assert_eq!(removed, Some(PropertyValue::Int64(30)));
    assert!(!node.has_property("age"));
    assert!(node.has_property("name"));
    graph.update_node(node).unwrap();
}

#[test]
fn test_edge_property_operations() {
    let mut graph = Graph::new();
    let source_id = graph.create_node(vec!["Person".to_string()]).unwrap();
    let target_id = graph.create_node(vec!["Person".to_string()]).unwrap();
    let edge_id = graph.create_edge(source_id, target_id, "KNOWS".to_string()).unwrap();
    let mut edge = graph.get_edge(edge_id).unwrap().unwrap().clone();
    edge.set_property("since".to_string(), PropertyValue::Int64(2020));
    edge.set_property("strength".to_string(), PropertyValue::Float64(0.8f64.to_bits()));
    assert!(edge.has_property("since"));
    assert!(edge.has_property("strength"));
    assert_eq!(edge.property_keys().len(), 2);
    let since = edge.get_property("since").unwrap();
    assert_eq!(since, &PropertyValue::Int64(2020));
    let removed = edge.remove_property("strength");
    assert_eq!(removed, Some(PropertyValue::Float64(0.8f64.to_bits())));
    assert!(!edge.has_property("strength"));
    assert!(edge.has_property("since"));
    graph.update_edge(edge).unwrap();
}

#[test]
fn test_node_is_empty() {
    let mut graph = Graph::new();
    let node_id = graph.create_node(vec![]).unwrap();
    let node = graph.get_node(node_id).unwrap().unwrap();
    assert!(node.is_empty());
    let mut node_with_label = graph.get_node(node_id).unwrap().unwrap().clone();
    node_with_label.add_label("Person".to_string());
    assert!(!node_with_label.is_empty());
    graph.update_node(node_with_label).unwrap();
}

#[test]
fn test_edge_is_empty() {
    let mut graph = Graph::new();
    let source_id = graph.create_node(vec!["Person".to_string()]).unwrap();
    let target_id = graph.create_node(vec!["Person".to_string()]).unwrap();
    let edge_id = graph.create_edge(source_id, target_id, "KNOWS".to_string()).unwrap();
    let edge = graph.get_edge(edge_id).unwrap().unwrap();
    assert!(edge.is_empty());
    let mut edge_with_props = graph.get_edge(edge_id).unwrap().unwrap().clone();
    edge_with_props.set_property("since".to_string(), PropertyValue::Int64(2020));
    assert!(!edge_with_props.is_empty());
    graph.update_edge(edge_with_props).unwrap();
}

#[test]
fn test_clear_graph() {
    let mut graph = Graph::new();
    let node1_id = graph.create_node(vec!["Person".to_string()]).unwrap();
    let node2_id = graph.create_node(vec!["Person".to_string()]).unwrap();
    let _edge_id = graph.create_edge(node1_id, node2_id, "KNOWS".to_string()).unwrap();
    assert!(graph.node_count().unwrap() > 0);
    assert!(graph.edge_count().unwrap() > 0);
    graph.clear();
    assert_eq!(graph.node_count().unwrap(), 0);
    assert_eq!(graph.edge_count().unwrap(), 0);
    assert_eq!(graph.create_node(vec![]).unwrap(), NodeId::new(0));
    assert_eq!(graph.create_node(vec![]).unwrap(), NodeId::new(1));
    assert_eq!(graph.create_edge(NodeId::new(0), NodeId::new(1), "R".to_string()).unwrap(), EdgeId::new(0));
}

#[test]
fn test_edge_creation_with_nonexistent_nodes() {
    let mut graph = Graph::new();
    let result = graph.create_edge(NodeId::new(999), NodeId::new(1000), "KNOWS".to_string());
    assert!(result.is_err());
    assert!(matches!(result.unwrap_err(), Error::NotFound(_)));
}

#[test]
fn test_node_deletion_removes_connected_edges() {
    let mut graph = Graph::new();
    let node1 = graph.create_node(vec!["Person".to_string()]).unwrap();
    let node2 = graph.create_node(vec!["Person".to_string()]).unwrap();
    let node3 = graph.create_node(vec!["Person".to_string()]).unwrap();
    let edge1 = graph.create_edge(node1, node2, "KNOWS".to_string()).unwrap();
    let edge2 = graph.create_edge(node1, node3, "KNOWS".to_string()).unwrap();
    assert!(graph.get_edge(edge1).unwrap().is_some());
    assert!(graph.get_edge(edge2).unwrap().is_some());
    graph.delete_node(node1).unwrap();
    assert!(graph.get_edge(edge1).unwrap().is_none());
    assert!(graph.get_edge(edge2).unwrap().is_none());
}

#[test]
fn missing_endpoint_messages() {
    let mut graph = Graph::new();
    let a = graph.create_node(vec![]).unwrap();
    match graph.create_edge(NodeId::new(42), a, "R".to_string()) {
        Err(Error::NotFound(m)) => assert_eq!(m, "Source node 42 not found"),
        _ => panic!("expected not found"),
    }
    match graph.create_edge(a, NodeId::new(7), "R".to_string()) {
        Err(Error::NotFound(m)) => assert_eq!(m, "Target node 7 not found"),
        _ => panic!("expected not found"),
    }
}

#[test]
fn deleting_a_node_keeps_unrelated_edges() {
    let mut graph = Graph::new();
    let a = graph.create_node(vec![]).unwrap();
    let b = graph.create_node(vec![]).unwrap();
    let c = graph.create_node(vec![]).unwrap();
    let ab = graph.create_edge(a, b, "R".to_string()).unwrap();
    let bc = graph.create_edge(b, c, "R".to_string()).unwrap();
    assert!(graph.delete_node(a).unwrap());
    assert!(!graph.delete_node(a).unwrap());
    assert!(graph.get_edge(ab).unwrap().is_none());
    assert!(graph.get_edge(bc).unwrap().is_some());
    assert_eq!(graph.edge_count().unwrap(), 1);
    assert_eq!(graph.get_all_nodes().unwrap().len(), 2);
    assert_eq!(u64::from(NodeId::from(5u64)), 5);
    assert_eq!(u64::from(EdgeId::from(6u64)), 6);
}

#[test]
fn deleting_absent_node_keeps_order() {
    let mut g = Graph::new();
    let a = g.create_node(vec!["A".to_string()]).unwrap();
    let b = g.create_node(vec!["B".to_string()]).unwrap();
    let c = g.create_node(vec![]).unwrap();
    g.create_edge(a, b, "R".to_string()).unwrap();
    g.create_edge(b, c, "S".to_string()).unwrap();
    assert!(!g.delete_node(NodeId::new(99)).unwrap());
    let ids: Vec<u64> = g.get_all_nodes().unwrap().iter().map(|n| n.id.value()).collect();
    assert_eq!(ids, vec![a.value(), b.value(), c.value()]);
    assert_eq!(g.get_all_edges().unwrap().len(), 2);
    assert!(g.delete_node(b).unwrap());
    let ids: Vec<u64> = g.get_all_nodes().unwrap().iter().map(|n| n.id.value()).collect();
    assert_eq!(ids, vec![a.value(), c.value()]);
    assert!(g.get_all_edges().unwrap().is_empty());
}
