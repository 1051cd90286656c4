use nexus_core::graph_algorithms::{select_spanning_edges, Graph};
use std::collections::HashMap;

fn unit() -> u64 {
    1.0f64.to_bits()
}

#[test]
fn test_graph_creation() {
    let mut graph = Graph::new();
    graph.add_node(1, vec!["Person".to_string()]);
    graph.add_node(2, vec!["Person".to_string()]);
    graph.add_edge(1, 2, unit(), vec!["KNOWS".to_string()]);
    assert!(graph.has_node(1));
    assert!(graph.has_node(2));
    assert_eq!(graph.get_neighbors(1).len(), 1);
    assert_eq!(graph.get_neighbors(2).len(), 0);
}

#[test]
fn test_bfs() {
    let mut graph = Graph::new();
    graph.add_node(1, vec![]);
    graph.add_node(2, vec![]);
    graph.add_node(3, vec![]);
    graph.add_edge(1, 2, unit(), vec![]);
    graph.add_edge(2, 3, unit(), vec![]);
    let result = graph.bfs(1).unwrap();
    assert_eq!(result.distances[&1], 0);
    assert_eq!(result.distances[&2], 1);
    assert_eq!(result.distances[&3], 2);
}

#[test]
fn test_dfs() {
    let mut graph = Graph::new();
    graph.add_node(1, vec![]);
    graph.add_node(2, vec![]);
    graph.add_node(3, vec![]);
    graph.add_edge(1, 2, unit(), vec![]);
    graph.add_edge(2, 3, unit(), vec![]);
    let result = graph.dfs(1).unwrap();
    assert!(result.discovery_times.contains_key(&1));
    assert!(result.discovery_times.contains_key(&2));
    assert!(result.discovery_times.contains_key(&3));
}

#[test]
fn graph_algorithms_test_connected_components() {
    let mut graph = Graph::new();
    graph.add_node(1, vec![]);
    graph.add_node(2, vec![]);
    graph.add_node(3, vec![]);
    graph.add_node(4, vec![]);
    graph.add_edge(1, 2, unit(), vec![]);
    graph.add_edge(3, 4, unit(), vec![]);
    let result = graph.connected_components();
    assert_eq!(result.component_count, 2);
}

#[test]
fn test_topological_sort() {
    let mut graph = Graph::new();
    graph.add_node(1, vec![]);
    graph.add_node(2, vec![]);
    graph.add_node(3, vec![]);
    graph.add_edge(1, 2, unit(), vec![]);
    graph.add_edge(2, 3, unit(), vec![]);
    let result = graph.topological_sort();
    assert!(!result.has_cycle);
    assert_eq!(result.sorted_nodes.len(), 3);
    assert_eq!(result.sorted_nodes, vec![1, 2, 3]);
}

#[test]
fn topological_sort_finds_cycle() {
    let mut graph = Graph::new();
    graph.add_node(1, vec![]);
    graph.add_node(2, vec![]);
    graph.add_edge(1, 2, unit(), vec![]);
    graph.add_edge(2, 1, unit(), vec![]);
    assert!(graph.topological_sort().has_cycle);
}

#[test]
fn bfs_unknown_source_and_parents() {
    let mut graph = Graph::new();
    graph.add_node(1, vec![]);
    graph.add_node(2, vec![]);
    graph.add_edge(1, 2, unit(), vec!["R".to_string()]);
    assert!(graph.bfs(9).is_err());
    let result = graph.bfs(1).unwrap();
    assert_eq!(result.parents[&2], 1);
    assert_eq!(result.discovery_order, vec![1, 2]);
    assert_eq!(graph.get_edge_types(1, 2).unwrap(), &vec!["R".to_string()]);
    assert!(graph.get_edge_types(2, 1).is_none());
}

#[test]
fn test_minimum_spanning_tree() {
    let mut graph = Graph::new();
    graph.add_node(1, vec![]);
    graph.add_node(2, vec![]);
    graph.add_node(3, vec![]);
    graph.add_edge(1, 2, 1.0f64.to_bits(), vec![]);
    graph.add_edge(2, 3, 2.0f64.to_bits(), vec![]);
    graph.add_edge(1, 3, 3.0f64.to_bits(), vec![]);
    let mut edges = graph.spanning_candidates();
    edges.sort_by(|a, b| f64::from_bits(a.2).partial_cmp(&f64::from_bits(b.2)).unwrap());
    let kept = select_spanning_edges(&graph.get_nodes(), &edges);
    assert_eq!(kept.len(), 2);
    let total: f64 = kept.iter().map(|e| f64::from_bits(e.2)).sum();
    assert_eq!(total, 3.0);
}

#[test]
fn spanning_selection_skips_cycle_edges() {
    let nodes = vec![1, 2, 3, 4];
    let edges = vec![(1, 2, 0), (2, 3, 0), (1, 3, 0), (3, 4, 0), (2, 4, 0)];
    assert_eq!(select_spanning_edges(&nodes, &edges), vec![(1, 2, 0), (2, 3, 0), (3, 4, 0)]);
}

#[test]
fn reconstruct_path_follows_parents() {
    let graph = Graph::new();
    let mut parents = HashMap::new();
    parents.insert(2u64, 1u64);
    parents.insert(3u64, 2u64);
    assert_eq!(graph.reconstruct_path(&parents, 1, 3), Some(vec![1, 2, 3]));
    assert_eq!(graph.reconstruct_path(&parents, 1, 9), None);
    let mut looped = HashMap::new();
    looped.insert(2u64, 3u64);
    looped.insert(3u64, 2u64);
    assert_eq!(graph.reconstruct_path(&looped, 1, 3), None);
}

#[test]
fn components_ignore_edge_direction() {
    let mut graph = Graph::new();
    graph.add_node(1, vec![]);
    graph.add_node(2, vec![]);
    graph.add_node(3, vec![]);
    graph.add_edge(2, 1, unit(), vec![]);
    let result = graph.connected_components();
    assert_eq!(result.component_count, 2);
    assert_eq!(result.components[&1], result.components[&2]);
    assert_ne!(result.components[&1], result.components[&3]);
    let members = &result.component_nodes[&result.components[&1]];
    assert_eq!(members.len(), 2);
}

#[test]
fn spanning_tree_ignores_edge_direction() {
    let mut graph = Graph::new();
    graph.add_node(1, vec![]);
    graph.add_node(2, vec![]);
    graph.add_edge(2, 1, 4.0f64.to_bits(), vec![]);
    let edges = graph.spanning_candidates();
    assert_eq!(edges, vec![(1, 2, 4.0f64.to_bits())]);
    let kept = select_spanning_edges(&graph.get_nodes(), &edges);
    assert_eq!(kept.len(), 1);
}
