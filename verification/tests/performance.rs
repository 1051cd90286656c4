use nexus_core::graph_correlation::correlation_graph::{CorrelationGraph, GraphEdge, GraphNode};
use nexus_core::graph_correlation::performance::{optimize_graph, GraphCache, PerformanceProfiler};
use nexus_core::graph_correlation::{EdgeType, GraphType, NodeType};
use nexus_core::str_map::StrMap;
use std::time::Duration;

fn create_test_graph() -> CorrelationGraph {
    let mut graph = CorrelationGraph::new(GraphType::Call, "Test Graph".to_string());
    for id in ["n1", "n2"] {
        graph
            .add_node(GraphNode {
                id: id.to_string(),
                node_type: NodeType::Function,
                label: format!("func{}", &id[1..]),
                metadata: StrMap::new(),
                color: None,
            })
            .unwrap();
    }
    graph
        .add_edge(GraphEdge {
            id: "e1".to_string(),
            source: "n1".to_string(),
            target: "n2".to_string(),
            edge_type: EdgeType::Calls,
            weight_bits: 1.0f32.to_bits(),
            metadata: StrMap::new(),
            label: None,
        })
        .unwrap();
    graph
}

#[test]
fn test_graph_cache_creation() {
    let cache = GraphCache::new();
    let (hits, misses) = cache.hit_counts();
    assert_eq!(hits, 0);
    assert_eq!(misses, 0);
}

#[test]
fn test_graph_cache_build() {
    let graph = create_test_graph();
    let mut cache = GraphCache::new();
    cache.build_from_graph(&graph);
    assert!(cache.get_adjacent_nodes("n1").is_some());
    assert_eq!(cache.get_node_degree("n1"), Some(1));
}

#[test]
fn graph_cache_counts_hits_and_misses() {
    let graph = create_test_graph();
    let mut cache = GraphCache::new();
    cache.build_from_graph(&graph);
    let _ = cache.get_adjacent_nodes("n1");
    let _ = cache.get_adjacent_nodes("n3");
    assert_eq!(cache.hit_counts(), (1, 1));
    assert_eq!(cache.has_path("n1", "n2"), None);
    cache.cache_path("n1", "n2", true);
    assert_eq!(cache.has_path("n1", "n2"), Some(true));
    cache.clear();
    assert_eq!(cache.hit_counts(), (0, 0));
    assert_eq!(cache.get_node_degree("n1"), None);
}

#[test]
fn performance_test_performance_profiler() {
    let mut profiler = PerformanceProfiler::new();
    profiler.start_operation("test_operation");
    let start = std::time::Instant::now();
    while start.elapsed() < Duration::from_millis(10) {}
    profiler.end_operation(100, 50);
    let metrics = profiler.get_metrics();
    assert_eq!(metrics.len(), 1);
    assert_eq!(metrics[0].operation, "test_operation");
    assert!(metrics[0].duration_nanos >= 10_000_000);
    assert_eq!(profiler.get_summary().total_operations, 1);
}

#[test]
fn test_optimize_graph() {
    let mut graph = create_test_graph();
    graph.edges.push(GraphEdge {
        id: "e2".to_string(),
        source: "n1".to_string(),
        target: "n2".to_string(),
        edge_type: EdgeType::Calls,
        weight_bits: 1.0f32.to_bits(),
        metadata: StrMap::new(),
        label: None,
    });
    let result = optimize_graph(&mut graph);
    assert!(result.is_ok());
    assert_eq!(graph.edges.len(), 1);
}

#[test]
fn optimize_graph_drops_orphan_edges() {
    let mut graph = create_test_graph();
    graph.edges.push(GraphEdge {
        id: "e3".to_string(),
        source: "n1".to_string(),
        target: "missing".to_string(),
        edge_type: EdgeType::Uses,
        weight_bits: 0,
        metadata: StrMap::new(),
        label: None,
    });
    optimize_graph(&mut graph).unwrap();
    assert_eq!(graph.edges.len(), 1);
    assert_eq!(graph.edges[0].id, "e1");
}

#[test]
fn test_cache_statistics() {
    let graph = create_test_graph();
    let mut cache = GraphCache::new();
    cache.build_from_graph(&graph);
    let _ = cache.get_adjacent_nodes("n1");
    let _ = cache.get_adjacent_nodes("n3");
    let (hits, misses) = cache.hit_counts();
    let hit_rate = hits as f64 / (hits + misses) as f64;
    assert_eq!(hits, 1);
    assert_eq!(misses, 1);
    assert!((hit_rate - 0.5).abs() < 0.01);
}

#[test]
fn cache_memory_estimate() {
    let mut cache = GraphCache::new();
    assert_eq!(cache.memory_usage(), 0);
    cache.cache_path("a", "b", true);
    cache.cache_path("a", "b", false);
    assert_eq!(cache.memory_usage(), 48);
    let graph = create_test_graph();
    cache.build_from_graph(&graph);
    assert_eq!(cache.memory_usage(), 64 * 1 + 32 * graph.edges.len() + 40 * graph.nodes.len());
    cache.clear();
    assert_eq!(cache.memory_usage(), 0);
}

#[test]
fn cache_degrees_only_for_nodes() {
    let graph = create_test_graph();
    let mut cache = GraphCache::new();
    cache.build_from_graph(&graph);
    assert_eq!(cache.get_node_degree("n1"), Some(1));
    assert_eq!(cache.get_node_degree("nowhere"), None);
}

#[test]
fn ending_without_operation_records_nothing() {
    let mut profiler = PerformanceProfiler::new();
    profiler.end_operation(usize::MAX, usize::MAX);
    assert!(profiler.get_metrics().is_empty());
    profiler.start_operation("dropped");
    profiler.clear();
    profiler.end_operation(usize::MAX, usize::MAX);
    assert!(profiler.get_metrics().is_empty());
}
