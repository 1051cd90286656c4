use nexus_core::graph_correlation::builders::{
    CallGraphBuilder, DefaultGraphBuilder, DependencyGraphBuilder, GraphBuilderConfig, GraphSourceData,
    UNIT_WEIGHT_BITS,
};
use nexus_core::graph_correlation::manager::{GraphCorrelationManager, ManagedBuilder};
use nexus_core::graph_correlation::correlation_graph::{CorrelationGraph, GraphEdge, GraphNode};
use nexus_core::graph_correlation::{EdgeType, GraphType, NodeType, VectorizerCollections};
use nexus_core::str_map::StrMap;
use nexus_core::Error;

fn node(id: &str, label: &str) -> GraphNode {
    GraphNode {
        id: id.to_string(),
        node_type: NodeType::Function,
        label: label.to_string(),
        metadata: StrMap::new(),
        color: None,
    }
}

fn edge(id: &str, source: &str, target: &str) -> GraphEdge {
    GraphEdge {
        id: id.to_string(),
        source: source.to_string(),
        target: target.to_string(),
        edge_type: EdgeType::Calls,
        weight_bits: 1.0f32.to_bits(),
        metadata: StrMap::new(),
        label: None,
    }
}

#[test]
fn test_node_type_enum_variants() {
    let function = NodeType::Function;
    let module = NodeType::Module;
    let class = NodeType::Class;
    let variable = NodeType::Variable;
    let api = NodeType::API;

    assert_eq!(format!("{:?}", function), "Function");
    assert_eq!(format!("{:?}", module), "Module");
    assert_eq!(format!("{:?}", class), "Class");
    assert_eq!(format!("{:?}", variable), "Variable");
    assert_eq!(format!("{:?}", api), "API");
}

#[test]
fn test_node_type_equality() {
    assert_eq!(NodeType::Function, NodeType::Function);
    assert_eq!(NodeType::Module, NodeType::Module);
    assert_eq!(NodeType::Class, NodeType::Class);
    assert_eq!(NodeType::Variable, NodeType::Variable);
    assert_eq!(NodeType::API, NodeType::API);

    assert_ne!(NodeType::Function, NodeType::Module);
    assert_ne!(NodeType::Module, NodeType::Class);
    assert_ne!(NodeType::Class, NodeType::Variable);
    assert_ne!(NodeType::Variable, NodeType::API);
    assert_ne!(NodeType::API, NodeType::Function);
}

#[test]
fn test_node_type_clone() {
    let original = NodeType::Function;
    let cloned = original;
    assert_eq!(original, cloned);
}

#[test]
fn test_node_type_copy() {
    let original = NodeType::Module;
    let copied = original;
    assert_eq!(original, copied);
    assert_eq!(original, NodeType::Module);
}

#[test]
fn test_node_type_in_graph_node() {
    let n = node("test_node", "test_function");
    assert_eq!(n.node_type, NodeType::Function);
    assert_eq!(n.label, "test_function");
}

#[test]
fn test_node_type_pattern_matching() {
    let node_type = NodeType::API;
    assert_eq!(node_type.description(), "An API endpoint or service");
}

#[test]
fn test_node_type_all_variants() {
    let all_variants = [NodeType::Function, NodeType::Module, NodeType::Class, NodeType::Variable, NodeType::API];
    assert_eq!(all_variants.len(), 5);
    for (i, variant1) in all_variants.iter().enumerate() {
        for (j, variant2) in all_variants.iter().enumerate() {
            if i != j {
                assert_ne!(variant1, variant2);
            }
        }
    }
}

#[test]
fn test_edge_type_enum_variants() {
    assert_eq!(format!("{:?}", EdgeType::Calls), "Calls");
    assert_eq!(format!("{:?}", EdgeType::Imports), "Imports");
    assert_eq!(format!("{:?}", EdgeType::Inherits), "Inherits");
    assert_eq!(format!("{:?}", EdgeType::Composes), "Composes");
    assert_eq!(format!("{:?}", EdgeType::Transforms), "Transforms");
    assert_eq!(format!("{:?}", EdgeType::Uses), "Uses");
    assert_eq!(format!("{:?}", EdgeType::Depends), "Depends");
}

#[test]
fn test_edge_type_equality() {
    assert_eq!(EdgeType::Calls, EdgeType::Calls);
    assert_eq!(EdgeType::Imports, EdgeType::Imports);
    assert_eq!(EdgeType::Inherits, EdgeType::Inherits);
    assert_eq!(EdgeType::Composes, EdgeType::Composes);
    assert_eq!(EdgeType::Transforms, EdgeType::Transforms);
    assert_eq!(EdgeType::Uses, EdgeType::Uses);
    assert_eq!(EdgeType::Depends, EdgeType::Depends);

    assert_ne!(EdgeType::Calls, EdgeType::Imports);
    assert_ne!(EdgeType::Imports, EdgeType::Inherits);
    assert_ne!(EdgeType::Inherits, EdgeType::Composes);
    assert_ne!(EdgeType::Composes, EdgeType::Transforms);
    assert_ne!(EdgeType::Transforms, EdgeType::Uses);
    assert_ne!(EdgeType::Uses, EdgeType::Depends);
    assert_ne!(EdgeType::Depends, EdgeType::Calls);
}

#[test]
fn test_edge_type_clone() {
    let original = EdgeType::Calls;
    let cloned = original;
    assert_eq!(original, cloned);
}

#[test]
fn test_edge_type_copy() {
    let original = EdgeType::Imports;
    let copied = original;
    assert_eq!(original, copied);
    assert_eq!(original, EdgeType::Imports);
}

#[test]
fn test_edge_type_in_graph_edge() {
    let e = edge("test_edge", "node1", "node2");
    assert_eq!(e.edge_type, EdgeType::Calls);
    assert_eq!(e.id, "test_edge");
}

#[test]
fn test_edge_type_pattern_matching() {
    let edge_type = EdgeType::Transforms;
    assert_eq!(edge_type.description(), "Data transforms from one format to another");
}

#[test]
fn test_edge_type_all_variants() {
    let all_variants = [
        EdgeType::Calls,
        EdgeType::Imports,
        EdgeType::Inherits,
        EdgeType::Composes,
        EdgeType::Transforms,
        EdgeType::Uses,
        EdgeType::Depends,
    ];
    assert_eq!(all_variants.len(), 7);
    for (i, variant1) in all_variants.iter().enumerate() {
        for (j, variant2) in all_variants.iter().enumerate() {
            if i != j {
                assert_ne!(variant1, variant2);
            }
        }
    }
}

#[test]
fn test_vectorizer_collections_default() {
    let collections = VectorizerCollections::default();
    assert_eq!(collections.functions, "functions");
    assert_eq!(collections.imports, "imports");
    assert_eq!(collections.calls, "calls");
    assert_eq!(collections.types, "types");
    assert_eq!(collections.codebase, "codebase");
}

#[test]
fn test_correlation_graph_creation() {
    let graph = CorrelationGraph::new(GraphType::Call, "Test Graph".to_string());
    assert_eq!(graph.graph_type, GraphType::Call);
    assert_eq!(graph.name, "Test Graph");
    assert!(graph.nodes.is_empty());
    assert!(graph.edges.is_empty());
}

#[test]
fn test_add_node() {
    let mut graph = CorrelationGraph::new(GraphType::Call, "Test Graph".to_string());
    assert!(graph.add_node(node("node1", "test_function")).is_ok());
    assert_eq!(graph.nodes.len(), 1);
    assert_eq!(graph.nodes[0].id, "node1");
}

#[test]
fn test_add_edge() {
    let mut graph = CorrelationGraph::new(GraphType::Call, "Test Graph".to_string());
    graph.add_node(node("node1", "function1")).unwrap();
    graph.add_node(node("node2", "function2")).unwrap();
    assert!(graph.add_edge(edge("edge1", "node1", "node2")).is_ok());
    assert_eq!(graph.edges.len(), 1);
    assert_eq!(graph.edges[0].id, "edge1");
}

#[test]
fn test_duplicate_node_id() {
    let mut graph = CorrelationGraph::new(GraphType::Call, "Test Graph".to_string());
    graph.add_node(node("node1", "function1")).unwrap();
    let result = graph.add_node(node("node1", "function2"));
    assert!(result.is_err());
    match result {
        Err(Error::GraphCorrelation(m)) => assert_eq!(m, "Duplicate node ID: node1"),
        _ => panic!("expected a graph correlation error"),
    }
}

#[test]
fn test_edge_with_nonexistent_node() {
    let mut graph = CorrelationGraph::new(GraphType::Call, "Test Graph".to_string());
    let result = graph.add_edge(edge("edge1", "nonexistent", "also_nonexistent"));
    assert!(result.is_err());
    match result {
        Err(Error::GraphCorrelation(m)) => assert_eq!(m, "Source node not found: nonexistent"),
        _ => panic!("expected a graph correlation error"),
    }
}

#[test]
fn test_call_graph_builder() {
    let builder = CallGraphBuilder::new("Test Call Graph".to_string());
    let mut source_data = GraphSourceData::new();
    source_data.add_file("test.rs".to_string(), "fn test() {}".to_string());
    source_data.add_functions("test.rs".to_string(), vec!["test".to_string()]);

    let graph = builder.build(&source_data).unwrap();
    assert_eq!(graph.graph_type, GraphType::Call);
    assert_eq!(graph.nodes.len(), 2);
    assert_eq!(graph.edges.len(), 1);
}

#[test]
fn test_dependency_graph_builder() {
    let builder = DependencyGraphBuilder::new("Test Dependency Graph".to_string());
    let mut source_data = GraphSourceData::new();
    source_data.add_file("main.rs".to_string(), "use module;".to_string());
    source_data.add_file("module.rs".to_string(), "pub fn func() {}".to_string());
    source_data.add_imports("main.rs".to_string(), vec!["module.rs".to_string()]);

    let graph = builder.build(&source_data).unwrap();
    assert_eq!(graph.graph_type, GraphType::Dependency);
    assert_eq!(graph.nodes.len(), 2);
    assert_eq!(graph.edges.len(), 1);
}

#[test]
fn call_graph_builder_ids_and_edges() {
    let builder = CallGraphBuilder::new("calls".to_string());
    let mut data = GraphSourceData::new();
    data.add_file("a.rs".to_string(), String::new());
    data.add_functions("a.rs".to_string(), vec!["f".to_string(), "g".to_string()]);
    let graph = builder.build(&data).unwrap();
    let ids: Vec<&str> = graph.nodes.iter().map(|n| n.id.as_str()).collect();
    assert_eq!(ids, vec!["file:a.rs", "func:a.rs:f", "func:a.rs:g"]);
    assert_eq!(graph.edges[0].id, "edge:file:a.rs:func:a.rs:f");
    assert_eq!(graph.edges[0].source, "file:a.rs");
    assert_eq!(graph.edges[0].target, "func:a.rs:f");
    assert_eq!(graph.edges[0].edge_type, EdgeType::Uses);
    assert_eq!(graph.edges[0].weight_bits, UNIT_WEIGHT_BITS);
    assert_eq!(graph.name, "calls");
}

#[test]
fn call_graph_builder_rejects_function_of_unknown_file() {
    let builder = CallGraphBuilder::new("calls".to_string());
    let mut data = GraphSourceData::new();
    data.add_functions("ghost.rs".to_string(), vec!["f".to_string()]);
    match builder.build(&data) {
        Err(Error::GraphCorrelation(m)) => assert_eq!(m, "Source node not found: file:ghost.rs"),
        _ => panic!("expected an error"),
    }
}

#[test]
fn call_graph_builder_rejects_repeated_function() {
    let builder = CallGraphBuilder::new("calls".to_string());
    let mut data = GraphSourceData::new();
    data.add_file("a.rs".to_string(), String::new());
    data.add_functions("a.rs".to_string(), vec!["f".to_string(), "f".to_string()]);
    match builder.build(&data) {
        Err(Error::GraphCorrelation(m)) => assert_eq!(m, "Duplicate node ID: func:a.rs:f"),
        _ => panic!("expected an error"),
    }
}

#[test]
fn single_purpose_builders_refuse_other_kinds() {
    let call = CallGraphBuilder::new("c".to_string());
    let dep = DependencyGraphBuilder::new("d".to_string());
    let data = GraphSourceData::new();
    match call.build_dependency_graph(&data) {
        Err(Error::GraphCorrelation(m)) => assert_eq!(m, "CallGraphBuilder does not support dependency graphs"),
        _ => panic!("expected an error"),
    }
    match dep.build_call_graph(&data) {
        Err(Error::GraphCorrelation(m)) => assert_eq!(m, "DependencyGraphBuilder does not support call graphs"),
        _ => panic!("expected an error"),
    }
    assert!(call.capabilities().supports_call_graphs);
    assert!(!call.capabilities().supports_dependency_graphs);
    assert!(dep.capabilities().supports_dependency_graphs);
    assert_eq!(call.graph_type(), GraphType::Call);
    assert_eq!(dep.graph_type(), GraphType::Dependency);
    assert_eq!(call.name(), "c");
}

#[test]
fn dependency_builder_skips_unknown_imports() {
    let builder = DependencyGraphBuilder::new("deps".to_string());
    let mut data = GraphSourceData::new();
    data.add_file("main.rs".to_string(), String::new());
    data.add_imports("main.rs".to_string(), vec!["missing.rs".to_string()]);
    let graph = builder.build(&data).unwrap();
    assert_eq!(graph.nodes.len(), 1);
    assert_eq!(graph.edges.len(), 0);
}

#[test]
fn default_builder_call_graph_respects_node_limit() {
    let mut config = GraphBuilderConfig::default();
    config.max_nodes = Some(2);
    let builder = DefaultGraphBuilder::with_config("proj".to_string(), config);
    let mut data = GraphSourceData::new();
    data.add_file("a.rs".to_string(), String::new());
    data.add_functions("a.rs".to_string(), vec!["f".to_string(), "g".to_string()]);
    let graph = builder.build_call_graph(&data).unwrap();
    assert_eq!(graph.name, "proj - Call Graph");
    assert_eq!(graph.nodes.len(), 2);
    assert_eq!(graph.edges.len(), 1);
    assert_eq!(graph.nodes[0].color.as_deref(), Some("#3498db"));
    assert_eq!(graph.nodes[1].color.as_deref(), Some("#e74c3c"));
    assert_eq!(graph.nodes[0].metadata.get("node_type").map(|s| s.as_str()), Some("file"));
    assert_eq!(graph.edges[0].label.as_deref(), Some("contains"));
}

#[test]
fn default_builder_other_graphs() {
    let builder = DefaultGraphBuilder::new("proj".to_string());
    let mut data = GraphSourceData::new();
    data.add_file("a.rs".to_string(), String::new());
    data.add_file("b.rs".to_string(), String::new());
    data.add_imports("a.rs".to_string(), vec!["b.rs".to_string()]);
    let deps = builder.build_dependency_graph(&data).unwrap();
    assert_eq!(deps.graph_type, GraphType::Dependency);
    assert_eq!(deps.edges.len(), 1);
    assert_eq!(deps.edges[0].label.as_deref(), Some("imports"));
    let flow = builder.build_data_flow_graph(&data).unwrap();
    assert_eq!(flow.nodes[0].id, "data:a.rs");
    assert_eq!(flow.nodes[0].label, "Data from a.rs");
    assert_eq!(flow.nodes[0].node_type, NodeType::Variable);
    let comp = builder.build_component_graph(&data).unwrap();
    assert_eq!(comp.nodes[1].id, "component:b.rs");
    assert_eq!(comp.nodes[1].label, "Component b.rs");
    assert_eq!(comp.name, "proj - Component Graph");
}

#[test]
fn default_builder_validation() {
    let mut config = GraphBuilderConfig::default();
    config.max_nodes = Some(1);
    let builder = DefaultGraphBuilder::with_config("proj".to_string(), config);
    let empty = GraphSourceData::new();
    match builder.validate_source_data(&empty) {
        Err(Error::GraphCorrelation(m)) => assert_eq!(m, "No source files provided"),
        _ => panic!("expected an error"),
    }
    let mut data = GraphSourceData::new();
    data.add_file("a.rs".to_string(), String::new());
    data.add_functions("a.rs".to_string(), vec!["f".to_string()]);
    match builder.validate_source_data(&data) {
        Err(Error::GraphCorrelation(m)) => assert_eq!(m, "Too many potential nodes: 2 (max: 1)"),
        _ => panic!("expected an error"),
    }
    let open = DefaultGraphBuilder::new("proj".to_string());
    let mut blank = GraphSourceData::new();
    blank.add_file("  ".to_string(), String::new());
    match open.validate_source_data(&blank) {
        Err(Error::GraphCorrelation(m)) => assert_eq!(m, "Empty file path found"),
        _ => panic!("expected an error"),
    }
    assert!(open.validate_source_data(&data).is_ok());
    let caps = open.capabilities();
    assert!(caps.supports_parallel && caps.supports_caching && caps.supports_validation);
}

#[test]
fn test_graph_correlation_manager() {
    let manager = GraphCorrelationManager::new();
    let available_types = manager.available_graph_types();

    assert!(available_types.contains(&GraphType::Call));
    assert!(available_types.contains(&GraphType::Dependency));
}

#[test]
fn test_graph_manager_operations() {
    let manager = GraphCorrelationManager::new();

    let graph_types = manager.available_graph_types();
    assert!(!graph_types.is_empty());
    assert!(graph_types.contains(&GraphType::Call));
    assert!(graph_types.contains(&GraphType::Dependency));

    let source_data = GraphSourceData::new();
    let call_graph = manager.build_graph(GraphType::Call, &source_data);
    assert!(call_graph.is_ok());

    let dep_graph = manager.build_graph(GraphType::Dependency, &source_data);
    assert!(dep_graph.is_ok());
}

#[test]
fn manager_refuses_kinds_without_builder() {
    let mut manager = GraphCorrelationManager::default();
    let source_data = GraphSourceData::new();
    match manager.build_graph(GraphType::Component, &source_data) {
        Err(Error::GraphCorrelation(m)) => assert_eq!(m, "No builder found for graph type: Component"),
        _ => panic!("expected a refusal"),
    }
    manager.register_builder(ManagedBuilder::Default(DefaultGraphBuilder::new("Custom".to_string())));
    assert_eq!(manager.available_graph_types(), vec![GraphType::Call, GraphType::Dependency]);
    let mut data = GraphSourceData::new();
    data.add_file("a.rs".to_string(), "fn a() {}".to_string());
    let graph = manager.build_graph(GraphType::Call, &data).unwrap();
    assert_eq!(graph.name, "Custom - Call Graph");
}

#[test]
fn test_graph_error_handling() {
    let mut graph = CorrelationGraph::new(GraphType::Call, "Test Graph".to_string());
    graph.add_node(node("node1", "Function 1")).unwrap();
    let result = graph.add_node(node("node1", "Function 1"));
    assert!(result.is_err());

    let edge = GraphEdge {
        id: "edge1".to_string(),
        source: "nonexistent1".to_string(),
        target: "nonexistent2".to_string(),
        edge_type: EdgeType::Calls,
        metadata: StrMap::new(),
        weight_bits: UNIT_WEIGHT_BITS,
        label: None,
    };
    let result = graph.add_edge(edge);
    assert!(result.is_err());
}

#[test]
fn new_graph_is_stamped_with_the_clock() {
    let g = CorrelationGraph::new(GraphType::Call, "stamped".to_string());
    assert!(g.created_at > 1_600_000_000_000);
    assert_eq!(g.created_at, g.updated_at);
}

fn plain_node(id: &str, label: &str) -> GraphNode {
    GraphNode {
        id: id.to_string(),
        node_type: NodeType::Function,
        label: label.to_string(),
        metadata: nexus_core::str_map::StrMap::new(),
        color: None,
    }
}

#[test]
fn test_graph_edge_creation() {
    let mut metadata = nexus_core::str_map::StrMap::new();
    metadata.insert("weight".to_string(), "1.5".to_string());
    metadata.insert("frequency".to_string(), "10".to_string());
    let edge = GraphEdge {
        id: "edge1".to_string(),
        source: "node1".to_string(),
        target: "node2".to_string(),
        edge_type: EdgeType::Calls,
        weight_bits: 1.5f32.to_bits(),
        metadata,
        label: Some("#00FF00".to_string()),
    };
    assert_eq!(edge.id, "edge1");
    assert_eq!(edge.source, "node1");
    assert_eq!(edge.target, "node2");
    assert_eq!(edge.edge_type, EdgeType::Calls);
    assert_eq!(edge.metadata.len(), 2);
    assert_eq!(f32::from_bits(edge.weight_bits), 1.5);
    assert_eq!(edge.label, Some("#00FF00".to_string()));
    let cloned = edge.clone();
    assert_eq!(edge.id, cloned.id);
    assert_eq!(edge.source, cloned.source);
    assert_eq!(edge.target, cloned.target);
    assert_eq!(edge.edge_type, cloned.edge_type);
    assert_eq!(edge.metadata.get("weight"), cloned.metadata.get("weight"));
    assert_eq!(edge.metadata.get("frequency"), cloned.metadata.get("frequency"));
    assert_eq!(edge.weight_bits, cloned.weight_bits);
    assert_eq!(edge.label, cloned.label);
}

#[test]
fn test_graph_clear_operations() {
    let mut graph = CorrelationGraph::new(GraphType::Call, "Test Graph".to_string());
    graph.add_node(plain_node("node1", "Function 1")).unwrap();
    graph.add_node(plain_node("node2", "Function 2")).unwrap();
    graph
        .add_edge(GraphEdge {
            id: "edge1".to_string(),
            source: "node1".to_string(),
            target: "node2".to_string(),
            edge_type: EdgeType::Calls,
            weight_bits: 1.0f32.to_bits(),
            metadata: nexus_core::str_map::StrMap::new(),
            label: None,
        })
        .unwrap();
    assert_eq!(graph.nodes.len(), 2);
    assert_eq!(graph.edges.len(), 1);
    graph.nodes.clear();
    graph.edges.clear();
    assert_eq!(graph.nodes.len(), 0);
    assert_eq!(graph.edges.len(), 0);
    graph.add_node(plain_node("node3", "Function 3")).unwrap();
    assert_eq!(graph.nodes.len(), 1);
}
