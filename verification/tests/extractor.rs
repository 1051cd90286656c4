use nexus_core::graph_correlation::extractor::{combine_results, DEFAULT_SIMILARITY_BITS};
use nexus_core::graph_correlation::{
    EdgeType, GraphType, NodeType, VectorizerCollections, VectorizerExtractorConfig, VectorizerGraphExtractor,
    VectorizerRecord,
};

fn record(texts: &[(&str, &str)], numbers: &[(&str, &str)]) -> VectorizerRecord {
    let mut r = VectorizerRecord::new();
    for (k, v) in texts {
        r.text_fields.insert(k.to_string(), v.to_string());
    }
    for (k, v) in numbers {
        r.number_fields.insert(k.to_string(), v.to_string());
    }
    r
}

#[test]
fn test_vectorizer_graph_extractor_new() {
    let extractor = VectorizerGraphExtractor::new();
    assert!(extractor.mcp_client.is_none());
    assert_eq!(extractor.query_cache.len(), 0);
    assert_eq!(extractor.config.max_results, 1000);
    assert_eq!(f32::from_bits(extractor.config.similarity_threshold_bits), 0.7);
    assert!(extractor.config.enable_caching);
}

#[test]
fn test_vectorizer_graph_extractor_with_config() {
    let config = VectorizerExtractorConfig {
        max_results: 500,
        similarity_threshold_bits: 0.8f32.to_bits(),
        enable_caching: false,
        cache_ttl_seconds: 1800,
        collections: VectorizerCollections {
            functions: "custom_functions".to_string(),
            imports: "custom_imports".to_string(),
            calls: "custom_calls".to_string(),
            types: "custom_types".to_string(),
            codebase: "custom_codebase".to_string(),
        },
    };

    let extractor = VectorizerGraphExtractor::with_config(config.clone());
    assert_eq!(extractor.config.max_results, 500);
    assert_eq!(f32::from_bits(extractor.config.similarity_threshold_bits), 0.8);
    assert!(!extractor.config.enable_caching);
    assert_eq!(extractor.config.cache_ttl_seconds, 1800);
    assert_eq!(extractor.config.collections.functions, "custom_functions");
}

#[test]
fn test_vectorizer_extractor_config_default() {
    let config = VectorizerExtractorConfig::default();
    assert_eq!(config.max_results, 1000);
    assert_eq!(f32::from_bits(config.similarity_threshold_bits), 0.7);
    assert_eq!(config.similarity_threshold_bits, DEFAULT_SIMILARITY_BITS);
    assert!(config.enable_caching);
    assert_eq!(config.cache_ttl_seconds, 3600);
    assert_eq!(config.collections.functions, "functions");
    assert_eq!(config.collections.imports, "imports");
    assert_eq!(config.collections.calls, "calls");
    assert_eq!(config.collections.types, "types");
    assert_eq!(config.collections.codebase, "codebase");
}

#[test]
fn test_set_mcp_client() {
    let mut extractor = VectorizerGraphExtractor::new();
    assert!(extractor.mcp_client.is_none());

    let mut fields = serde_json::Map::new();
    fields.insert("test".to_string(), serde_json::Value::String("client".to_string()));
    let client = serde_json::Value::Object(fields);
    extractor.set_mcp_client(client.clone());
    assert!(extractor.mcp_client.is_some());
    assert_eq!(extractor.mcp_client.unwrap(), client);
}

#[test]
fn test_create_function_node() {
    let extractor = VectorizerGraphExtractor::new();
    let func_data = record(
        &[
            ("id", "func_123"),
            ("name", "test_function"),
            ("signature", "fn test_function() -> i32"),
            ("file", "src/main.rs"),
        ],
        &[],
    );

    let node = extractor.create_function_node(func_data).unwrap();
    assert_eq!(node.id, "func_123");
    assert_eq!(node.label, "test_function");
    assert_eq!(node.node_type, NodeType::Function);
    assert_eq!(node.metadata.get("signature").unwrap(), "fn test_function() -> i32");
    assert_eq!(node.metadata.get("file").unwrap(), "src/main.rs");
}

#[test]
fn test_create_function_node_minimal() {
    let extractor = VectorizerGraphExtractor::new();
    let node = extractor.create_function_node(record(&[], &[])).unwrap();
    assert_eq!(node.id, "unknown");
    assert_eq!(node.label, "Unknown Function");
    assert_eq!(node.node_type, NodeType::Function);
    assert_eq!(node.metadata.len(), 0);
}

#[test]
fn test_create_call_edge() {
    let extractor = VectorizerGraphExtractor::new();
    let call_data = record(
        &[("id", "call_123"), ("caller", "function_a"), ("callee", "function_b")],
        &[("frequency", "42")],
    );

    let edge = extractor.create_call_edge(call_data).unwrap();
    assert_eq!(edge.id, "call_123");
    assert_eq!(edge.source, "function_a");
    assert_eq!(edge.target, "function_b");
    assert_eq!(edge.edge_type, EdgeType::Calls);
    assert_eq!(f32::from_bits(edge.weight_bits), 1.0);
    assert_eq!(edge.metadata.get("frequency").unwrap(), "42");
}

#[test]
fn test_create_call_edge_minimal() {
    let extractor = VectorizerGraphExtractor::new();
    let edge = extractor.create_call_edge(record(&[], &[])).unwrap();
    assert_eq!(edge.id, "unknown");
    assert_eq!(edge.source, "unknown");
    assert_eq!(edge.target, "unknown");
    assert_eq!(edge.edge_type, EdgeType::Calls);
    assert_eq!(f32::from_bits(edge.weight_bits), 1.0);
    assert_eq!(edge.metadata.len(), 0);
}

#[test]
fn test_create_import_relationship() {
    let extractor = VectorizerGraphExtractor::new();
    let import_data = record(&[("source", "module_a"), ("target", "module_b")], &[]);

    let (source_node, target_node, edge) = extractor.create_import_relationship(import_data).unwrap();

    assert_eq!(source_node.id, "module_a");
    assert_eq!(source_node.label, "module_a");
    assert_eq!(source_node.node_type, NodeType::Module);

    assert_eq!(target_node.id, "module_b");
    assert_eq!(target_node.label, "module_b");
    assert_eq!(target_node.node_type, NodeType::Module);

    assert_eq!(edge.id, "module_a->module_b");
    assert_eq!(edge.source, "module_a");
    assert_eq!(edge.target, "module_b");
    assert_eq!(edge.edge_type, EdgeType::Imports);
}

#[test]
fn test_create_variable_node() {
    let extractor = VectorizerGraphExtractor::new();
    let var_data = record(&[("id", "var_123"), ("name", "counter"), ("type", "i32")], &[]);

    let node = extractor.create_variable_node(var_data).unwrap();
    assert_eq!(node.id, "var_123");
    assert_eq!(node.label, "counter");
    assert_eq!(node.node_type, NodeType::Variable);
    assert_eq!(node.metadata.get("type").unwrap(), "i32");
}

#[test]
fn test_create_transformation_edge() {
    let extractor = VectorizerGraphExtractor::new();
    let transform_data = record(&[("id", "transform_123"), ("source", "input_data"), ("target", "output_data")], &[]);

    let edge = extractor.create_transformation_edge(transform_data).unwrap();
    assert_eq!(edge.id, "transform_123");
    assert_eq!(edge.source, "input_data");
    assert_eq!(edge.target, "output_data");
    assert_eq!(edge.edge_type, EdgeType::Transforms);
}

#[test]
fn test_create_class_node() {
    let extractor = VectorizerGraphExtractor::new();
    let class_data = record(&[("id", "class_123"), ("name", "MyClass"), ("base_class", "BaseClass")], &[]);

    let node = extractor.create_class_node(class_data).unwrap();
    assert_eq!(node.id, "class_123");
    assert_eq!(node.label, "MyClass");
    assert_eq!(node.node_type, NodeType::Class);
    assert_eq!(node.metadata.get("base_class").unwrap(), "BaseClass");
}

#[test]
fn test_create_interface_node() {
    let extractor = VectorizerGraphExtractor::new();
    let interface_data = record(&[("id", "interface_123"), ("name", "MyInterface")], &[]);

    let node = extractor.create_interface_node(interface_data).unwrap();
    assert_eq!(node.id, "interface_123");
    assert_eq!(node.label, "MyInterface");
    assert_eq!(node.node_type, NodeType::API);
}

#[test]
fn test_create_relationship_edge() {
    let extractor = VectorizerGraphExtractor::new();

    let inherits_data =
        record(&[("id", "rel_123"), ("source", "ChildClass"), ("target", "ParentClass"), ("type", "inherits")], &[]);
    let edge = extractor.create_relationship_edge(inherits_data).unwrap();
    assert_eq!(edge.edge_type, EdgeType::Inherits);

    let implements_data =
        record(&[("id", "rel_456"), ("source", "MyClass"), ("target", "MyInterface"), ("type", "implements")], &[]);
    let edge = extractor.create_relationship_edge(implements_data).unwrap();
    assert_eq!(edge.edge_type, EdgeType::Composes);

    let uses_data = record(&[("id", "rel_789"), ("source", "MyClass"), ("target", "OtherClass"), ("type", "uses")], &[]);
    let edge = extractor.create_relationship_edge(uses_data).unwrap();
    assert_eq!(edge.edge_type, EdgeType::Uses);

    let depends_data =
        record(&[("id", "rel_999"), ("source", "MyClass"), ("target", "OtherClass"), ("type", "unknown")], &[]);
    let edge = extractor.create_relationship_edge(depends_data).unwrap();
    assert_eq!(edge.edge_type, EdgeType::Depends);
}

#[test]
fn test_cache_operations() {
    let mut extractor = VectorizerGraphExtractor::new();

    let (cache_entries, total_items) = extractor.cache_stats();
    assert_eq!(cache_entries, 0);
    assert_eq!(total_items, 0);

    extractor.clear_cache();
    let (cache_entries, total_items) = extractor.cache_stats();
    assert_eq!(cache_entries, 0);
    assert_eq!(total_items, 0);
}

#[test]
fn test_vectorizer_graph_extractor_default() {
    let extractor = VectorizerGraphExtractor::default();
    assert!(extractor.mcp_client.is_none());
    assert_eq!(extractor.query_cache.len(), 0);
    assert_eq!(extractor.config.max_results, 1000);
}

#[test]
fn test_extract_call_graph_empty() {
    let mut extractor = VectorizerGraphExtractor::new();
    let graph = extractor.extract_call_graph("", None).unwrap();
    assert_eq!(graph.graph_type, GraphType::Call);
    assert_eq!(graph.name, "Call Graph");
    assert_eq!(graph.nodes.len(), 0);
    assert_eq!(graph.edges.len(), 0);
}

#[test]
fn test_extract_dependency_graph_empty() {
    let mut extractor = VectorizerGraphExtractor::new();
    let graph = extractor.extract_dependency_graph("").unwrap();
    assert_eq!(graph.graph_type, GraphType::Dependency);
    assert_eq!(graph.name, "Dependency Graph");
    assert_eq!(graph.nodes.len(), 0);
    assert_eq!(graph.edges.len(), 0);
}

#[test]
fn test_extract_data_flow_graph_empty() {
    let mut extractor = VectorizerGraphExtractor::new();
    let graph = extractor.extract_data_flow_graph("").unwrap();
    assert_eq!(graph.graph_type, GraphType::DataFlow);
    assert_eq!(graph.name, "Data Flow Graph");
    assert_eq!(graph.nodes.len(), 0);
    assert_eq!(graph.edges.len(), 0);
}

#[test]
fn test_extract_component_graph_empty() {
    let mut extractor = VectorizerGraphExtractor::new();
    let graph = extractor.extract_component_graph("").unwrap();
    assert_eq!(graph.graph_type, GraphType::Component);
    assert_eq!(graph.name, "Component Graph");
    assert_eq!(graph.nodes.len(), 0);
    assert_eq!(graph.edges.len(), 0);
}

#[test]
fn searches_are_cached_by_collection_and_query() {
    let mut extractor = VectorizerGraphExtractor::new();
    extractor.extract_call_graph("parse", None).unwrap();
    // the functions and calls collections were each searched once
    assert_eq!(extractor.cache_stats(), (2, 0));
    assert!(extractor.query_cache.contains_key("functions:parse"));
    assert!(extractor.query_cache.contains_key("calls:parse"));
    extractor.extract_call_graph("parse", None).unwrap();
    assert_eq!(extractor.cache_stats(), (2, 0));
    extractor.extract_component_graph("parse").unwrap();
    assert!(extractor.query_cache.contains_key("types:parse"));
    assert!(extractor.query_cache.contains_key("codebase:parse"));
    assert_eq!(extractor.cache_stats(), (4, 0));
    extractor.clear_cache();
    assert_eq!(extractor.cache_stats(), (0, 0));
}

#[test]
fn cached_records_build_the_graph() {
    let mut extractor = VectorizerGraphExtractor::new();
    let functions = vec![
        record(&[("id", "f1"), ("name", "main")], &[]),
        record(&[("id", "f2"), ("name", "helper")], &[]),
    ];
    let calls = vec![record(&[("id", "c1"), ("caller", "f1"), ("callee", "f2")], &[("frequency", "3")])];
    extractor.query_cache.insert("functions:q".to_string(), functions);
    extractor.query_cache.insert("calls:q".to_string(), calls);
    assert_eq!(extractor.cache_stats(), (2, 3));
    let graph = extractor.extract_call_graph("q", None).unwrap();
    assert_eq!(graph.nodes.len(), 2);
    assert_eq!(graph.nodes[1].label, "helper");
    assert_eq!(graph.edges.len(), 1);
    assert_eq!(graph.edges[0].metadata.get("frequency").unwrap(), "3");
}

#[test]
fn cached_duplicate_function_is_refused() {
    let mut extractor = VectorizerGraphExtractor::new();
    let functions = vec![record(&[("id", "f1")], &[]), record(&[("id", "f1")], &[])];
    extractor.query_cache.insert("functions:q".to_string(), functions);
    assert!(extractor.extract_call_graph("q", None).is_err());
}

#[test]
fn dependency_graph_adds_each_module_once() {
    let mut extractor = VectorizerGraphExtractor::new();
    let imports = vec![
        record(&[("source", "a"), ("target", "b")], &[]),
        record(&[("source", "b"), ("target", "c")], &[]),
        record(&[("source", "a"), ("target", "c")], &[]),
    ];
    extractor.query_cache.insert("imports:q".to_string(), imports);
    let graph = extractor.extract_dependency_graph("q").unwrap();
    let ids: Vec<&str> = graph.nodes.iter().map(|n| n.id.as_str()).collect();
    assert_eq!(ids, vec!["a", "b", "c"]);
    let edges: Vec<&str> = graph.edges.iter().map(|e| e.id.as_str()).collect();
    assert_eq!(edges, vec!["a->b", "b->c", "a->c"]);
}

#[test]
fn uncached_search_leaves_cache_alone() {
    let mut config = VectorizerExtractorConfig::default();
    config.enable_caching = false;
    let mut extractor = VectorizerGraphExtractor::with_config(config);
    extractor.extract_data_flow_graph("x").unwrap();
    assert_eq!(extractor.cache_stats(), (0, 0));
}

#[test]
fn combined_results_drop_repeated_ids() {
    let semantic = vec![
        record(&[("id", "a"), ("name", "first")], &[]),
        record(&[("name", "no id")], &[]),
        record(&[("id", "b")], &[]),
    ];
    let metadata = vec![
        record(&[("id", "a"), ("name", "second")], &[]),
        record(&[("name", "no id")], &[]),
        record(&[("id", "c")], &[]),
    ];
    let combined = combine_results(semantic, metadata);
    let names: Vec<String> = combined
        .iter()
        .map(|r| r.text_fields.get("id").cloned().unwrap_or_else(|| "-".to_string()))
        .collect();
    assert_eq!(names, vec!["a", "-", "b", "-", "c"]);
    assert_eq!(combined[0].text_fields.get("name").unwrap(), "first");
}

#[test]
fn combined_results_keep_at_most_a_thousand() {
    let ids: Vec<String> = (0..1200).map(|i| format!("r{}", i)).collect();
    let semantic: Vec<_> = ids[..600].iter().map(|id| record(&[("id", id.as_str())], &[])).collect();
    let metadata: Vec<_> = ids[600..].iter().map(|id| record(&[("id", id.as_str())], &[])).collect();
    let combined = combine_results(semantic, metadata);
    assert_eq!(combined.len(), 1000);
    assert_eq!(combined[999].text_fields.get("id").unwrap(), "r999");
}
