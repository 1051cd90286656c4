use nexus_core::graph_correlation::correlation_graph::{CorrelationGraph, GraphEdge, GraphNode};
use nexus_core::graph_correlation::graph_export::{escape_dot, escape_xml, export_dot, export_gexf, export_graphml, ExportFormat};
use nexus_core::graph_correlation::{EdgeType, GraphType, NodeType};
use nexus_core::str_map::StrMap;

fn create_test_graph() -> CorrelationGraph {
    let mut graph = CorrelationGraph::new(GraphType::Call, "Test".to_string());
    for (id, label) in [("node1", "Node 1"), ("node2", "Node 2")] {
        graph
            .add_node(GraphNode {
                id: id.to_string(),
                label: label.to_string(),
                node_type: NodeType::Function,
                metadata: StrMap::new(),
                color: None,
            })
            .unwrap();
    }
    graph
        .add_edge(GraphEdge {
            id: "e1".to_string(),
            source: "node1".to_string(),
            target: "node2".to_string(),
            edge_type: EdgeType::Calls,
            weight_bits: 1.0f32.to_bits(),
            metadata: StrMap::new(),
            label: None,
        })
        .unwrap();
    graph
}

fn weights(graph: &CorrelationGraph) -> Vec<String> {
    graph.edges.iter().map(|e| f32::from_bits(e.weight_bits).to_string()).collect()
}

#[test]
fn test_export_graphml_empty() {
    let graph = CorrelationGraph::new(GraphType::Dependency, "Empty".to_string());
    let result = export_graphml(&graph, &weights(&graph));
    assert!(result.is_ok());
    let xml = result.unwrap();
    assert!(xml.contains("<?xml"));
    assert!(xml.contains("<graphml"));
}

#[test]
fn test_export_graphml_with_data() {
    let graph = create_test_graph();
    let xml = export_graphml(&graph, &weights(&graph)).unwrap();
    assert!(xml.contains("<node"));
    assert!(xml.contains("<edge"));
    assert!(xml.contains("node1"));
    assert!(xml.contains("<data key=\"weight\">1</data>"));
    assert!(xml.contains("<data key=\"type\">Calls</data>"));
}

#[test]
fn test_export_gexf_empty() {
    let graph = CorrelationGraph::new(GraphType::DataFlow, "Test".to_string());
    let xml = export_gexf(&graph, &weights(&graph)).unwrap();
    assert!(xml.contains("<?xml"));
    assert!(xml.contains("<gexf"));
}

#[test]
fn test_export_gexf_with_data() {
    let graph = create_test_graph();
    let xml = export_gexf(&graph, &weights(&graph)).unwrap();
    assert!(xml.contains("<node"));
    assert!(xml.contains("<edge"));
    assert!(xml.contains("weight=\"1\""));
}

#[test]
fn test_export_dot_empty() {
    let graph = CorrelationGraph::new(GraphType::Component, "Test".to_string());
    let dot = export_dot(&graph).unwrap();
    assert!(dot.contains("digraph"));
    assert_eq!(dot, "digraph \"Test\" {\n  rankdir=TB;\n  node [shape=box];\n}\n");
}

#[test]
fn test_export_dot_with_data() {
    let graph = create_test_graph();
    let dot = export_dot(&graph).unwrap();
    assert!(dot.contains("node1"));
    assert!(dot.contains("node2"));
    assert!(dot.contains("->"));
    assert!(dot.contains("  \"node1\" -> \"node2\" [style=solid label=\"Calls\"];\n"));
    assert!(dot.contains("  \"node1\" [label=\"Node 1\" color=\"#3498db\" style=filled fillcolor=\"#3498db33\"];\n"));
}

#[test]
fn test_escape_xml_basic() {
    assert_eq!(escape_xml("<test>"), "&lt;test&gt;");
    assert_eq!(escape_xml("a&b"), "a&amp;b");
}

#[test]
fn test_escape_xml_quotes() {
    assert_eq!(escape_xml("\"quoted\""), "&quot;quoted&quot;");
    assert_eq!(escape_xml("'single'"), "&apos;single&apos;");
}

#[test]
fn test_escape_xml_all_chars() {
    assert_eq!(escape_xml("<>&\"'"), "&lt;&gt;&amp;&quot;&apos;");
}

#[test]
fn test_escape_dot_basic() {
    assert_eq!(escape_dot("\"test\""), "\\\"test\\\"");
}

#[test]
fn test_escape_dot_empty() {
    assert_eq!(escape_dot(""), "");
}

#[test]
fn test_escape_dot_no_quotes() {
    assert_eq!(escape_dot("test"), "test");
}

#[test]
fn escape_dot_newline() {
    assert_eq!(escape_dot("a\nb"), "a\\nb");
}

#[test]
fn test_export_format_display() {
    assert_eq!(format!("{:?}", ExportFormat::JSON), "JSON");
    assert_eq!(format!("{:?}", ExportFormat::GraphML), "GraphML");
    assert_eq!(format!("{:?}", ExportFormat::GEXF), "GEXF");
    assert_eq!(format!("{:?}", ExportFormat::DOT), "DOT");
}

#[test]
fn test_graphml_export() {
    let mut graph = CorrelationGraph::new(GraphType::Call, "Test Graph".to_string());
    let node = GraphNode {
        id: "node1".to_string(),
        node_type: NodeType::Function,
        label: "test_function".to_string(),
        metadata: StrMap::new(),
        color: None,
    };
    graph.add_node(node).unwrap();

    let graphml = graph.to_graphml(&Vec::new()).unwrap();
    assert!(graphml.contains("<?xml"));
    assert!(graphml.contains("node1"));
    assert!(graphml.contains("test_function"));
}

#[test]
fn basic_graphml_lists_nodes_then_weighted_edges() {
    let graph = create_test_graph();
    let weights = vec![1.0f32.to_string()];
    let graphml = graph.to_graphml(&weights).unwrap();
    let expected = [
        "<?xml version=\"1.0\" encoding=\"UTF-8\"?>\n",
        "<graphml xmlns=\"http://graphml.graphdrawing.org/xmlns\">\n",
        "  <graph id=\"G\" edgedefault=\"directed\">\n",
        "    <node id=\"node1\" label=\"Node 1\">\n",
        "    </node>\n",
        "    <node id=\"node2\" label=\"Node 2\">\n",
        "    </node>\n",
        "    <edge id=\"e1\" source=\"node1\" target=\"node2\" weight=\"1\">\n",
        "    </edge>\n",
        "  </graph>\n",
        "</graphml>\n",
    ]
    .concat();
    assert_eq!(graphml, expected);
}
