//! Export formats and the escaping that GraphML, GEXF and DOT output need.

use super::correlation_graph::{CorrelationGraph, GraphEdge, GraphNode};
use super::{EdgeType, NodeType};
use vstd::prelude::*;

verus! {

/// Graph export format
#[derive(Debug, Clone, Copy, PartialEq, Eq, Structural)]
pub enum ExportFormat {
    JSON,
    GraphML,
    GEXF,
    DOT,
}

/// XML rendering of one character: the five markup characters become entities.
pub open spec fn xml_escaped_char(c: char) -> Seq<char> {
    if c == '&' {
        "&amp;"@
    } else if c == '<' {
        "&lt;"@
    } else if c == '>' {
        "&gt;"@
    } else if c == '"' {
        "&quot;"@
    } else if c == '\'' {
        "&apos;"@
    } else {
        seq![c]
    }
}

/// DOT rendering of one character: quotes and newlines are backslash-escaped.
pub open spec fn dot_escaped_char(c: char) -> Seq<char> {
    if c == '"' {
        "\\\""@
    } else if c == '\n' {
        "\\n"@
    } else {
        seq![c]
    }
}

/// Each character of `s` replaced by its XML rendering.
pub open spec fn xml_escaped(s: Seq<char>) -> Seq<char>
    decreases s.len(),
{
    if s.len() == 0 {
        Seq::empty()
    } else {
        xml_escaped(s.drop_last()) + xml_escaped_char(s.last())
    }
}

/// Each character of `s` replaced by its DOT rendering.
pub open spec fn dot_escaped(s: Seq<char>) -> Seq<char>
    decreases s.len(),
{
    if s.len() == 0 {
        Seq::empty()
    } else {
        dot_escaped(s.drop_last()) + dot_escaped_char(s.last())
    }
}

/// Escape the XML markup characters of `s`.
pub fn escape_xml(s: &str) -> (r: String)
    ensures
        r@ == xml_escaped(s@),
{
    let n = s.unicode_len();
    let mut out = String::new();
    let mut i: usize = 0;
    while i < n
        invariant
            n == s@.len(),
            i <= n,
            out@ == xml_escaped(s@.subrange(0, i as int)),
        decreases n - i,
    {
        let c = s.get_char(i);
        let piece: &str = if c == '&' {
            "&amp;"
        } else if c == '<' {
            "&lt;"
        } else if c == '>' {
            "&gt;"
        } else if c == '"' {
            "&quot;"
        } else if c == '\'' {
            "&apos;"
        } else {
            s.substring_char(i, i + 1)
        };
        proof {
            let pre = s@.subrange(0, i as int + 1);
            assert(pre.drop_last() =~= s@.subrange(0, i as int));
            assert(pre.last() == c);
            if c != '&' && c != '<' && c != '>' && c != '"' && c != '\'' {
                assert(piece@ =~= seq![c]);
            }
        }
        out.append(piece);
        i = i + 1;
    }
    proof {
        assert(s@.subrange(0, n as int) =~= s@);
    }
    out
}

/// Escape quotes and newlines of `s` for a DOT label.
pub fn escape_dot(s: &str) -> (r: String)
    ensures
        r@ == dot_escaped(s@),
{
    let n = s.unicode_len();
    let mut out = String::new();
    let mut i: usize = 0;
    while i < n
        invariant
            n == s@.len(),
            i <= n,
            out@ == dot_escaped(s@.subrange(0, i as int)),
        decreases n - i,
    {
        let c = s.get_char(i);
        let piece: &str = if c == '"' {
            "\\\""
        } else if c == '\n' {
            "\\n"
        } else {
            s.substring_char(i, i + 1)
        };
        proof {
            let pre = s@.subrange(0, i as int + 1);
            assert(pre.drop_last() =~= s@.subrange(0, i as int));
            assert(pre.last() == c);
            if c != '"' && c != '\n' {
                assert(piece@ =~= seq![c]);
            }
        }
        out.append(piece);
        i = i + 1;
    }
    proof {
        assert(s@.subrange(0, n as int) =~= s@);
    }
    out
}


/// The name `{:?}` prints for a node type.
pub open spec fn node_type_name(t: NodeType) -> Seq<char> {
    match t {
        NodeType::Function => "Function"@,
        NodeType::Module => "Module"@,
        NodeType::Class => "Class"@,
        NodeType::Variable => "Variable"@,
        NodeType::API => "API"@,
    }
}

/// The name `{:?}` prints for an edge type.
pub open spec fn edge_type_name(t: EdgeType) -> Seq<char> {
    match t {
        EdgeType::Calls => "Calls"@,
        EdgeType::Imports => "Imports"@,
        EdgeType::Inherits => "Inherits"@,
        EdgeType::Composes => "Composes"@,
        EdgeType::Transforms => "Transforms"@,
        EdgeType::Uses => "Uses"@,
        EdgeType::Depends => "Depends"@,
    }
}

fn node_type_text(t: NodeType) -> (s: &'static str)
    ensures
        s@ == node_type_name(t),
{
    match t {
        NodeType::Function => "Function",
        NodeType::Module => "Module",
        NodeType::Class => "Class",
        NodeType::Variable => "Variable",
        NodeType::API => "API",
    }
}

fn edge_type_text(t: EdgeType) -> (s: &'static str)
    ensures
        s@ == edge_type_name(t),
{
    match t {
        EdgeType::Calls => "Calls",
        EdgeType::Imports => "Imports",
        EdgeType::Inherits => "Inherits",
        EdgeType::Composes => "Composes",
        EdgeType::Transforms => "Transforms",
        EdgeType::Uses => "Uses",
        EdgeType::Depends => "Depends",
    }
}

/// The GraphML element of a node.
pub open spec fn graphml_node(n: GraphNode) -> Seq<char> {
    "    <node id=\""@ + xml_escaped(n.id@) + "\">\n"@ + "      <data key=\"label\">"@ + xml_escaped(n.label@)
        + "</data>\n"@ + "      <data key=\"type\">"@ + node_type_name(n.node_type) + "</data>\n"@
        + "    </node>\n"@
}

/// The GraphML element of an edge with its weight written as `weight`.
pub open spec fn graphml_edge(e: GraphEdge, weight: Seq<char>) -> Seq<char> {
    "    <edge source=\""@ + xml_escaped(e.source@) + "\" target=\""@ + xml_escaped(e.target@) + "\">\n"@
        + "      <data key=\"type\">"@ + edge_type_name(e.edge_type) + "</data>\n"@
        + "      <data key=\"weight\">"@ + weight + "</data>\n"@ + "    </edge>\n"@
}

/// The GEXF element of a node.
pub open spec fn gexf_node(n: GraphNode) -> Seq<char> {
    "      <node id=\""@ + xml_escaped(n.id@) + "\" label=\""@ + xml_escaped(n.label@) + "\"/>\n"@
}

/// The GEXF element of an edge with its weight written as `weight`.
pub open spec fn gexf_edge(e: GraphEdge, weight: Seq<char>) -> Seq<char> {
    "      <edge source=\""@ + xml_escaped(e.source@) + "\" target=\""@ + xml_escaped(e.target@) + "\" weight=\""@
        + weight + "\"/>\n"@
}

/// The DOT color of a node type.
pub open spec fn dot_color(t: NodeType) -> Seq<char> {
    match t {
        NodeType::Function => "#3498db"@,
        NodeType::Module => "#2ecc71"@,
        NodeType::Class => "#9b59b6"@,
        NodeType::Variable => "#f39c12"@,
        NodeType::API => "#e74c3c"@,
    }
}

/// The DOT line style of an edge type.
pub open spec fn dot_style(t: EdgeType) -> Seq<char> {
    match t {
        EdgeType::Imports => "dashed"@,
        EdgeType::Depends => "dotted"@,
        _ => "solid"@,
    }
}

/// The DOT statement of a node.
pub open spec fn dot_node(n: GraphNode) -> Seq<char> {
    "  \""@ + dot_escaped(n.id@) + "\" [label=\""@ + dot_escaped(n.label@) + "\" color=\""@ + dot_color(n.node_type)
        + "\" style=filled fillcolor=\""@ + dot_color(n.node_type) + "33\"];\n"@
}

/// The DOT statement of an edge.
pub open spec fn dot_edge(e: GraphEdge) -> Seq<char> {
    "  \""@ + dot_escaped(e.source@) + "\" -> \""@ + dot_escaped(e.target@) + "\" [style="@ + dot_style(e.edge_type)
        + " label=\""@ + edge_type_name(e.edge_type) + "\"];\n"@
}

/// The GraphML node elements, in order.
pub open spec fn graphml_nodes(nodes: Seq<GraphNode>) -> Seq<char>
    decreases nodes.len(),
{
    if nodes.len() == 0 {
        Seq::empty()
    } else {
        graphml_nodes(nodes.drop_last()) + graphml_node(nodes.last())
    }
}

/// The GEXF node elements, in order.
pub open spec fn gexf_nodes(nodes: Seq<GraphNode>) -> Seq<char>
    decreases nodes.len(),
{
    if nodes.len() == 0 {
        Seq::empty()
    } else {
        gexf_nodes(nodes.drop_last()) + gexf_node(nodes.last())
    }
}

/// The DOT node elements, in order.
pub open spec fn dot_nodes(nodes: Seq<GraphNode>) -> Seq<char>
    decreases nodes.len(),
{
    if nodes.len() == 0 {
        Seq::empty()
    } else {
        dot_nodes(nodes.drop_last()) + dot_node(nodes.last())
    }
}

/// The GraphML edge elements, in order, the `i`-th with the `i`-th weight text.
pub open spec fn graphml_edges(edges: Seq<GraphEdge>, weights: Seq<Seq<char>>) -> Seq<char>
    decreases edges.len(),
{
    if edges.len() == 0 {
        Seq::empty()
    } else {
        graphml_edges(edges.drop_last(), weights) + graphml_edge(edges.last(), weights[edges.len() - 1])
    }
}

/// The GEXF edge elements, in order, the `i`-th with the `i`-th weight text.
pub open spec fn gexf_edges(edges: Seq<GraphEdge>, weights: Seq<Seq<char>>) -> Seq<char>
    decreases edges.len(),
{
    if edges.len() == 0 {
        Seq::empty()
    } else {
        gexf_edges(edges.drop_last(), weights) + gexf_edge(edges.last(), weights[edges.len() - 1])
    }
}

/// The DOT edge statements, in order.
pub open spec fn dot_edges(edges: Seq<GraphEdge>) -> Seq<char>
    decreases edges.len(),
{
    if edges.len() == 0 {
        Seq::empty()
    } else {
        dot_edges(edges.drop_last()) + dot_edge(edges.last())
    }
}

/// The weight texts as texts.
pub open spec fn weight_texts(w: Seq<String>) -> Seq<Seq<char>> {
    w.map_values(|s: String| s@)
}

/// The GraphML document of a graph.
pub open spec fn graphml_document(g: CorrelationGraph, weights: Seq<Seq<char>>) -> Seq<char> {
    "<?xml version=\"1.0\" encoding=\"UTF-8\"?>\n"@ + "<graphml xmlns=\"http://graphml.graphdrawing.org/xmlns\">\n"@
        + "  <graph id=\""@ + g.name@ + "\" edgedefault=\"directed\">\n"@
        + graphml_nodes(g.nodes@)
        + graphml_edges(g.edges@, weights) + "  </graph>\n"@
        + "</graphml>\n"@
}

/// The GEXF document of a graph.
pub open spec fn gexf_document(g: CorrelationGraph, weights: Seq<Seq<char>>) -> Seq<char> {
    "<?xml version=\"1.0\" encoding=\"UTF-8\"?>\n"@ + "<gexf xmlns=\"http://www.gexf.net/1.2draft\" version=\"1.2\">\n"@
        + "  <graph mode=\"static\" defaultedgetype=\"directed\">\n"@ + "    <nodes>\n"@
        + gexf_nodes(g.nodes@) + "    </nodes>\n"@ + "    <edges>\n"@
        + gexf_edges(g.edges@, weights) + "    </edges>\n"@
        + "  </graph>\n"@ + "</gexf>\n"@
}

/// The DOT document of a graph.
pub open spec fn dot_document(g: CorrelationGraph) -> Seq<char> {
    "digraph \""@ + dot_escaped(g.name@) + "\" {\n"@ + "  rankdir=TB;\n"@ + "  node [shape=box];\n"@
        + dot_nodes(g.nodes@)
        + dot_edges(g.edges@) + "}\n"@
}

fn graphml_node_text(n: &GraphNode) -> (s: String)
    ensures
        s@ == graphml_node(*n),
{
    String::from_str("    <node id=\"").concat(escape_xml(n.id.as_str()).as_str()).concat("\">\n").concat(
        "      <data key=\"label\">",
    ).concat(escape_xml(n.label.as_str()).as_str()).concat("</data>\n").concat("      <data key=\"type\">").concat(
        node_type_text(n.node_type),
    ).concat("</data>\n").concat("    </node>\n")
}

fn graphml_edge_text(e: &GraphEdge, weight: &String) -> (s: String)
    ensures
        s@ == graphml_edge(*e, weight@),
{
    String::from_str("    <edge source=\"").concat(escape_xml(e.source.as_str()).as_str()).concat("\" target=\"").concat(
        escape_xml(e.target.as_str()).as_str(),
    ).concat("\">\n").concat("      <data key=\"type\">").concat(edge_type_text(e.edge_type)).concat("</data>\n").concat(
        "      <data key=\"weight\">",
    ).concat(weight.as_str()).concat("</data>\n").concat("    </edge>\n")
}

fn gexf_node_text(n: &GraphNode) -> (s: String)
    ensures
        s@ == gexf_node(*n),
{
    String::from_str("      <node id=\"").concat(escape_xml(n.id.as_str()).as_str()).concat("\" label=\"").concat(
        escape_xml(n.label.as_str()).as_str(),
    ).concat("\"/>\n")
}

fn gexf_edge_text(e: &GraphEdge, weight: &String) -> (s: String)
    ensures
        s@ == gexf_edge(*e, weight@),
{
    String::from_str("      <edge source=\"").concat(escape_xml(e.source.as_str()).as_str()).concat("\" target=\"").concat(
        escape_xml(e.target.as_str()).as_str(),
    ).concat("\" weight=\"").concat(weight.as_str()).concat("\"/>\n")
}

fn dot_color_text(t: NodeType) -> (s: &'static str)
    ensures
        s@ == dot_color(t),
{
    match t {
        NodeType::Function => "#3498db",
        NodeType::Module => "#2ecc71",
        NodeType::Class => "#9b59b6",
        NodeType::Variable => "#f39c12",
        NodeType::API => "#e74c3c",
    }
}

fn dot_style_text(t: EdgeType) -> (s: &'static str)
    ensures
        s@ == dot_style(t),
{
    match t {
        EdgeType::Imports => "dashed",
        EdgeType::Depends => "dotted",
        _ => "solid",
    }
}

fn dot_node_text(n: &GraphNode) -> (s: String)
    ensures
        s@ == dot_node(*n),
{
    let color = dot_color_text(n.node_type);
    String::from_str("  \"").concat(escape_dot(n.id.as_str()).as_str()).concat("\" [label=\"").concat(
        escape_dot(n.label.as_str()).as_str(),
    ).concat("\" color=\"").concat(color).concat("\" style=filled fillcolor=\"").concat(color).concat("33\"];\n")
}

fn dot_edge_text(e: &GraphEdge) -> (s: String)
    ensures
        s@ == dot_edge(*e),
{
    String::from_str("  \"").concat(escape_dot(e.source.as_str()).as_str()).concat("\" -> \"").concat(
        escape_dot(e.target.as_str()).as_str(),
    ).concat("\" [style=").concat(dot_style_text(e.edge_type)).concat(" label=\"").concat(edge_type_text(e.edge_type)).concat(
        "\"];\n",
    )
}

/// The GraphML document of `graph`; `weights` holds the rendered weight of
/// each edge, in order.
pub fn export_graphml(graph: &CorrelationGraph, weights: &Vec<String>) -> (r: Result<String, crate::error::Error>)
    requires
        weights@.len() == graph.edges@.len(),
    ensures
        r matches Ok(s) && s@ == graphml_document(*graph, weight_texts(weights@)),
{
    let mut out = String::from_str("<?xml version=\"1.0\" encoding=\"UTF-8\"?>\n");
    out.append("<graphml xmlns=\"http://graphml.graphdrawing.org/xmlns\">\n");
    out.append("  <graph id=\"");
    out.append(graph.name.as_str());
    out.append("\" edgedefault=\"directed\">\n");
    let ghost head = out@;
    let mut i: usize = 0;
    while i < graph.nodes.len()
        invariant
            i <= graph.nodes@.len(),
            out@ == head + graphml_nodes(graph.nodes@.take(i as int)),
        decreases graph.nodes@.len() - i,
    {
        let piece = graphml_node_text(&graph.nodes[i]);
        proof {
            assert(graph.nodes@.take(i as int + 1).drop_last() =~= graph.nodes@.take(i as int));
        }
        out.append(piece.as_str());
        i = i + 1;
    }
    proof {
        assert(graph.nodes@.take(i as int) =~= graph.nodes@);
    }
    let ghost mid = out@;
    let ghost w = weight_texts(weights@);
    let mut j: usize = 0;
    while j < graph.edges.len()
        invariant
            j <= graph.edges@.len(),
            weights@.len() == graph.edges@.len(),
            w == weight_texts(weights@),
            out@ == mid + graphml_edges(graph.edges@.take(j as int), w),
        decreases graph.edges@.len() - j,
    {
        let piece = graphml_edge_text(&graph.edges[j], &weights[j]);
        proof {
            assert(graph.edges@.take(j as int + 1).drop_last() =~= graph.edges@.take(j as int));
        }
        out.append(piece.as_str());
        j = j + 1;
    }
    proof {
        assert(graph.edges@.take(j as int) =~= graph.edges@);
    }
    out.append("  </graph>\n");
    out.append("</graphml>\n");
    Ok(out)
}

/// The GEXF document of `graph`; `weights` holds the rendered weight of
/// each edge, in order.
pub fn export_gexf(graph: &CorrelationGraph, weights: &Vec<String>) -> (r: Result<String, crate::error::Error>)
    requires
        weights@.len() == graph.edges@.len(),
    ensures
        r matches Ok(s) && s@ == gexf_document(*graph, weight_texts(weights@)),
{
    let mut out = String::from_str("<?xml version=\"1.0\" encoding=\"UTF-8\"?>\n");
    out.append("<gexf xmlns=\"http://www.gexf.net/1.2draft\" version=\"1.2\">\n");
    out.append("  <graph mode=\"static\" defaultedgetype=\"directed\">\n");
    out.append("    <nodes>\n");
    let ghost head = out@;
    let mut i: usize = 0;
    while i < graph.nodes.len()
        invariant
            i <= graph.nodes@.len(),
            out@ == head + gexf_nodes(graph.nodes@.take(i as int)),
        decreases graph.nodes@.len() - i,
    {
        let piece = gexf_node_text(&graph.nodes[i]);
        proof {
            assert(graph.nodes@.take(i as int + 1).drop_last() =~= graph.nodes@.take(i as int));
        }
        out.append(piece.as_str());
        i = i + 1;
    }
    proof {
        assert(graph.nodes@.take(i as int) =~= graph.nodes@);
    }
    out.append("    </nodes>\n");
    out.append("    <edges>\n");
    let ghost mid = out@;
    let ghost w = weight_texts(weights@);
    let mut j: usize = 0;
    while j < graph.edges.len()
        invariant
            j <= graph.edges@.len(),
            weights@.len() == graph.edges@.len(),
            w == weight_texts(weights@),
            out@ == mid + gexf_edges(graph.edges@.take(j as int), w),
        decreases graph.edges@.len() - j,
    {
        let piece = gexf_edge_text(&graph.edges[j], &weights[j]);
        proof {
            assert(graph.edges@.take(j as int + 1).drop_last() =~= graph.edges@.take(j as int));
        }
        out.append(piece.as_str());
        j = j + 1;
    }
    proof {
        assert(graph.edges@.take(j as int) =~= graph.edges@);
    }
    out.append("    </edges>\n");
    out.append("  </graph>\n");
    out.append("</gexf>\n");
    Ok(out)
}

/// The DOT document of `graph`.
pub fn export_dot(graph: &CorrelationGraph) -> (r: Result<String, crate::error::Error>)
    ensures
        r matches Ok(s) && s@ == dot_document(*graph),
{
    let mut out = String::from_str("digraph \"");
    out.append(escape_dot(graph.name.as_str()).as_str());
    out.append("\" {\n");
    out.append("  rankdir=TB;\n");
    out.append("  node [shape=box];\n");
    let ghost head = out@;
    let mut i: usize = 0;
    while i < graph.nodes.len()
        invariant
            i <= graph.nodes@.len(),
            out@ == head + dot_nodes(graph.nodes@.take(i as int)),
        decreases graph.nodes@.len() - i,
    {
        let piece = dot_node_text(&graph.nodes[i]);
        proof {
            assert(graph.nodes@.take(i as int + 1).drop_last() =~= graph.nodes@.take(i as int));
        }
        out.append(piece.as_str());
        i = i + 1;
    }
    proof {
        assert(graph.nodes@.take(i as int) =~= graph.nodes@);
    }
    let ghost mid = out@;
    let mut j: usize = 0;
    while j < graph.edges.len()
        invariant
            j <= graph.edges@.len(),
            out@ == mid + dot_edges(graph.edges@.take(j as int)),
        decreases graph.edges@.len() - j,
    {
        let piece = dot_edge_text(&graph.edges[j]);
        proof {
            assert(graph.edges@.take(j as int + 1).drop_last() =~= graph.edges@.take(j as int));
        }
        out.append(piece.as_str());
        j = j + 1;
    }
    proof {
        assert(graph.edges@.take(j as int) =~= graph.edges@);
    }
    out.append("}\n");
    Ok(out)
}

/// A node of the basic GraphML rendering: its id and label, unescaped.
pub open spec fn basic_graphml_node(n: GraphNode) -> Seq<char> {
    "    <node id=\""@ + n.id@ + "\" label=\""@ + n.label@ + "\">\n"@ + "    </node>\n"@
}

/// An edge of the basic GraphML rendering, with its weight text.
pub open spec fn basic_graphml_edge(e: GraphEdge, weight: Seq<char>) -> Seq<char> {
    "    <edge id=\""@ + e.id@ + "\" source=\""@ + e.source@ + "\" target=\""@ + e.target@ + "\" weight=\""@ + weight
        + "\">\n"@ + "    </edge>\n"@
}

/// The basic GraphML node elements, in order.
pub open spec fn basic_graphml_nodes(nodes: Seq<GraphNode>) -> Seq<char>
    decreases nodes.len(),
{
    if nodes.len() == 0 {
        Seq::empty()
    } else {
        basic_graphml_nodes(nodes.drop_last()) + basic_graphml_node(nodes.last())
    }
}

/// The basic GraphML edge elements, in order, the `i`-th with the `i`-th weight text.
pub open spec fn basic_graphml_edges(edges: Seq<GraphEdge>, weights: Seq<Seq<char>>) -> Seq<char>
    decreases edges.len(),
{
    if edges.len() == 0 {
        Seq::empty()
    } else {
        basic_graphml_edges(edges.drop_last(), weights) + basic_graphml_edge(edges.last(), weights[edges.len() - 1])
    }
}

/// The basic GraphML document of a graph: every node with its label, then
/// every edge with its weight.
pub open spec fn basic_graphml_document(g: CorrelationGraph, weights: Seq<Seq<char>>) -> Seq<char> {
    "<?xml version=\"1.0\" encoding=\"UTF-8\"?>\n"@ + "<graphml xmlns=\"http://graphml.graphdrawing.org/xmlns\">\n"@
        + "  <graph id=\"G\" edgedefault=\"directed\">\n"@ + basic_graphml_nodes(g.nodes@) + basic_graphml_edges(
        g.edges@,
        weights,
    ) + "  </graph>\n"@ + "</graphml>\n"@
}

impl CorrelationGraph {
    /// The graph as a basic GraphML document; `weights` holds the rendered
    /// weight of each edge, in order.
    pub fn to_graphml(&self, weights: &Vec<String>) -> (r: Result<String, crate::error::Error>)
        requires
            weights@.len() == self.edges@.len(),
        ensures
            r matches Ok(s) && s@ == basic_graphml_document(*self, weight_texts(weights@)),
    {
        let mut out = String::from_str("<?xml version=\"1.0\" encoding=\"UTF-8\"?>\n");
        out.append("<graphml xmlns=\"http://graphml.graphdrawing.org/xmlns\">\n");
        out.append("  <graph id=\"G\" edgedefault=\"directed\">\n");
        let ghost head = out@;
        let mut i: usize = 0;
        while i < self.nodes.len()
            invariant
                i <= self.nodes@.len(),
                out@ == head + basic_graphml_nodes(self.nodes@.take(i as int)),
            decreases self.nodes@.len() - i,
        {
            let n = &self.nodes[i];
            let piece = String::from_str("    <node id=\"").concat(n.id.as_str()).concat("\" label=\"").concat(
                n.label.as_str(),
            ).concat("\">\n").concat("    </node>\n");
            proof {
                assert(self.nodes@.take(i as int + 1).drop_last() =~= self.nodes@.take(i as int));
                assert(piece@ =~= basic_graphml_node(self.nodes@[i as int]));
            }
            out.append(piece.as_str());
            proof {
                assert(out@ =~= head + basic_graphml_nodes(self.nodes@.take(i as int + 1)));
            }
            i = i + 1;
        }
        proof {
            assert(self.nodes@.take(i as int) =~= self.nodes@);
        }
        let ghost mid = out@;
        let ghost w = weight_texts(weights@);
        let mut j: usize = 0;
        while j < self.edges.len()
            invariant
                j <= self.edges@.len(),
                weights@.len() == self.edges@.len(),
                w == weight_texts(weights@),
                out@ == mid + basic_graphml_edges(self.edges@.take(j as int), w),
            decreases self.edges@.len() - j,
        {
            let e = &self.edges[j];
            let piece = String::from_str("    <edge id=\"").concat(e.id.as_str()).concat("\" source=\"").concat(
                e.source.as_str(),
            ).concat("\" target=\"").concat(e.target.as_str()).concat("\" weight=\"").concat(weights[j].as_str()).concat(
                "\">\n",
            ).concat("    </edge>\n");
            proof {
                assert(self.edges@.take(j as int + 1).drop_last() =~= self.edges@.take(j as int));
                assert(w[j as int] == weights@[j as int]@);
                assert(piece@ =~= basic_graphml_edge(self.edges@[j as int], w[j as int]));
            }
            out.append(piece.as_str());
            proof {
                assert(out@ =~= mid + basic_graphml_edges(self.edges@.take(j as int + 1), w));
            }
            j = j + 1;
        }
        proof {
            assert(self.edges@.take(j as int) =~= self.edges@);
        }
        out.append("  </graph>\n");
        out.append("</graphml>\n");
        Ok(out)
    }
}

} // verus!
