//! Building correlation graphs from the files, functions and imports of a
//! code base.
//!
//! A builder first lays out, in order, the nodes and edges it will add, then
//! adds them one by one; the first refused addition ends the build with its
//! error.

use super::correlation_graph::{CorrelationGraph, GraphEdge, GraphNode, edge_ids, node_ids};
use super::{EdgeType, GraphBuilderCapabilities, GraphType, NodeType};
use crate::csv::{chars_of, white_space};
use crate::error::Error;
use crate::str_map::StrMap;
use vstd::prelude::*;
use vstd::string::StrSliceExecFns;

verus! {

/// One addition to a graph.
#[derive(Debug, Clone)]
pub enum GraphOp {
    AddNode(GraphNode),
    AddEdge(GraphEdge),
}

/// Why `op` is refused on a graph with these nodes and edges, if it is.
pub open spec fn op_error(nodes: Seq<GraphNode>, edges: Seq<GraphEdge>, op: GraphOp) -> Option<Seq<char>> {
    match op {
        GraphOp::AddNode(n) => if node_ids(nodes).contains(n.id@) {
            Some("Duplicate node ID: "@ + n.id@)
        } else {
            None
        },
        GraphOp::AddEdge(e) => if edge_ids(edges).contains(e.id@) {
            Some("Duplicate edge ID: "@ + e.id@)
        } else if !node_ids(nodes).contains(e.source@) {
            Some("Source node not found: "@ + e.source@)
        } else if !node_ids(nodes).contains(e.target@) {
            Some("Target node not found: "@ + e.target@)
        } else {
            None
        },
    }
}

/// Nodes and edges after `op` is accepted.
pub open spec fn op_apply(nodes: Seq<GraphNode>, edges: Seq<GraphEdge>, op: GraphOp) -> (Seq<GraphNode>, Seq<GraphEdge>) {
    match op {
        GraphOp::AddNode(n) => (nodes.push(n), edges),
        GraphOp::AddEdge(e) => (nodes, edges.push(e)),
    }
}

/// Nodes and edges after the ops in order, or the message of the first refusal.
pub open spec fn run_ops(nodes: Seq<GraphNode>, edges: Seq<GraphEdge>, ops: Seq<GraphOp>) -> Result<
    (Seq<GraphNode>, Seq<GraphEdge>),
    Seq<char>,
>
    decreases ops.len(),
{
    if ops.len() == 0 {
        Ok((nodes, edges))
    } else {
        match run_ops(nodes, edges, ops.drop_last()) {
            Err(m) => Err(m),
            Ok(state) => match op_error(state.0, state.1, ops.last()) {
                Some(m) => Err(m),
                None => Ok(op_apply(state.0, state.1, ops.last())),
            },
        }
    }
}

proof fn lemma_run_step(nodes: Seq<GraphNode>, edges: Seq<GraphEdge>, ops: Seq<GraphOp>, i: int)
    requires
        0 <= i < ops.len(),
    ensures
        run_ops(nodes, edges, ops.take(i + 1)) == match run_ops(nodes, edges, ops.take(i)) {
            Err(m) => Err(m),
            Ok(state) => match op_error(state.0, state.1, ops[i]) {
                Some(m) => Err(m),
                None => Ok(op_apply(state.0, state.1, ops[i])),
            },
        },
{
    assert(ops.take(i + 1).drop_last() =~= ops.take(i));
    assert(ops.take(i + 1).last() == ops[i]);
}

proof fn lemma_run_error_stays(nodes: Seq<GraphNode>, edges: Seq<GraphEdge>, ops: Seq<GraphOp>, j: int)
    requires
        0 <= j <= ops.len(),
        run_ops(nodes, edges, ops.take(j)) is Err,
    ensures
        run_ops(nodes, edges, ops) == run_ops(nodes, edges, ops.take(j)),
    decreases ops.len() - j,
{
    if j < ops.len() {
        lemma_run_step(nodes, edges, ops, j);
        lemma_run_error_stays(nodes, edges, ops, j + 1);
    } else {
        assert(ops.take(j) =~= ops);
    }
}

/// Apply the ops to `graph` in order, stopping at the first refusal.
pub(crate) fn apply_ops(graph: &mut CorrelationGraph, ops: Vec<GraphOp>) -> (r: Result<(), Error>)
    ensures
        final(graph).graph_type == old(graph).graph_type,
        final(graph).name == old(graph).name,
        final(graph).description == old(graph).description,
        match run_ops(old(graph).nodes@, old(graph).edges@, ops@) {
            Ok(state) => r is Ok && final(graph).nodes@ == state.0 && final(graph).edges@ == state.1,
            Err(m) => r matches Err(Error::GraphCorrelation(x)) && x@ == m,
        },
{
    let ghost all = ops@;
    let ghost n0 = graph.nodes@;
    let ghost e0 = graph.edges@;
    let total = ops.len();
    let mut rest = ops;
    let mut i: usize = 0;
    proof {
        assert(all.take(0) =~= Seq::<GraphOp>::empty());
    }
    while rest.len() > 0
        invariant
            i <= all.len(),
            rest@ == all.subrange(i as int, all.len() as int),
            run_ops(n0, e0, all.take(i as int)) == Ok::<(Seq<GraphNode>, Seq<GraphEdge>), Seq<char>>(
                (graph.nodes@, graph.edges@),
            ),
            graph.graph_type == old(graph).graph_type,
            graph.name == old(graph).name,
            graph.description == old(graph).description,
            n0 == old(graph).nodes@,
            e0 == old(graph).edges@,
            all == ops@,
            total == all.len(),
        decreases rest@.len(),
    {
        let op = rest.remove(0);
        proof {
            assert(op == all[i as int]);
            lemma_run_step(n0, e0, all, i as int);
        }
        match op {
            GraphOp::AddNode(node) => {
                let res = graph.add_node(node);
                if res.is_err() {
                    proof {
                        lemma_run_error_stays(n0, e0, all, i as int + 1);
                    }
                    return res;
                }
            },
            GraphOp::AddEdge(edge) => {
                let res = graph.add_edge(edge);
                if res.is_err() {
                    proof {
                        lemma_run_error_stays(n0, e0, all, i as int + 1);
                    }
                    return res;
                }
            },
        }
        i = i + 1;
        proof {
            assert(rest@ =~= all.subrange(i as int, all.len() as int));
        }
    }
    proof {
        assert(all.take(i as int) =~= all);
    }
    Ok(())
}

} // verus!

verus! {

/// The bit pattern of the `f32` value 1.0, the weight of plain edges.
pub const UNIT_WEIGHT_BITS: u32 = 0x3f80_0000u32;

/// What a node holds, as texts.
pub struct NodeView {
    pub id: Seq<char>,
    pub node_type: NodeType,
    pub label: Seq<char>,
    pub color: Option<Seq<char>>,
    pub metadata: Map<Seq<char>, Seq<char>>,
}

/// What an edge holds, as texts.
pub struct EdgeView {
    pub id: Seq<char>,
    pub source: Seq<char>,
    pub target: Seq<char>,
    pub edge_type: EdgeType,
    pub weight_bits: u32,
    pub label: Option<Seq<char>>,
    pub metadata: Map<Seq<char>, Seq<char>>,
}

/// One addition, as texts.
pub enum OpView {
    Node(NodeView),
    Edge(EdgeView),
}

/// An optional text.
pub open spec fn opt_text(o: Option<String>) -> Option<Seq<char>> {
    match o {
        Some(s) => Some(s@),
        None => None,
    }
}

/// A text-valued metadata map, as texts.
pub open spec fn meta_view(m: StrMap<String>) -> Map<Seq<char>, Seq<char>> {
    m.map().map_values(|s: String| s@)
}

/// A node as texts.
pub open spec fn node_view(n: GraphNode) -> NodeView {
    NodeView { id: n.id@, node_type: n.node_type, label: n.label@, color: opt_text(n.color), metadata: meta_view(n.metadata) }
}

/// An edge as texts.
pub open spec fn edge_view(e: GraphEdge) -> EdgeView {
    EdgeView {
        id: e.id@,
        source: e.source@,
        target: e.target@,
        edge_type: e.edge_type,
        weight_bits: e.weight_bits,
        label: opt_text(e.label),
        metadata: meta_view(e.metadata),
    }
}

/// An addition as texts.
pub open spec fn op_view(op: GraphOp) -> OpView {
    match op {
        GraphOp::AddNode(n) => OpView::Node(node_view(n)),
        GraphOp::AddEdge(e) => OpView::Edge(edge_view(e)),
    }
}

/// A list of additions as texts.
pub open spec fn ops_view(ops: Seq<GraphOp>) -> Seq<OpView> {
    ops.map_values(|op: GraphOp| op_view(op))
}

/// At most `limit` leading items of `s` (all of them without a limit).
pub open spec fn limited<A>(s: Seq<A>, limit: Option<nat>) -> Seq<A> {
    match limit {
        Some(m) => if s.len() <= m { s } else { s.take(m as int) },
        None => s,
    }
}

/// What is left of `limit` once `used` items are taken.
pub open spec fn remaining(limit: Option<nat>, used: nat) -> Option<nat> {
    match limit {
        Some(m) => Some(if used <= m { (m - used) as nat } else { 0 }),
        None => None,
    }
}

/// How a kind of graph draws the node of one file.
pub struct FileStyle {
    pub id_prefix: &'static str,
    pub label_prefix: &'static str,
    pub node_type: NodeType,
    pub color: Option<&'static str>,
    pub meta_kind: Option<&'static str>,
}

/// How a call graph draws functions and their containment edges.
pub struct CallStyle {
    pub color: Option<&'static str>,
    pub with_metadata: bool,
    pub edge_label: Option<&'static str>,
    pub weight_bits: u32,
}

/// How a dependency graph draws import edges.
pub struct ImportStyle {
    pub with_metadata: bool,
    pub edge_label: Option<&'static str>,
    pub weight_bits: u32,
}

/// An optional static text.
pub open spec fn opt_static(o: Option<&'static str>) -> Option<Seq<char>> {
    match o {
        Some(s) => Some(s@),
        None => None,
    }
}

/// Id of the node of file `path`.
pub open spec fn file_id(path: Seq<char>) -> Seq<char> {
    "file:"@ + path
}

/// Id of the node of function `f` of file `file`.
pub open spec fn function_id(file: Seq<char>, f: Seq<char>) -> Seq<char> {
    "func:"@ + file + ":"@ + f
}

/// Id of the edge between two nodes.
pub open spec fn link_id(source: Seq<char>, target: Seq<char>) -> Seq<char> {
    "edge:"@ + source + ":"@ + target
}

/// The node a style gives file `path`.
pub open spec fn file_node_view(style: FileStyle, path: Seq<char>) -> NodeView {
    NodeView {
        id: style.id_prefix@ + path,
        node_type: style.node_type,
        label: style.label_prefix@ + path,
        color: opt_static(style.color),
        metadata: match style.meta_kind {
            Some(kind) => Map::empty().insert("file_path"@, path).insert("node_type"@, kind@),
            None => Map::empty(),
        },
    }
}

/// The node a style gives function `f` of file `file`.
pub open spec fn function_node_view(style: CallStyle, file: Seq<char>, f: Seq<char>) -> NodeView {
    NodeView {
        id: function_id(file, f),
        node_type: NodeType::Function,
        label: f,
        color: opt_static(style.color),
        metadata: if style.with_metadata {
            Map::empty().insert("file_path"@, file).insert("function_name"@, f).insert("node_type"@, "function"@)
        } else {
            Map::empty()
        },
    }
}

/// The edge from file `file` to its function `f`.
pub open spec fn contains_edge_view(style: CallStyle, file: Seq<char>, f: Seq<char>) -> EdgeView {
    EdgeView {
        id: link_id(file_id(file), function_id(file, f)),
        source: file_id(file),
        target: function_id(file, f),
        edge_type: EdgeType::Uses,
        weight_bits: style.weight_bits,
        label: opt_static(style.edge_label),
        metadata: if style.with_metadata {
            Map::empty().insert("relationship"@, "contains"@)
        } else {
            Map::empty()
        },
    }
}

/// The edge recording that file `file` imports file `import`.
pub open spec fn import_edge_view(style: ImportStyle, file: Seq<char>, import: Seq<char>) -> EdgeView {
    EdgeView {
        id: link_id(file_id(file), file_id(import)),
        source: file_id(file),
        target: file_id(import),
        edge_type: EdgeType::Imports,
        weight_bits: style.weight_bits,
        label: opt_static(style.edge_label),
        metadata: if style.with_metadata {
            Map::empty().insert("relationship"@, "imports"@)
        } else {
            Map::empty()
        },
    }
}

/// Each (file, name) of a file-keyed list map, files in key order.
pub open spec fn keyed_pairs(keys: Seq<Seq<char>>, m: Map<Seq<char>, Vec<String>>) -> Seq<(Seq<char>, Seq<char>)>
    decreases keys.len(),
{
    if keys.len() == 0 {
        Seq::empty()
    } else {
        keyed_pairs(keys.drop_last(), m) + crate::graph_simple::texts(m[keys.last()]@).map_values(
            |f: Seq<char>| (keys.last(), f),
        )
    }
}

/// The additions for the files, in order.
pub open spec fn file_ops(style: FileStyle, files: Seq<Seq<char>>) -> Seq<OpView> {
    files.map_values(|p: Seq<char>| OpView::Node(file_node_view(style, p)))
}

/// The additions for the functions: each one's node, then its edge.
pub open spec fn function_ops(style: CallStyle, pairs: Seq<(Seq<char>, Seq<char>)>) -> Seq<OpView>
    decreases pairs.len(),
{
    if pairs.len() == 0 {
        Seq::empty()
    } else {
        let p = pairs.last();
        function_ops(style, pairs.drop_last()).push(OpView::Node(function_node_view(style, p.0, p.1))).push(
            OpView::Edge(contains_edge_view(style, p.0, p.1)),
        )
    }
}

/// The additions for the imports of known files, in order.
pub open spec fn import_ops(style: ImportStyle, pairs: Seq<(Seq<char>, Seq<char>)>, known: Set<Seq<char>>) -> Seq<OpView>
    decreases pairs.len(),
{
    if pairs.len() == 0 {
        Seq::empty()
    } else {
        let p = pairs.last();
        let rest = import_ops(style, pairs.drop_last(), known);
        if known.contains(p.1) {
            rest.push(OpView::Edge(import_edge_view(style, p.0, p.1)))
        } else {
            rest
        }
    }
}

} // verus!

verus! {

fn join2(a: &str, b: &str) -> (s: String)
    ensures
        s@ == a@ + b@,
{
    String::from_str(a).concat(b)
}

fn join4(a: &str, b: &str, c: &str, d: &str) -> (s: String)
    ensures
        s@ == a@ + b@ + c@ + d@,
{
    String::from_str(a).concat(b).concat(c).concat(d)
}

fn static_text(o: Option<&'static str>) -> (r: Option<String>)
    ensures
        opt_text(r) == opt_static(o),
{
    match o {
        Some(s) => Some(String::from_str(s)),
        None => None,
    }
}

/// The node `style` gives file `path`.
fn file_node(style: &FileStyle, path: &String) -> (n: GraphNode)
    ensures
        node_view(n) == file_node_view(*style, path@),
{
    let mut metadata: StrMap<String> = StrMap::new();
    match style.meta_kind {
        Some(kind) => {
            metadata.insert(String::from_str("file_path"), path.clone());
            metadata.insert(String::from_str("node_type"), String::from_str(kind));
        },
        None => {},
    }
    proof {
        assert(meta_view(metadata) =~= file_node_view(*style, path@).metadata);
    }
    GraphNode {
        id: join2(style.id_prefix, path.as_str()),
        node_type: style.node_type,
        label: join2(style.label_prefix, path.as_str()),
        metadata,
        color: static_text(style.color),
    }
}

/// The node `style` gives function `f` of file `file`.
fn function_node(style: &CallStyle, file: &String, f: &String) -> (n: GraphNode)
    ensures
        node_view(n) == function_node_view(*style, file@, f@),
{
    let mut metadata: StrMap<String> = StrMap::new();
    if style.with_metadata {
        metadata.insert(String::from_str("file_path"), file.clone());
        metadata.insert(String::from_str("function_name"), f.clone());
        metadata.insert(String::from_str("node_type"), String::from_str("function"));
    }
    proof {
        assert(meta_view(metadata) =~= function_node_view(*style, file@, f@).metadata);
    }
    GraphNode {
        id: join4("func:", file.as_str(), ":", f.as_str()),
        node_type: NodeType::Function,
        label: f.clone(),
        metadata,
        color: static_text(style.color),
    }
}

/// The edge from file `file` to its function `f`.
fn contains_edge(style: &CallStyle, file: &String, f: &String) -> (e: GraphEdge)
    ensures
        edge_view(e) == contains_edge_view(*style, file@, f@),
{
    let source = join2("file:", file.as_str());
    let target = join4("func:", file.as_str(), ":", f.as_str());
    let id = join4("edge:", source.as_str(), ":", target.as_str());
    let mut metadata: StrMap<String> = StrMap::new();
    if style.with_metadata {
        metadata.insert(String::from_str("relationship"), String::from_str("contains"));
    }
    proof {
        assert(meta_view(metadata) =~= contains_edge_view(*style, file@, f@).metadata);
    }
    GraphEdge {
        id,
        source,
        target,
        edge_type: EdgeType::Uses,
        weight_bits: style.weight_bits,
        metadata,
        label: static_text(style.edge_label),
    }
}

/// The edge recording that file `file` imports file `import`.
fn import_edge(style: &ImportStyle, file: &String, import: &String) -> (e: GraphEdge)
    ensures
        edge_view(e) == import_edge_view(*style, file@, import@),
{
    let source = join2("file:", file.as_str());
    let target = join2("file:", import.as_str());
    let id = join4("edge:", source.as_str(), ":", target.as_str());
    let mut metadata: StrMap<String> = StrMap::new();
    if style.with_metadata {
        metadata.insert(String::from_str("relationship"), String::from_str("imports"));
    }
    proof {
        assert(meta_view(metadata) =~= import_edge_view(*style, file@, import@).metadata);
    }
    GraphEdge {
        id,
        source,
        target,
        edge_type: EdgeType::Imports,
        weight_bits: style.weight_bits,
        metadata,
        label: static_text(style.edge_label),
    }
}

proof fn lemma_ops_view_push(ops: Seq<GraphOp>, op: GraphOp)
    ensures
        ops_view(ops.push(op)) =~= ops_view(ops).push(op_view(op)),
{
}

/// Append the nodes of the first `limit` files (all without a limit).
fn push_file_ops(ops: &mut Vec<GraphOp>, style: &FileStyle, files: &StrMap<String>, limit: Option<usize>) -> (count: usize)
    ensures
        ops_view(final(ops)@) == ops_view(old(ops)@) + file_ops(
            *style,
            limited(files.key_seq(), match limit { Some(m) => Some(m as nat), None => None }),
        ),
        count == limited(files.key_seq(), match limit { Some(m) => Some(m as nat), None => None }).len(),
{
    let ghost lim = match limit { Some(m) => Some(m as nat), None => None::<nat> };
    let ghost ks = files.key_seq();
    let n = files.len();
    let k = match limit {
        Some(m) => if n <= m { n } else { m },
        None => n,
    };
    proof {
        assert(limited(ks, lim) =~= ks.take(k as int));
    }
    let mut i: usize = 0;
    while i < k
        invariant
            k <= n,
            n == ks.len(),
            ks == files.key_seq(),
            i <= k,
            ops_view(ops@) == ops_view(old(ops)@) + file_ops(*style, ks.take(i as int)),
        decreases k - i,
    {
        let (path, _content) = files.entry_at(i);
        let node = file_node(style, path);
        let ghost before = ops@;
        ops.push(GraphOp::AddNode(node));
        proof {
            lemma_ops_view_push(before, GraphOp::AddNode(node));
            assert(ks.take(i as int + 1) =~= ks.take(i as int).push(path@));
            assert(file_ops(*style, ks.take(i as int + 1)) =~= file_ops(*style, ks.take(i as int)).push(
                OpView::Node(file_node_view(*style, path@)),
            ));
        }
        i = i + 1;
    }
    k
}

} // verus!

verus! {

proof fn lemma_limited_push<A>(s: Seq<A>, x: A, lim: Option<nat>)
    ensures
        limited(s.push(x), lim) == (match lim {
            Some(m) => if s.len() < m { limited(s, lim).push(x) } else { limited(s, lim) },
            None => s.push(x),
        }),
{
    match lim {
        Some(m) => {
            if s.len() < m {
            } else {
                assert(s.push(x).take(m as int) =~= s.take(m as int));
                if s.len() == m {
                    assert(s.take(m as int) =~= s);
                }
            }
        },
        None => {},
    }
}

proof fn lemma_function_ops_push(style: CallStyle, pairs: Seq<(Seq<char>, Seq<char>)>, p: (Seq<char>, Seq<char>))
    ensures
        function_ops(style, pairs.push(p)) == function_ops(style, pairs).push(
            OpView::Node(function_node_view(style, p.0, p.1)),
        ).push(OpView::Edge(contains_edge_view(style, p.0, p.1))),
{
    assert(pairs.push(p).drop_last() =~= pairs);
}

proof fn lemma_import_ops_push(
    style: ImportStyle,
    pairs: Seq<(Seq<char>, Seq<char>)>,
    p: (Seq<char>, Seq<char>),
    known: Set<Seq<char>>,
)
    ensures
        import_ops(style, pairs.push(p), known) == (if known.contains(p.1) {
            import_ops(style, pairs, known).push(OpView::Edge(import_edge_view(style, p.0, p.1)))
        } else {
            import_ops(style, pairs, known)
        }),
{
    assert(pairs.push(p).drop_last() =~= pairs);
}

proof fn lemma_keyed_pairs_step(keys: Seq<Seq<char>>, m: Map<Seq<char>, Vec<String>>, i: int)
    requires
        0 <= i < keys.len(),
    ensures
        keyed_pairs(keys.take(i + 1), m) == keyed_pairs(keys.take(i), m) + crate::graph_simple::texts(
            m[keys[i]]@,
        ).map_values(|f: Seq<char>| (keys[i], f)),
{
    assert(keys.take(i + 1).drop_last() =~= keys.take(i));
    assert(keys.take(i + 1).last() == keys[i]);
}

/// The (file, name) pairs of a file's list, up to `j`.
pub open spec fn row_pairs(key: Seq<char>, names: Seq<String>, j: int) -> Seq<(Seq<char>, Seq<char>)> {
    crate::graph_simple::texts(names).take(j).map_values(|f: Seq<char>| (key, f))
}

/// Append, for each function in order while fewer than `limit` were
/// appended, its node and the edge from its file.
fn push_function_ops(ops: &mut Vec<GraphOp>, style: &CallStyle, functions: &StrMap<Vec<String>>, limit: Option<usize>)
    ensures
        ops_view(final(ops)@) == ops_view(old(ops)@) + function_ops(
            *style,
            limited(
                keyed_pairs(functions.key_seq(), functions.map()),
                match limit { Some(m) => Some(m as nat), None => None },
            ),
        ),
{
    let ghost lim = match limit { Some(m) => Some(m as nat), None => None::<nat> };
    let ghost ks = functions.key_seq();
    let ghost fm = functions.map();
    let n = functions.len();
    let mut emitted: usize = 0;
    let mut i: usize = 0;
    proof {
        assert(ks.take(0) =~= Seq::<Seq<char>>::empty());
    }
    while i < n
        invariant
            n == ks.len(),
            ks == functions.key_seq(),
            fm == functions.map(),
            forall|k: Seq<char>| #[trigger] fm.contains_key(k) <==> ks.contains(k),
            i <= n,
            lim == (match limit { Some(m) => Some(m as nat), None => None::<nat> }),
            limit is Some ==> emitted == limited(keyed_pairs(ks.take(i as int), fm), lim).len(),
            ops_view(ops@) == ops_view(old(ops)@) + function_ops(*style, limited(keyed_pairs(ks.take(i as int), fm), lim)),
        decreases n - i,
    {
        let (file, names) = functions.entry_at(i);
        let ghost base = keyed_pairs(ks.take(i as int), fm);
        let mut j: usize = 0;
        while j < names.len()
            invariant
                i < n,
                n == ks.len(),
                j <= names@.len(),
                base == keyed_pairs(ks.take(i as int), fm),
                lim == (match limit { Some(m) => Some(m as nat), None => None::<nat> }),
                limit is Some ==> emitted == limited(base + row_pairs(file@, names@, j as int), lim).len(),
                ops_view(ops@) == ops_view(old(ops)@) + function_ops(
                    *style,
                    limited(base + row_pairs(file@, names@, j as int), lim),
                ),
            decreases names@.len() - j,
        {
            let f = &names[j];
            let ghost s = base + row_pairs(file@, names@, j as int);
            proof {
                assert(base + row_pairs(file@, names@, j as int + 1) =~= s.push((file@, f@)));
                lemma_limited_push(s, (file@, f@), lim);
                match lim {
                    Some(m) => {
                        if s.len() < m {
                        } else {
                            assert(limited(s, lim).len() == m);
                        }
                    },
                    None => {},
                }
            }
            let room = match limit {
                Some(m) => emitted < m,
                None => true,
            };
            if room {
                let ghost before = ops@;
                let node = function_node(style, file, f);
                let edge = contains_edge(style, file, f);
                ops.push(GraphOp::AddNode(node));
                proof {
                    lemma_ops_view_push(before, GraphOp::AddNode(node));
                }
                let ghost mid = ops@;
                ops.push(GraphOp::AddEdge(edge));
                proof {
                    lemma_ops_view_push(mid, GraphOp::AddEdge(edge));
                    lemma_function_ops_push(*style, limited(s, lim), (file@, f@));
                }
                if limit.is_some() {
                    emitted = emitted + 1;
                }
            }
            j = j + 1;
        }
        proof {
            assert(fm.contains_key(file@));
            assert(row_pairs(file@, names@, names@.len() as int) =~= crate::graph_simple::texts(fm[ks[i as int]]@).map_values(
                |f: Seq<char>| (ks[i as int], f),
            ));
            lemma_keyed_pairs_step(ks, fm, i as int);
        }
        i = i + 1;
    }
    proof {
        assert(ks.take(n as int) =~= ks);
    }
}

/// Append, for each import of a known file in order, the import edge.
fn push_import_ops(ops: &mut Vec<GraphOp>, style: &ImportStyle, imports: &StrMap<Vec<String>>, files: &StrMap<String>)
    ensures
        ops_view(final(ops)@) == ops_view(old(ops)@) + import_ops(
            *style,
            keyed_pairs(imports.key_seq(), imports.map()),
            files.map().dom(),
        ),
{
    let ghost ks = imports.key_seq();
    let ghost im = imports.map();
    let ghost known = files.map().dom();
    let n = imports.len();
    let mut i: usize = 0;
    proof {
        assert(ks.take(0) =~= Seq::<Seq<char>>::empty());
    }
    while i < n
        invariant
            n == ks.len(),
            ks == imports.key_seq(),
            im == imports.map(),
            known == files.map().dom(),
            forall|k: Seq<char>| #[trigger] im.contains_key(k) <==> ks.contains(k),
            i <= n,
            ops_view(ops@) == ops_view(old(ops)@) + import_ops(*style, keyed_pairs(ks.take(i as int), im), known),
        decreases n - i,
    {
        let (file, names) = imports.entry_at(i);
        let ghost base = keyed_pairs(ks.take(i as int), im);
        let mut j: usize = 0;
        while j < names.len()
            invariant
                i < n,
                n == ks.len(),
                j <= names@.len(),
                base == keyed_pairs(ks.take(i as int), im),
                known == files.map().dom(),
                ops_view(ops@) == ops_view(old(ops)@) + import_ops(*style, base + row_pairs(file@, names@, j as int), known),
            decreases names@.len() - j,
        {
            let target = &names[j];
            let ghost s = base + row_pairs(file@, names@, j as int);
            proof {
                assert(base + row_pairs(file@, names@, j as int + 1) =~= s.push((file@, target@)));
                lemma_import_ops_push(*style, s, (file@, target@), known);
            }
            if files.contains_key(target.as_str()) {
                let ghost before = ops@;
                let edge = import_edge(style, file, target);
                ops.push(GraphOp::AddEdge(edge));
                proof {
                    lemma_ops_view_push(before, GraphOp::AddEdge(edge));
                }
            }
            j = j + 1;
        }
        proof {
            assert(im.contains_key(file@));
            assert(row_pairs(file@, names@, names@.len() as int) =~= crate::graph_simple::texts(im[ks[i as int]]@).map_values(
                |f: Seq<char>| (ks[i as int], f),
            ));
            lemma_keyed_pairs_step(ks, im, i as int);
        }
        i = i + 1;
    }
    proof {
        assert(ks.take(n as int) =~= ks);
    }
}

} // verus!

verus! {

/// Ids of node views.
pub open spec fn view_node_ids(nodes: Seq<NodeView>) -> Seq<Seq<char>> {
    nodes.map_values(|n: NodeView| n.id)
}

/// Ids of edge views.
pub open spec fn view_edge_ids(edges: Seq<EdgeView>) -> Seq<Seq<char>> {
    edges.map_values(|e: EdgeView| e.id)
}

/// Why an addition is refused on a graph with these nodes and edges, if it is.
pub open spec fn view_error(nodes: Seq<NodeView>, edges: Seq<EdgeView>, op: OpView) -> Option<Seq<char>> {
    match op {
        OpView::Node(n) => if view_node_ids(nodes).contains(n.id) {
            Some("Duplicate node ID: "@ + n.id)
        } else {
            None
        },
        OpView::Edge(e) => if view_edge_ids(edges).contains(e.id) {
            Some("Duplicate edge ID: "@ + e.id)
        } else if !view_node_ids(nodes).contains(e.source) {
            Some("Source node not found: "@ + e.source)
        } else if !view_node_ids(nodes).contains(e.target) {
            Some("Target node not found: "@ + e.target)
        } else {
            None
        },
    }
}

/// Nodes and edges after an accepted addition.
pub open spec fn view_apply(nodes: Seq<NodeView>, edges: Seq<EdgeView>, op: OpView) -> (Seq<NodeView>, Seq<EdgeView>) {
    match op {
        OpView::Node(n) => (nodes.push(n), edges),
        OpView::Edge(e) => (nodes, edges.push(e)),
    }
}

/// Nodes and edges after the additions in order, or the message of the first refusal.
pub open spec fn run_views(nodes: Seq<NodeView>, edges: Seq<EdgeView>, ops: Seq<OpView>) -> Result<
    (Seq<NodeView>, Seq<EdgeView>),
    Seq<char>,
>
    decreases ops.len(),
{
    if ops.len() == 0 {
        Ok((nodes, edges))
    } else {
        match run_views(nodes, edges, ops.drop_last()) {
            Err(m) => Err(m),
            Ok(state) => match view_error(state.0, state.1, ops.last()) {
                Some(m) => Err(m),
                None => Ok(view_apply(state.0, state.1, ops.last())),
            },
        }
    }
}

/// Nodes as texts.
pub open spec fn nodes_view(s: Seq<GraphNode>) -> Seq<NodeView> {
    s.map_values(|n: GraphNode| node_view(n))
}

/// Edges as texts.
pub open spec fn edges_view(s: Seq<GraphEdge>) -> Seq<EdgeView> {
    s.map_values(|e: GraphEdge| edge_view(e))
}

/// The graph `r` is what the additions `ops` make of an empty graph of the
/// given type and name, or the error of the first refused addition.
pub open spec fn built_from(r: Result<CorrelationGraph, Error>, graph_type: GraphType, name: Seq<char>, ops: Seq<OpView>) -> bool {
    match run_views(Seq::empty(), Seq::empty(), ops) {
        Ok(state) => r matches Ok(g) && g.graph_type == graph_type && g.name@ == name && g.description is None
            && nodes_view(g.nodes@)
            == state.0 && edges_view(g.edges@) == state.1,
        Err(m) => r matches Err(Error::GraphCorrelation(x)) && x@ == m,
    }
}

pub(crate) proof fn lemma_run_views(n: Seq<GraphNode>, e: Seq<GraphEdge>, ops: Seq<GraphOp>)
    ensures
        match run_ops(n, e, ops) {
            Ok(st) => run_views(nodes_view(n), edges_view(e), ops_view(ops)) == Ok::<
                (Seq<NodeView>, Seq<EdgeView>),
                Seq<char>,
            >((nodes_view(st.0), edges_view(st.1))),
            Err(m) => run_views(nodes_view(n), edges_view(e), ops_view(ops)) == Err::<
                (Seq<NodeView>, Seq<EdgeView>),
                Seq<char>,
            >(m),
        },
    decreases ops.len(),
{
    if ops.len() > 0 {
        lemma_run_views(n, e, ops.drop_last());
        assert(ops_view(ops).drop_last() =~= ops_view(ops.drop_last()));
        assert(ops_view(ops).last() == op_view(ops.last()));
        match run_ops(n, e, ops.drop_last()) {
            Ok(st) => {
                assert(node_ids(st.0) =~= view_node_ids(nodes_view(st.0)));
                assert(edge_ids(st.1) =~= view_edge_ids(edges_view(st.1)));
                match ops.last() {
                    GraphOp::AddNode(x) => {
                        assert(nodes_view(st.0.push(x)) =~= nodes_view(st.0).push(node_view(x)));
                    },
                    GraphOp::AddEdge(x) => {
                        assert(edges_view(st.1.push(x)) =~= edges_view(st.1).push(edge_view(x)));
                    },
                }
            },
            Err(_) => {},
        }
    } else {
        assert(ops_view(ops) =~= Seq::<OpView>::empty());
    }
}

/// Build a graph of the given type and name from the additions.
pub(crate) fn build_graph(graph_type: GraphType, name: String, ops: Vec<GraphOp>) -> (r: Result<CorrelationGraph, Error>)
    ensures
        built_from(r, graph_type, name@, ops_view(ops@)),
{
    let mut graph = CorrelationGraph::new(graph_type, name);
    proof {
        assert(graph.nodes@ =~= Seq::<GraphNode>::empty());
        assert(graph.edges@ =~= Seq::<GraphEdge>::empty());
    }
    let ghost planned = ops@;
    let res = apply_ops(&mut graph, ops);
    proof {
        lemma_run_views(Seq::empty(), Seq::empty(), planned);
        assert(nodes_view(Seq::<GraphNode>::empty()) =~= Seq::<NodeView>::empty());
        assert(edges_view(Seq::<GraphEdge>::empty()) =~= Seq::<EdgeView>::empty());
    }
    match res {
        Ok(()) => Ok(graph),
        Err(e) => Err(e),
    }
}

} // verus!

verus! {

/// The files of a code base with their functions and imports, each keyed by
/// file path.
#[derive(Debug, Clone)]
pub struct GraphSourceData {
    /// File paths and their content
    pub files: StrMap<String>,
    /// Functions defined in each file
    pub functions: StrMap<Vec<String>>,
    /// Files imported by each file
    pub imports: StrMap<Vec<String>>,
}

impl GraphSourceData {
    /// Empty source data.
    pub fn new() -> (d: Self)
        ensures
            d.files.map() == Map::<Seq<char>, String>::empty(),
            d.functions.map() == Map::<Seq<char>, Vec<String>>::empty(),
            d.imports.map() == Map::<Seq<char>, Vec<String>>::empty(),
            d.files.key_seq() == Seq::<Seq<char>>::empty(),
            d.functions.key_seq() == Seq::<Seq<char>>::empty(),
            d.imports.key_seq() == Seq::<Seq<char>>::empty(),
    {
        GraphSourceData { files: StrMap::new(), functions: StrMap::new(), imports: StrMap::new() }
    }

    /// Add a file with its content, replacing any earlier content.
    pub fn add_file(&mut self, path: String, content: String)
        ensures
            final(self).files.map() == old(self).files.map().insert(path@, content),
            old(self).files.map().contains_key(path@) ==> final(self).files.key_seq() == old(self).files.key_seq(),
            !old(self).files.map().contains_key(path@) ==> final(self).files.key_seq() == old(self).files.key_seq().push(
                path@,
            ),
            final(self).functions == old(self).functions,
            final(self).imports == old(self).imports,
    {
        self.files.insert(path, content);
    }

    /// Set the functions of a file.
    pub fn add_functions(&mut self, file: String, functions: Vec<String>)
        ensures
            final(self).functions.map() == old(self).functions.map().insert(file@, functions),
            old(self).functions.map().contains_key(file@) ==> final(self).functions.key_seq() == old(self).functions.key_seq(),
            !old(self).functions.map().contains_key(file@) ==> final(self).functions.key_seq() == old(self).functions.key_seq().push(
                file@,
            ),
            final(self).files == old(self).files,
            final(self).imports == old(self).imports,
    {
        self.functions.insert(file, functions);
    }

    /// Set the imports of a file.
    pub fn add_imports(&mut self, file: String, imports: Vec<String>)
        ensures
            final(self).imports.map() == old(self).imports.map().insert(file@, imports),
            old(self).imports.map().contains_key(file@) ==> final(self).imports.key_seq() == old(self).imports.key_seq(),
            !old(self).imports.map().contains_key(file@) ==> final(self).imports.key_seq() == old(self).imports.key_seq().push(
                file@,
            ),
            final(self).files == old(self).files,
            final(self).functions == old(self).functions,
    {
        self.imports.insert(file, imports);
    }
}

impl Default for GraphSourceData {
    fn default() -> (d: Self)
        ensures
            d.files.map() == Map::<Seq<char>, String>::empty(),
            d.functions.map() == Map::<Seq<char>, Vec<String>>::empty(),
            d.imports.map() == Map::<Seq<char>, Vec<String>>::empty(),
            d.files.key_seq() == Seq::<Seq<char>>::empty(),
            d.functions.key_seq() == Seq::<Seq<char>>::empty(),
            d.imports.key_seq() == Seq::<Seq<char>>::empty(),
    {
        GraphSourceData::new()
    }
}

/// Settings of the default builder; sizes and weights are `f32` bit patterns.
#[derive(Debug, Clone)]
pub struct GraphBuilderConfig {
    pub max_nodes: Option<usize>,
    pub max_depth: Option<usize>,
    pub include_metadata: bool,
    pub calculate_positions: bool,
    pub default_node_size_bits: u32,
    pub default_edge_weight_bits: u32,
    pub parallel_processing: bool,
    pub enable_caching: bool,
    pub cache_ttl_seconds: u64,
    pub validate_integrity: bool,
    pub performance_mode: bool,
}

impl Default for GraphBuilderConfig {
    fn default() -> (c: Self)
        ensures
            c.max_nodes == Some(1000usize),
            c.max_depth == Some(10usize),
            c.include_metadata,
            c.calculate_positions,
            c.default_node_size_bits == UNIT_WEIGHT_BITS,
            c.default_edge_weight_bits == UNIT_WEIGHT_BITS,
            c.parallel_processing,
            c.enable_caching,
            c.cache_ttl_seconds == 3600,
            c.validate_integrity,
            !c.performance_mode,
    {
        GraphBuilderConfig {
            max_nodes: Some(1000),
            max_depth: Some(10),
            include_metadata: true,
            calculate_positions: true,
            default_node_size_bits: UNIT_WEIGHT_BITS,
            default_edge_weight_bits: UNIT_WEIGHT_BITS,
            parallel_processing: true,
            enable_caching: true,
            cache_ttl_seconds: 3600,
            validate_integrity: true,
            performance_mode: false,
        }
    }
}

/// File nodes of the single-purpose builders.
pub open spec fn plain_file_style() -> FileStyle {
    FileStyle { id_prefix: "file:", label_prefix: "", node_type: NodeType::Module, color: None, meta_kind: None }
}

/// Function nodes and edges of the call graph builder.
pub open spec fn plain_call_style() -> CallStyle {
    CallStyle { color: None, with_metadata: false, edge_label: None, weight_bits: UNIT_WEIGHT_BITS }
}

/// Import edges of the dependency graph builder.
pub open spec fn plain_import_style() -> ImportStyle {
    ImportStyle { with_metadata: false, edge_label: None, weight_bits: UNIT_WEIGHT_BITS }
}

/// The additions of a call graph: every file, then every function with its edge.
pub open spec fn plain_call_ops(data: GraphSourceData) -> Seq<OpView> {
    file_ops(plain_file_style(), data.files.key_seq()) + function_ops(
        plain_call_style(),
        keyed_pairs(data.functions.key_seq(), data.functions.map()),
    )
}

/// The additions of a dependency graph: every file, then every import of a known file.
pub open spec fn plain_dependency_ops(data: GraphSourceData) -> Seq<OpView> {
    file_ops(plain_file_style(), data.files.key_seq()) + import_ops(
        plain_import_style(),
        keyed_pairs(data.imports.key_seq(), data.imports.map()),
        data.files.map().dom(),
    )
}

/// The capabilities of a builder of one kind of graph.
pub open spec fn single_capabilities(call: bool, dependency: bool) -> GraphBuilderCapabilities {
    GraphBuilderCapabilities {
        supports_call_graphs: call,
        supports_dependency_graphs: dependency,
        supports_data_flow_graphs: false,
        supports_component_graphs: false,
        supports_async: true,
        supports_parallel: false,
        supports_caching: false,
        supports_validation: true,
    }
}

fn unsupported(text: &str) -> (r: Result<CorrelationGraph, Error>)
    ensures
        r matches Err(Error::GraphCorrelation(m)) && m@ == text@,
{
    Err(Error::GraphCorrelation(String::from_str(text)))
}

/// The check every builder makes of source data: at least one file.
fn require_files(data: &GraphSourceData) -> (r: Result<(), Error>)
    ensures
        data.files.map().dom().len() == 0 ==> (r matches Err(Error::GraphCorrelation(m)) && m@
            == "No source files provided"@),
        data.files.map().dom().len() != 0 ==> r is Ok,
{
    if data.files.len() == 0 {
        Err(Error::GraphCorrelation(String::from_str("No source files provided")))
    } else {
        Ok(())
    }
}

/// Builds call graphs: a node per file and per function, and an edge from
/// each file to each of its functions.
pub struct CallGraphBuilder {
    name: String,
}

impl CallGraphBuilder {
    /// The builder's name, which names the graphs it builds.
    pub closed spec fn name_view(&self) -> Seq<char> {
        self.name@
    }

    /// A call graph builder with the given name.
    pub fn new(name: String) -> (b: Self)
        ensures
            b.name_view() == name@,
    {
        CallGraphBuilder { name }
    }

    /// Build the call graph of `source_data`.
    pub fn build(&self, source_data: &GraphSourceData) -> (r: Result<CorrelationGraph, Error>)
        ensures
            built_from(r, GraphType::Call, self.name_view(), plain_call_ops(*source_data)),
    {
        let files_style = FileStyle {
            id_prefix: "file:",
            label_prefix: "",
            node_type: NodeType::Module,
            color: None,
            meta_kind: None,
        };
        let call_style = CallStyle { color: None, with_metadata: false, edge_label: None, weight_bits: UNIT_WEIGHT_BITS };
        let mut ops: Vec<GraphOp> = Vec::new();
        proof {
            assert(ops_view(ops@) =~= Seq::<OpView>::empty());
        }
        push_file_ops(&mut ops, &files_style, &source_data.files, None);
        push_function_ops(&mut ops, &call_style, &source_data.functions, None);
        proof {
            assert(ops_view(ops@) =~= plain_call_ops(*source_data));
        }
        build_graph(GraphType::Call, self.name.clone(), ops)
    }

    /// Build the call graph of `data`.
    pub fn build_call_graph(&self, data: &GraphSourceData) -> (r: Result<CorrelationGraph, Error>)
        ensures
            built_from(r, GraphType::Call, self.name_view(), plain_call_ops(*data)),
    {
        self.build(data)
    }

    /// Refused: this builder makes call graphs only.
    pub fn build_dependency_graph(&self, _data: &GraphSourceData) -> (r: Result<CorrelationGraph, Error>)
        ensures
            r matches Err(Error::GraphCorrelation(m)) && m@ == "CallGraphBuilder does not support dependency graphs"@,
    {
        unsupported("CallGraphBuilder does not support dependency graphs")
    }

    /// Refused: this builder makes call graphs only.
    pub fn build_data_flow_graph(&self, _data: &GraphSourceData) -> (r: Result<CorrelationGraph, Error>)
        ensures
            r matches Err(Error::GraphCorrelation(m)) && m@ == "CallGraphBuilder does not support data flow graphs"@,
    {
        unsupported("CallGraphBuilder does not support data flow graphs")
    }

    /// Refused: this builder makes call graphs only.
    pub fn build_component_graph(&self, _data: &GraphSourceData) -> (r: Result<CorrelationGraph, Error>)
        ensures
            r matches Err(Error::GraphCorrelation(m)) && m@ == "CallGraphBuilder does not support component graphs"@,
    {
        unsupported("CallGraphBuilder does not support component graphs")
    }

    /// The kind of graph built.
    pub fn graph_type(&self) -> (t: GraphType)
        ensures
            t == GraphType::Call,
    {
        GraphType::Call
    }

    /// The builder's name.
    pub fn name(&self) -> (s: &str)
        ensures
            s@ == self.name_view(),
    {
        self.name.as_str()
    }

    /// What the builder supports.
    pub fn capabilities(&self) -> (c: GraphBuilderCapabilities)
        ensures
            c == single_capabilities(true, false),
    {
        GraphBuilderCapabilities {
            supports_call_graphs: true,
            supports_dependency_graphs: false,
            supports_data_flow_graphs: false,
            supports_component_graphs: false,
            supports_async: true,
            supports_parallel: false,
            supports_caching: false,
            supports_validation: true,
        }
    }

    /// Source data must name at least one file.
    pub fn validate_source_data(&self, data: &GraphSourceData) -> (r: Result<(), Error>)
        ensures
            data.files.map().dom().len() == 0 ==> (r matches Err(Error::GraphCorrelation(m)) && m@
                == "No source files provided"@),
            data.files.map().dom().len() != 0 ==> r is Ok,
    {
        require_files(data)
    }

    /// This builder has no configuration.
    pub fn config(&self) -> (c: Option<&GraphBuilderConfig>)
        ensures
            c is None,
    {
        None
    }
}

/// Builds dependency graphs: a node per file and an edge for each import of
/// a known file.
pub struct DependencyGraphBuilder {
    name: String,
}

impl DependencyGraphBuilder {
    /// The builder's name, which names the graphs it builds.
    pub closed spec fn name_view(&self) -> Seq<char> {
        self.name@
    }

    /// A dependency graph builder with the given name.
    pub fn new(name: String) -> (b: Self)
        ensures
            b.name_view() == name@,
    {
        DependencyGraphBuilder { name }
    }

    /// Build the dependency graph of `source_data`.
    pub fn build(&self, source_data: &GraphSourceData) -> (r: Result<CorrelationGraph, Error>)
        ensures
            built_from(r, GraphType::Dependency, self.name_view(), plain_dependency_ops(*source_data)),
    {
        let files_style = FileStyle {
            id_prefix: "file:",
            label_prefix: "",
            node_type: NodeType::Module,
            color: None,
            meta_kind: None,
        };
        let import_style = ImportStyle { with_metadata: false, edge_label: None, weight_bits: UNIT_WEIGHT_BITS };
        let mut ops: Vec<GraphOp> = Vec::new();
        proof {
            assert(ops_view(ops@) =~= Seq::<OpView>::empty());
        }
        push_file_ops(&mut ops, &files_style, &source_data.files, None);
        push_import_ops(&mut ops, &import_style, &source_data.imports, &source_data.files);
        proof {
            assert(ops_view(ops@) =~= plain_dependency_ops(*source_data));
        }
        build_graph(GraphType::Dependency, self.name.clone(), ops)
    }

    /// Refused: this builder makes dependency graphs only.
    pub fn build_call_graph(&self, _data: &GraphSourceData) -> (r: Result<CorrelationGraph, Error>)
        ensures
            r matches Err(Error::GraphCorrelation(m)) && m@ == "DependencyGraphBuilder does not support call graphs"@,
    {
        unsupported("DependencyGraphBuilder does not support call graphs")
    }

    /// Build the dependency graph of `data`.
    pub fn build_dependency_graph(&self, data: &GraphSourceData) -> (r: Result<CorrelationGraph, Error>)
        ensures
            built_from(r, GraphType::Dependency, self.name_view(), plain_dependency_ops(*data)),
    {
        self.build(data)
    }

    /// Refused: this builder makes dependency graphs only.
    pub fn build_data_flow_graph(&self, _data: &GraphSourceData) -> (r: Result<CorrelationGraph, Error>)
        ensures
            r matches Err(Error::GraphCorrelation(m)) && m@ == "DependencyGraphBuilder does not support data flow graphs"@,
    {
        unsupported("DependencyGraphBuilder does not support data flow graphs")
    }

    /// Refused: this builder makes dependency graphs only.
    pub fn build_component_graph(&self, _data: &GraphSourceData) -> (r: Result<CorrelationGraph, Error>)
        ensures
            r matches Err(Error::GraphCorrelation(m)) && m@ == "DependencyGraphBuilder does not support component graphs"@,
    {
        unsupported("DependencyGraphBuilder does not support component graphs")
    }

    /// The kind of graph built.
    pub fn graph_type(&self) -> (t: GraphType)
        ensures
            t == GraphType::Dependency,
    {
        GraphType::Dependency
    }

    /// The builder's name.
    pub fn name(&self) -> (s: &str)
        ensures
            s@ == self.name_view(),
    {
        self.name.as_str()
    }

    /// What the builder supports.
    pub fn capabilities(&self) -> (c: GraphBuilderCapabilities)
        ensures
            c == single_capabilities(false, true),
    {
        GraphBuilderCapabilities {
            supports_call_graphs: false,
            supports_dependency_graphs: true,
            supports_data_flow_graphs: false,
            supports_component_graphs: false,
            supports_async: true,
            supports_parallel: false,
            supports_caching: false,
            supports_validation: true,
        }
    }

    /// Source data must name at least one file.
    pub fn validate_source_data(&self, data: &GraphSourceData) -> (r: Result<(), Error>)
        ensures
            data.files.map().dom().len() == 0 ==> (r matches Err(Error::GraphCorrelation(m)) && m@
                == "No source files provided"@),
            data.files.map().dom().len() != 0 ==> r is Ok,
    {
        require_files(data)
    }

    /// This builder has no configuration.
    pub fn config(&self) -> (c: Option<&GraphBuilderConfig>)
        ensures
            c is None,
    {
        None
    }
}

} // verus!

verus! {

/// A limit as a natural number.
pub open spec fn nat_limit(l: Option<usize>) -> Option<nat> {
    match l {
        Some(m) => Some(m as nat),
        None => None,
    }
}

/// What to call a file's metadata kind when metadata is on.
pub open spec fn kind_if(on: bool, kind: &'static str) -> Option<&'static str> {
    if on {
        Some(kind)
    } else {
        None
    }
}

/// File nodes of a graph of the default builder.
pub open spec fn default_file_style(
    c: GraphBuilderConfig,
    id_prefix: &'static str,
    label_prefix: &'static str,
    node_type: NodeType,
    color: &'static str,
    kind: &'static str,
) -> FileStyle {
    FileStyle { id_prefix, label_prefix, node_type, color: Some(color), meta_kind: kind_if(c.include_metadata, kind) }
}

/// Function nodes and edges of the default builder's call graph.
pub open spec fn default_call_style(c: GraphBuilderConfig) -> CallStyle {
    CallStyle {
        color: Some("#e74c3c"),
        with_metadata: c.include_metadata,
        edge_label: Some("contains"),
        weight_bits: c.default_edge_weight_bits,
    }
}

/// Import edges of the default builder's dependency graph.
pub open spec fn default_import_style(c: GraphBuilderConfig) -> ImportStyle {
    ImportStyle { with_metadata: c.include_metadata, edge_label: Some("imports"), weight_bits: c.default_edge_weight_bits }
}

/// The additions of the default builder's call graph: files, then functions
/// with their edges, while there are fewer nodes than the limit.
pub open spec fn default_call_ops(c: GraphBuilderConfig, data: GraphSourceData) -> Seq<OpView> {
    let files = limited(data.files.key_seq(), nat_limit(c.max_nodes));
    file_ops(default_file_style(c, "file:", "", NodeType::Module, "#3498db", "file"), files) + function_ops(
        default_call_style(c),
        limited(
            keyed_pairs(data.functions.key_seq(), data.functions.map()),
            remaining(nat_limit(c.max_nodes), files.len()),
        ),
    )
}

/// The additions of the default builder's dependency graph.
pub open spec fn default_dependency_ops(c: GraphBuilderConfig, data: GraphSourceData) -> Seq<OpView> {
    file_ops(
        default_file_style(c, "file:", "", NodeType::Module, "#2ecc71", "file"),
        limited(data.files.key_seq(), nat_limit(c.max_nodes)),
    ) + import_ops(
        default_import_style(c),
        keyed_pairs(data.imports.key_seq(), data.imports.map()),
        data.files.map().dom(),
    )
}

/// Number of names listed under the given keys.
pub open spec fn listed_count(keys: Seq<Seq<char>>, m: Map<Seq<char>, Vec<String>>) -> nat
    decreases keys.len(),
{
    if keys.len() == 0 {
        0
    } else {
        listed_count(keys.drop_last(), m) + m[keys.last()]@.len()
    }
}

/// Nodes the source data could give: one per file and one per function.
pub open spec fn potential_nodes(data: GraphSourceData) -> nat {
    data.files.key_seq().len() + listed_count(data.functions.key_seq(), data.functions.map())
}

/// The characters with Unicode's White_Space property, the white space of
/// `char::is_whitespace` and `str::trim`.
pub open spec fn is_white_space(c: char) -> bool {
    let u = c as u32;
    ||| 0x9 <= u <= 0xd
    ||| u == 0x20
    ||| u == 0x85
    ||| u == 0xa0
    ||| u == 0x1680
    ||| 0x2000 <= u <= 0x200a
    ||| u == 0x2028
    ||| u == 0x2029
    ||| u == 0x202f
    ||| u == 0x205f
    ||| u == 0x3000
}

/// A text with its leading white space removed.
pub open spec fn trim_start_ws(s: Seq<char>) -> Seq<char>
    decreases s.len(),
{
    if s.len() > 0 && is_white_space(s[0]) {
        trim_start_ws(s.drop_first())
    } else {
        s
    }
}

/// A text with its trailing white space removed.
pub open spec fn trim_end_ws(s: Seq<char>) -> Seq<char>
    decreases s.len(),
{
    if s.len() > 0 && is_white_space(s.last()) {
        trim_end_ws(s.drop_last())
    } else {
        s
    }
}

/// A text with white space at both ends removed.
pub open spec fn trim_whitespace(s: Seq<char>) -> Seq<char> {
    trim_end_ws(trim_start_ws(s))
}

/// `s` without its leading and trailing white space, as `str::trim` gives
/// it.
fn trim_text(s: &str) -> (r: &str)
    ensures
        r@ == trim_whitespace(s@),
{
    let cs = chars_of(s);
    let n = cs.len();
    let mut start: usize = 0;
    assert(cs@.subrange(0, n as int) =~= cs@);
    while start < n && white_space(cs[start])
        invariant
            start <= n,
            n == cs@.len(),
            trim_start_ws(cs@) == trim_start_ws(cs@.subrange(start as int, n as int)),
        decreases n - start,
    {
        assert(cs@.subrange(start as int, n as int).drop_first() =~= cs@.subrange(start + 1, n as int));
        start = start + 1;
    }
    proof {
        if start == n {
            assert(cs@.subrange(start as int, n as int) =~= Seq::<char>::empty());
        } else {
            assert(cs@.subrange(start as int, n as int)[0] == cs@[start as int]);
        }
    }
    let mut end: usize = n;
    while end > start && white_space(cs[end - 1])
        invariant
            start <= end <= n,
            n == cs@.len(),
            trim_start_ws(cs@) == cs@.subrange(start as int, n as int),
            trim_end_ws(cs@.subrange(start as int, n as int)) == trim_end_ws(cs@.subrange(start as int, end as int)),
        decreases end - start,
    {
        assert(cs@.subrange(start as int, end as int).drop_last() =~= cs@.subrange(start as int, end - 1));
        end = end - 1;
    }
    proof {
        if end == start {
            assert(cs@.subrange(start as int, end as int) =~= Seq::<char>::empty());
        } else {
            assert(cs@.subrange(start as int, end as int).last() == cs@[end - 1]);
        }
    }
    s.substring_char(start, end)
}

/// Builds every kind of correlation graph, within the limits of its configuration.
pub struct DefaultGraphBuilder {
    name: String,
    config: GraphBuilderConfig,
}

impl DefaultGraphBuilder {
    /// The builder's name.
    pub closed spec fn name_view(&self) -> Seq<char> {
        self.name@
    }

    /// The builder's configuration.
    pub closed spec fn config_view(&self) -> GraphBuilderConfig {
        self.config
    }

    /// A builder with the default configuration.
    pub fn new(name: String) -> (b: Self)
        ensures
            b.name_view() == name@,
            b.config_view().max_nodes == Some(1000usize),
            b.config_view().include_metadata,
            b.config_view().default_edge_weight_bits == UNIT_WEIGHT_BITS,
            b.config_view().default_node_size_bits == UNIT_WEIGHT_BITS,
            b.config_view().parallel_processing && b.config_view().enable_caching && b.config_view().validate_integrity,
    {
        DefaultGraphBuilder { name, config: GraphBuilderConfig::default() }
    }

    /// A builder with the given configuration.
    pub fn with_config(name: String, config: GraphBuilderConfig) -> (b: Self)
        ensures
            b.name_view() == name@,
            b.config_view() == config,
    {
        DefaultGraphBuilder { name, config }
    }

    /// The configuration.
    pub fn config(&self) -> (c: &GraphBuilderConfig)
        ensures
            *c == self.config_view(),
    {
        &self.config
    }

    /// Replace the configuration.
    pub fn set_config(&mut self, config: GraphBuilderConfig)
        ensures
            final(self).config_view() == config,
            final(self).name_view() == old(self).name_view(),
    {
        self.config = config;
    }

    /// The call graph of `source_data`, named after the builder.
    pub fn build_call_graph(&self, source_data: &GraphSourceData) -> (r: Result<CorrelationGraph, Error>)
        ensures
            built_from(r, GraphType::Call, self.name_view() + " - Call Graph"@, default_call_ops(self.config_view(), *source_data)),
    {
        let md = self.config.include_metadata;
        let files_style = FileStyle {
            id_prefix: "file:",
            label_prefix: "",
            node_type: NodeType::Module,
            color: Some("#3498db"),
            meta_kind: if md { Some("file") } else { None },
        };
        let call_style = CallStyle {
            color: Some("#e74c3c"),
            with_metadata: md,
            edge_label: Some("contains"),
            weight_bits: self.config.default_edge_weight_bits,
        };
        let mut ops: Vec<GraphOp> = Vec::new();
        proof {
            assert(ops_view(ops@) =~= Seq::<OpView>::empty());
        }
        let limit = self.config.max_nodes;
        let count = push_file_ops(&mut ops, &files_style, &source_data.files, limit);
        let rest = match limit {
            Some(m) => Some(m - count),
            None => None,
        };
        proof {
            assert(nat_limit(rest) == remaining(nat_limit(limit), count as nat));
        }
        push_function_ops(&mut ops, &call_style, &source_data.functions, rest);
        proof {
            assert(ops_view(ops@) =~= default_call_ops(self.config_view(), *source_data));
        }
        build_graph(GraphType::Call, join2(self.name.as_str(), " - Call Graph"), ops)
    }

    /// The dependency graph of `source_data`, named after the builder.
    pub fn build_dependency_graph(&self, source_data: &GraphSourceData) -> (r: Result<CorrelationGraph, Error>)
        ensures
            built_from(
                r,
                GraphType::Dependency,
                self.name_view() + " - Dependency Graph"@,
                default_dependency_ops(self.config_view(), *source_data),
            ),
    {
        let md = self.config.include_metadata;
        let files_style = FileStyle {
            id_prefix: "file:",
            label_prefix: "",
            node_type: NodeType::Module,
            color: Some("#2ecc71"),
            meta_kind: if md { Some("file") } else { None },
        };
        let import_style = ImportStyle {
            with_metadata: md,
            edge_label: Some("imports"),
            weight_bits: self.config.default_edge_weight_bits,
        };
        let mut ops: Vec<GraphOp> = Vec::new();
        proof {
            assert(ops_view(ops@) =~= Seq::<OpView>::empty());
        }
        push_file_ops(&mut ops, &files_style, &source_data.files, self.config.max_nodes);
        push_import_ops(&mut ops, &import_style, &source_data.imports, &source_data.files);
        proof {
            assert(ops_view(ops@) =~= default_dependency_ops(self.config_view(), *source_data));
        }
        build_graph(GraphType::Dependency, join2(self.name.as_str(), " - Dependency Graph"), ops)
    }

    /// The data flow graph of `source_data`: a data source node per file.
    pub fn build_data_flow_graph(&self, source_data: &GraphSourceData) -> (r: Result<CorrelationGraph, Error>)
        ensures
            built_from(
                r,
                GraphType::DataFlow,
                self.name_view() + " - Data Flow Graph"@,
                file_ops(
                    default_file_style(self.config_view(), "data:", "Data from ", NodeType::Variable, "#f39c12", "data_source"),
                    limited(source_data.files.key_seq(), nat_limit(self.config_view().max_nodes)),
                ),
            ),
    {
        let files_style = FileStyle {
            id_prefix: "data:",
            label_prefix: "Data from ",
            node_type: NodeType::Variable,
            color: Some("#f39c12"),
            meta_kind: if self.config.include_metadata { Some("data_source") } else { None },
        };
        let mut ops: Vec<GraphOp> = Vec::new();
        proof {
            assert(ops_view(ops@) =~= Seq::<OpView>::empty());
        }
        push_file_ops(&mut ops, &files_style, &source_data.files, self.config.max_nodes);
        proof {
            assert(ops_view(ops@) =~= file_ops(
                default_file_style(self.config_view(), "data:", "Data from ", NodeType::Variable, "#f39c12", "data_source"),
                limited(source_data.files.key_seq(), nat_limit(self.config_view().max_nodes)),
            ));
        }
        build_graph(GraphType::DataFlow, join2(self.name.as_str(), " - Data Flow Graph"), ops)
    }

    /// The component graph of `source_data`: a component node per file.
    pub fn build_component_graph(&self, source_data: &GraphSourceData) -> (r: Result<CorrelationGraph, Error>)
        ensures
            built_from(
                r,
                GraphType::Component,
                self.name_view() + " - Component Graph"@,
                file_ops(
                    default_file_style(self.config_view(), "component:", "Component ", NodeType::Class, "#9b59b6", "component"),
                    limited(source_data.files.key_seq(), nat_limit(self.config_view().max_nodes)),
                ),
            ),
    {
        let files_style = FileStyle {
            id_prefix: "component:",
            label_prefix: "Component ",
            node_type: NodeType::Class,
            color: Some("#9b59b6"),
            meta_kind: if self.config.include_metadata { Some("component") } else { None },
        };
        let mut ops: Vec<GraphOp> = Vec::new();
        proof {
            assert(ops_view(ops@) =~= Seq::<OpView>::empty());
        }
        push_file_ops(&mut ops, &files_style, &source_data.files, self.config.max_nodes);
        proof {
            assert(ops_view(ops@) =~= file_ops(
                default_file_style(self.config_view(), "component:", "Component ", NodeType::Class, "#9b59b6", "component"),
                limited(source_data.files.key_seq(), nat_limit(self.config_view().max_nodes)),
            ));
        }
        build_graph(GraphType::Component, join2(self.name.as_str(), " - Component Graph"), ops)
    }

    /// The default build: the call graph.
    pub fn build(&self, source_data: &GraphSourceData) -> (r: Result<CorrelationGraph, Error>)
        ensures
            built_from(r, GraphType::Call, self.name_view() + " - Call Graph"@, default_call_ops(self.config_view(), *source_data)),
    {
        self.build_call_graph(source_data)
    }

    /// The kind of graph `build` makes.
    pub fn graph_type(&self) -> (t: GraphType)
        ensures
            t == GraphType::Call,
    {
        GraphType::Call
    }

    /// The builder's name.
    pub fn name(&self) -> (s: &str)
        ensures
            s@ == self.name_view(),
    {
        self.name.as_str()
    }

    /// What the builder supports: every kind of graph, with the optional
    /// features its configuration turns on.
    pub fn capabilities(&self) -> (c: GraphBuilderCapabilities)
        ensures
            c == (GraphBuilderCapabilities {
                supports_call_graphs: true,
                supports_dependency_graphs: true,
                supports_data_flow_graphs: true,
                supports_component_graphs: true,
                supports_async: true,
                supports_parallel: self.config_view().parallel_processing,
                supports_caching: self.config_view().enable_caching,
                supports_validation: self.config_view().validate_integrity,
            }),
    {
        GraphBuilderCapabilities {
            supports_call_graphs: true,
            supports_dependency_graphs: true,
            supports_data_flow_graphs: true,
            supports_component_graphs: true,
            supports_async: true,
            supports_parallel: self.config.parallel_processing,
            supports_caching: self.config.enable_caching,
            supports_validation: self.config.validate_integrity,
        }
    }
}

} // verus!

verus! {

proof fn lemma_listed_count_prefix(keys: Seq<Seq<char>>, m: Map<Seq<char>, Vec<String>>, i: int)
    requires
        0 <= i <= keys.len(),
    ensures
        listed_count(keys.take(i), m) <= listed_count(keys, m),
    decreases keys.len() - i,
{
    if i < keys.len() {
        lemma_listed_count_prefix(keys, m, i + 1);
        assert(keys.take(i + 1).drop_last() =~= keys.take(i));
    } else {
        assert(keys.take(i) =~= keys);
    }
}

/// The message for source data with more potential nodes than the limit.
pub open spec fn too_many_message(total: nat, max: nat) -> Seq<char> {
    "Too many potential nodes: "@ + crate::text::decimal(total) + " (max: "@ + crate::text::decimal(max) + ")"@
}

impl DefaultGraphBuilder {
    /// Source data must name at least one file, give no more potential nodes
    /// than the node limit, and have no blank file path.
    pub fn validate_source_data(&self, data: &GraphSourceData) -> (r: Result<(), Error>)
        requires
            potential_nodes(*data) <= usize::MAX,
        ensures
            data.files.key_seq().len() == 0 ==> (r matches Err(Error::GraphCorrelation(m)) && m@
                == "No source files provided"@),
            data.files.key_seq().len() != 0 && (self.config_view().max_nodes matches Some(mx) && potential_nodes(*data)
                > mx) ==> (r matches Err(Error::GraphCorrelation(m)) && m@ == too_many_message(
                potential_nodes(*data),
                self.config_view().max_nodes->0 as nat,
            )),
            data.files.key_seq().len() != 0 && !(self.config_view().max_nodes matches Some(mx) && potential_nodes(*data)
                > mx) ==> if forall|k: int|
                0 <= k < data.files.key_seq().len() ==> trim_whitespace(#[trigger] data.files.key_seq()[k]).len() != 0 {
                r is Ok
            } else {
                r matches Err(Error::GraphCorrelation(m)) && m@ == "Empty file path found"@
            },
    {
        let n = data.files.len();
        if n == 0 {
            return Err(Error::GraphCorrelation(String::from_str("No source files provided")));
        }
        match self.config.max_nodes {
            Some(max_nodes) => {
                let ghost ks = data.functions.key_seq();
                let ghost fm = data.functions.map();
                let nf = data.functions.len();
                let mut total: usize = n;
                let mut i: usize = 0;
                proof {
                    assert(ks.take(0) =~= Seq::<Seq<char>>::empty());
                }
                while i < nf
                    invariant
                        nf == ks.len(),
                        ks == data.functions.key_seq(),
                        fm == data.functions.map(),
                        n == data.files.key_seq().len(),
                        potential_nodes(*data) <= usize::MAX,
                        i <= nf,
                        total == n + listed_count(ks.take(i as int), fm),
                    decreases nf - i,
                {
                    let (_file, names) = data.functions.entry_at(i);
                    proof {
                        assert(ks.take(i as int + 1).drop_last() =~= ks.take(i as int));
                        assert(ks.take(i as int + 1).last() == ks[i as int]);
                        lemma_listed_count_prefix(ks, fm, i as int + 1);
                    }
                    total = total + names.len();
                    i = i + 1;
                }
                proof {
                    assert(ks.take(nf as int) =~= ks);
                    assert(potential_nodes(*data) == total);
                }
                if total > max_nodes {
                    let a = crate::text::u64_to_decimal(total as u64);
                    let b = crate::text::u64_to_decimal(max_nodes as u64);
                    let msg = String::from_str("Too many potential nodes: ").concat(a.as_str()).concat(" (max: ").concat(
                        b.as_str(),
                    ).concat(")");
                    return Err(Error::GraphCorrelation(msg));
                }
            },
            None => {},
        }
        let ghost fk = data.files.key_seq();
        let mut j: usize = 0;
        while j < n
            invariant
                n == fk.len(),
                fk == data.files.key_seq(),
                j <= n,
                forall|k: int| 0 <= k < j ==> trim_whitespace(#[trigger] fk[k]).len() != 0,
                !(self.config_view().max_nodes matches Some(mx) && potential_nodes(*data) > mx),
            decreases n - j,
        {
            let (path, _content) = data.files.entry_at(j);
            if trim_text(path.as_str()).is_empty() {
                return Err(Error::GraphCorrelation(String::from_str("Empty file path found")));
            }
            j = j + 1;
        }
        Ok(())
    }
}

} // verus!
