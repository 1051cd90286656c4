//! Correlation graphs made from what a vectorizer search hands back: functions,
//! calls, imports, variables, transformations, classes, interfaces and their
//! relationships.

use super::builders::{
    apply_ops, build_graph, built_from, edge_view, edges_view, lemma_run_views, meta_view, node_view, nodes_view,
    op_view, ops_view, run_views, view_node_ids, EdgeView, GraphOp, NodeView, OpView, UNIT_WEIGHT_BITS,
};
use super::correlation_graph::{CorrelationGraph, GraphEdge, GraphNode};
use super::{EdgeType, GraphType, NodeType, VectorizerCollections};
use crate::error::Error;
use crate::str_map::StrMap;
use vstd::prelude::*;

verus! {

/// One item of a vectorizer search, as the fields that graph extraction reads:
/// its string-valued fields, and its number-valued fields as their JSON text.
#[derive(Debug)]
pub struct VectorizerRecord {
    /// Fields whose value is a string
    pub text_fields: StrMap<String>,
    /// Fields whose value is a number, as JSON text
    pub number_fields: StrMap<String>,
}

/// A record's fields as texts.
pub struct RecordView {
    pub text: Map<Seq<char>, Seq<char>>,
    pub numbers: Map<Seq<char>, Seq<char>>,
}

impl VectorizerRecord {
    /// The record's fields as texts.
    pub open spec fn fields(&self) -> RecordView {
        RecordView { text: meta_view(self.text_fields), numbers: meta_view(self.number_fields) }
    }

    /// A record with no fields.
    pub fn new() -> (r: Self)
        ensures
            r.fields().text == Map::<Seq<char>, Seq<char>>::empty(),
            r.fields().numbers == Map::<Seq<char>, Seq<char>>::empty(),
    {
        let r = VectorizerRecord { text_fields: StrMap::new(), number_fields: StrMap::new() };
        proof {
            assert(r.fields().text =~= Map::<Seq<char>, Seq<char>>::empty());
            assert(r.fields().numbers =~= Map::<Seq<char>, Seq<char>>::empty());
        }
        r
    }

    /// A copy with the same fields.
    pub fn copy(&self) -> (r: Self)
        ensures
            r.fields() == self.fields(),
    {
        VectorizerRecord { text_fields: self.text_fields.copy(), number_fields: self.number_fields.copy() }
    }
}

/// Records' fields as texts.
pub open spec fn records_view(s: Seq<VectorizerRecord>) -> Seq<RecordView> {
    s.map_values(|r: VectorizerRecord| r.fields())
}

/// The text field `key`, or `fallback` when the record has none.
pub open spec fn text_or(rec: RecordView, key: Seq<char>, fallback: Seq<char>) -> Seq<char> {
    if rec.text.contains_key(key) {
        rec.text[key]
    } else {
        fallback
    }
}

/// `meta` with the entry `key` of `fields` copied in, when `fields` has one.
pub open spec fn with_field(
    meta: Map<Seq<char>, Seq<char>>,
    fields: Map<Seq<char>, Seq<char>>,
    key: Seq<char>,
) -> Map<Seq<char>, Seq<char>> {
    if fields.contains_key(key) {
        meta.insert(key, fields[key])
    } else {
        meta
    }
}

/// A node with no colour and no metadata.
pub open spec fn plain_node(id: Seq<char>, node_type: NodeType, label: Seq<char>, meta: Map<Seq<char>, Seq<char>>) -> NodeView {
    NodeView { id, node_type, label, color: None, metadata: meta }
}

/// An edge of unit weight with no label.
pub open spec fn plain_edge(
    id: Seq<char>,
    source: Seq<char>,
    target: Seq<char>,
    edge_type: EdgeType,
    meta: Map<Seq<char>, Seq<char>>,
) -> EdgeView {
    EdgeView { id, source, target, edge_type, weight_bits: UNIT_WEIGHT_BITS, label: None, metadata: meta }
}

/// The node of a function record.
pub open spec fn function_node(rec: RecordView) -> NodeView {
    plain_node(
        text_or(rec, "id"@, "unknown"@),
        NodeType::Function,
        text_or(rec, "name"@, "Unknown Function"@),
        with_field(with_field(Map::empty(), rec.text, "signature"@), rec.text, "file"@),
    )
}

/// The edge of a call record.
pub open spec fn call_edge(rec: RecordView) -> EdgeView {
    plain_edge(
        text_or(rec, "id"@, "unknown"@),
        text_or(rec, "caller"@, "unknown"@),
        text_or(rec, "callee"@, "unknown"@),
        EdgeType::Calls,
        with_field(Map::empty(), rec.numbers, "frequency"@),
    )
}

/// The module node named `id`.
pub open spec fn module_node(id: Seq<char>) -> NodeView {
    plain_node(id, NodeType::Module, id, Map::empty())
}

/// The source module of an import record.
pub open spec fn import_source(rec: RecordView) -> Seq<char> {
    text_or(rec, "source"@, "unknown"@)
}

/// The target module of an import record.
pub open spec fn import_target(rec: RecordView) -> Seq<char> {
    text_or(rec, "target"@, "unknown"@)
}

/// The edge of an import record.
pub open spec fn import_edge(rec: RecordView) -> EdgeView {
    plain_edge(
        import_source(rec) + "->"@ + import_target(rec),
        import_source(rec),
        import_target(rec),
        EdgeType::Imports,
        Map::empty(),
    )
}

/// The node of a variable record.
pub open spec fn variable_node(rec: RecordView) -> NodeView {
    plain_node(
        text_or(rec, "id"@, "unknown"@),
        NodeType::Variable,
        text_or(rec, "name"@, "Unknown Variable"@),
        with_field(Map::empty(), rec.text, "type"@),
    )
}

/// The edge of a transformation record.
pub open spec fn transformation_edge(rec: RecordView) -> EdgeView {
    plain_edge(
        text_or(rec, "id"@, "unknown"@),
        text_or(rec, "source"@, "unknown"@),
        text_or(rec, "target"@, "unknown"@),
        EdgeType::Transforms,
        Map::empty(),
    )
}

/// The node of a class record.
pub open spec fn class_node(rec: RecordView) -> NodeView {
    plain_node(
        text_or(rec, "id"@, "unknown"@),
        NodeType::Class,
        text_or(rec, "name"@, "Unknown Class"@),
        with_field(Map::empty(), rec.text, "base_class"@),
    )
}

/// The node of an interface record.
pub open spec fn interface_node(rec: RecordView) -> NodeView {
    plain_node(
        text_or(rec, "id"@, "unknown"@),
        NodeType::API,
        text_or(rec, "name"@, "Unknown Interface"@),
        Map::empty(),
    )
}

/// The edge type named by a relationship record's `type` field.
pub open spec fn relationship_type(rec: RecordView) -> EdgeType {
    if rec.text.contains_key("type"@) && rec.text["type"@] == "inherits"@ {
        EdgeType::Inherits
    } else if rec.text.contains_key("type"@) && rec.text["type"@] == "implements"@ {
        EdgeType::Composes
    } else if rec.text.contains_key("type"@) && rec.text["type"@] == "uses"@ {
        EdgeType::Uses
    } else {
        EdgeType::Depends
    }
}

/// The edge of a relationship record.
pub open spec fn relationship_edge(rec: RecordView) -> EdgeView {
    plain_edge(
        text_or(rec, "id"@, "unknown"@),
        text_or(rec, "source"@, "unknown"@),
        text_or(rec, "target"@, "unknown"@),
        relationship_type(rec),
        Map::empty(),
    )
}

fn text_field_or(rec: &VectorizerRecord, key: &str, fallback: &str) -> (s: String)
    ensures
        s@ == text_or(rec.fields(), key@, fallback@),
{
    match rec.text_fields.get(key) {
        Some(v) => v.clone(),
        None => String::from_str(fallback),
    }
}

fn copy_field(meta: &mut StrMap<String>, fields: &StrMap<String>, key: &str)
    ensures
        meta_view(*final(meta)) == with_field(meta_view(*old(meta)), meta_view(*fields), key@),
{
    match fields.get(key) {
        Some(v) => {
            meta.insert(String::from_str(key), v.clone());
            proof {
                assert(meta_view(*meta) =~= meta_view(*old(meta)).insert(key@, v@));
            }
        },
        None => {},
    }
}

fn empty_meta() -> (m: StrMap<String>)
    ensures
        meta_view(m) == Map::<Seq<char>, Seq<char>>::empty(),
{
    let m = StrMap::new();
    proof {
        assert(meta_view(m) =~= Map::<Seq<char>, Seq<char>>::empty());
    }
    m
}

fn text_eq(a: &String, lit: &str) -> (b: bool)
    ensures
        b == (a@ == lit@),
{
    let l = String::from_str(lit);
    a.eq(&l)
}

/// Settings of a [`VectorizerGraphExtractor`].
#[derive(Debug, Clone)]
pub struct VectorizerExtractorConfig {
    /// Maximum number of results per query
    pub max_results: usize,
    /// Similarity threshold for semantic search (0.0 to 1.0), as the bits of an `f32`
    pub similarity_threshold_bits: u32,
    /// Enable caching of vectorizer queries
    pub enable_caching: bool,
    /// Cache TTL in seconds
    pub cache_ttl_seconds: u64,
    /// Collections to search for different graph types
    pub collections: VectorizerCollections,
}

/// Bits of the `f32` 0.7, the default similarity threshold.
pub const DEFAULT_SIMILARITY_BITS: u32 = 0x3f33_3333u32;

impl Default for VectorizerExtractorConfig {
    fn default() -> (c: Self)
        ensures
            c.max_results == 1000,
            c.similarity_threshold_bits == DEFAULT_SIMILARITY_BITS,
            c.enable_caching,
            c.cache_ttl_seconds == 3600,
            c.collections.functions@ == "functions"@,
            c.collections.imports@ == "imports"@,
            c.collections.calls@ == "calls"@,
            c.collections.types@ == "types"@,
            c.collections.codebase@ == "codebase"@,
    {
        VectorizerExtractorConfig {
            max_results: 1000,
            similarity_threshold_bits: DEFAULT_SIMILARITY_BITS,
            enable_caching: true,
            cache_ttl_seconds: 3600,
            collections: VectorizerCollections::default(),
        }
    }
}

/// Builds correlation graphs from vectorizer searches, keeping the results of
/// each search by collection and query when caching is on.
#[derive(Debug)]
pub struct VectorizerGraphExtractor {
    /// Client for vectorizer communication
    pub mcp_client: Option<serde_json::Value>,
    /// Results of earlier searches, keyed by `collection:query`
    pub query_cache: StrMap<Vec<VectorizerRecord>>,
    /// Configuration for graph extraction
    pub config: VectorizerExtractorConfig,
}

/// The cache as texts: each key with its records' fields.
pub open spec fn cache_view(m: Map<Seq<char>, Vec<VectorizerRecord>>) -> Map<Seq<char>, Seq<RecordView>> {
    m.map_values(|v: Vec<VectorizerRecord>| records_view(v@))
}

/// The cache key of a search.
pub open spec fn cache_key(collection: Seq<char>, query: Seq<char>) -> Seq<char> {
    collection + ":"@ + query
}

/// What a search returns: the cached records when caching is on and the key
/// is cached, and otherwise what the vectorizer returns, which is nothing
/// while no vectorizer is connected.
pub open spec fn search_outcome(cache: Map<Seq<char>, Seq<RecordView>>, caching: bool, key: Seq<char>) -> Seq<RecordView> {
    if caching && cache.contains_key(key) {
        cache[key]
    } else {
        Seq::empty()
    }
}

/// The cache after a search: a new key keeps the (empty) result when caching is on.
pub open spec fn cache_after(cache: Map<Seq<char>, Seq<RecordView>>, caching: bool, key: Seq<char>) -> Map<
    Seq<char>,
    Seq<RecordView>,
> {
    if caching && !cache.contains_key(key) {
        cache.insert(key, Seq::empty())
    } else {
        cache
    }
}

/// Total number of cached records.
pub open spec fn cached_items(lists: Seq<Seq<RecordView>>) -> nat
    decreases lists.len(),
{
    if lists.len() == 0 {
        0
    } else {
        cached_items(lists.drop_last()) + lists.last().len()
    }
}

impl VectorizerGraphExtractor {
    /// The cache as texts.
    pub open spec fn cached(&self) -> Map<Seq<char>, Seq<RecordView>> {
        cache_view(self.query_cache.map())
    }

    /// The cached result lists in key order.
    pub open spec fn cached_lists(&self) -> Seq<Seq<RecordView>> {
        self.query_cache.key_seq().map_values(|k: Seq<char>| self.cached()[k])
    }

    /// Create a new VectorizerGraphExtractor with default configuration
    pub fn new() -> (x: Self)
        ensures
            x.mcp_client is None,
            x.query_cache.map().dom() == Set::<Seq<char>>::empty(),
            x.config.max_results == 1000,
            x.config.similarity_threshold_bits == DEFAULT_SIMILARITY_BITS,
            x.config.enable_caching,
            x.config.cache_ttl_seconds == 3600,
            x.config.collections.functions@ == "functions"@,
            x.config.collections.imports@ == "imports"@,
            x.config.collections.calls@ == "calls"@,
            x.config.collections.types@ == "types"@,
            x.config.collections.codebase@ == "codebase"@,
    {
        VectorizerGraphExtractor { mcp_client: None, query_cache: StrMap::new(), config: VectorizerExtractorConfig::default() }
    }

    /// Create a new VectorizerGraphExtractor with custom configuration
    pub fn with_config(config: VectorizerExtractorConfig) -> (x: Self)
        ensures
            x.mcp_client is None,
            x.query_cache.map().dom() == Set::<Seq<char>>::empty(),
            x.config == config,
    {
        VectorizerGraphExtractor { mcp_client: None, query_cache: StrMap::new(), config }
    }

    /// Set the client for vectorizer communication
    pub fn set_mcp_client(&mut self, client: serde_json::Value)
        ensures
            final(self).mcp_client == Some(client),
            final(self).query_cache == old(self).query_cache,
            final(self).config == old(self).config,
    {
        self.mcp_client = Some(client);
    }

    /// Create a function node from vectorizer data
    pub fn create_function_node(&self, func_data: VectorizerRecord) -> (r: Result<GraphNode, Error>)
        ensures
            r matches Ok(n) && node_view(n) == function_node(func_data.fields()),
    {
        let id = text_field_or(&func_data, "id", "unknown");
        let label = text_field_or(&func_data, "name", "Unknown Function");
        let mut metadata = empty_meta();
        copy_field(&mut metadata, &func_data.text_fields, "signature");
        copy_field(&mut metadata, &func_data.text_fields, "file");
        Ok(GraphNode { id, node_type: NodeType::Function, label, metadata, color: None })
    }

    /// Create a call edge from vectorizer data
    pub fn create_call_edge(&self, call_data: VectorizerRecord) -> (r: Result<GraphEdge, Error>)
        ensures
            r matches Ok(e) && edge_view(e) == call_edge(call_data.fields()),
    {
        let id = text_field_or(&call_data, "id", "unknown");
        let source = text_field_or(&call_data, "caller", "unknown");
        let target = text_field_or(&call_data, "callee", "unknown");
        let mut metadata = empty_meta();
        copy_field(&mut metadata, &call_data.number_fields, "frequency");
        Ok(GraphEdge {
            id,
            source,
            target,
            edge_type: EdgeType::Calls,
            weight_bits: UNIT_WEIGHT_BITS,
            metadata,
            label: None,
        })
    }

    /// Create import relationship from vectorizer data: the two module nodes
    /// and the edge between them.
    pub fn create_import_relationship(&self, import_data: VectorizerRecord) -> (r: Result<(GraphNode, GraphNode, GraphEdge), Error>)
        ensures
            r matches Ok(t) && node_view(t.0) == module_node(import_source(import_data.fields()))
                && node_view(t.1) == module_node(import_target(import_data.fields()))
                && edge_view(t.2) == import_edge(import_data.fields()),
    {
        let source_id = text_field_or(&import_data, "source", "unknown");
        let target_id = text_field_or(&import_data, "target", "unknown");
        let source_node = GraphNode {
            id: source_id.clone(),
            node_type: NodeType::Module,
            label: source_id.clone(),
            metadata: empty_meta(),
            color: None,
        };
        let target_node = GraphNode {
            id: target_id.clone(),
            node_type: NodeType::Module,
            label: target_id.clone(),
            metadata: empty_meta(),
            color: None,
        };
        let mut edge_id = source_id.clone();
        edge_id.append("->");
        edge_id.append(target_id.as_str());
        let edge = GraphEdge {
            id: edge_id,
            source: source_id,
            target: target_id,
            edge_type: EdgeType::Imports,
            weight_bits: UNIT_WEIGHT_BITS,
            metadata: empty_meta(),
            label: None,
        };
        Ok((source_node, target_node, edge))
    }

    /// Create a variable node from vectorizer data
    pub fn create_variable_node(&self, var_data: VectorizerRecord) -> (r: Result<GraphNode, Error>)
        ensures
            r matches Ok(n) && node_view(n) == variable_node(var_data.fields()),
    {
        let id = text_field_or(&var_data, "id", "unknown");
        let label = text_field_or(&var_data, "name", "Unknown Variable");
        let mut metadata = empty_meta();
        copy_field(&mut metadata, &var_data.text_fields, "type");
        Ok(GraphNode { id, node_type: NodeType::Variable, label, metadata, color: None })
    }

    /// Create a transformation edge from vectorizer data
    pub fn create_transformation_edge(&self, transform_data: VectorizerRecord) -> (r: Result<GraphEdge, Error>)
        ensures
            r matches Ok(e) && edge_view(e) == transformation_edge(transform_data.fields()),
    {
        let id = text_field_or(&transform_data, "id", "unknown");
        let source = text_field_or(&transform_data, "source", "unknown");
        let target = text_field_or(&transform_data, "target", "unknown");
        Ok(GraphEdge {
            id,
            source,
            target,
            edge_type: EdgeType::Transforms,
            weight_bits: UNIT_WEIGHT_BITS,
            metadata: empty_meta(),
            label: None,
        })
    }

    /// Create a class node from vectorizer data
    pub fn create_class_node(&self, class_data: VectorizerRecord) -> (r: Result<GraphNode, Error>)
        ensures
            r matches Ok(n) && node_view(n) == class_node(class_data.fields()),
    {
        let id = text_field_or(&class_data, "id", "unknown");
        let label = text_field_or(&class_data, "name", "Unknown Class");
        let mut metadata = empty_meta();
        copy_field(&mut metadata, &class_data.text_fields, "base_class");
        Ok(GraphNode { id, node_type: NodeType::Class, label, metadata, color: None })
    }

    /// Create an interface node from vectorizer data
    pub fn create_interface_node(&self, interface_data: VectorizerRecord) -> (r: Result<GraphNode, Error>)
        ensures
            r matches Ok(n) && node_view(n) == interface_node(interface_data.fields()),
    {
        let id = text_field_or(&interface_data, "id", "unknown");
        let label = text_field_or(&interface_data, "name", "Unknown Interface");
        Ok(GraphNode { id, node_type: NodeType::API, label, metadata: empty_meta(), color: None })
    }

    /// Create a relationship edge from vectorizer data; its `type` field picks
    /// the edge type.
    pub fn create_relationship_edge(&self, rel_data: VectorizerRecord) -> (r: Result<GraphEdge, Error>)
        ensures
            r matches Ok(e) && edge_view(e) == relationship_edge(rel_data.fields()),
    {
        let id = text_field_or(&rel_data, "id", "unknown");
        let source = text_field_or(&rel_data, "source", "unknown");
        let target = text_field_or(&rel_data, "target", "unknown");
        let edge_type = match rel_data.text_fields.get("type") {
            Some(t) => if text_eq(t, "inherits") {
                EdgeType::Inherits
            } else if text_eq(t, "implements") {
                EdgeType::Composes
            } else if text_eq(t, "uses") {
                EdgeType::Uses
            } else {
                EdgeType::Depends
            },
            None => EdgeType::Depends,
        };
        Ok(GraphEdge { id, source, target, edge_type, weight_bits: UNIT_WEIGHT_BITS, metadata: empty_meta(), label: None })
    }
}

/// The kinds of record a search hands back, each turned into one addition.
#[derive(Clone, Copy)]
enum RecordKind {
    Function,
    Call,
    Variable,
    Transformation,
    Class,
    Interface,
    Relationship,
}

/// The addition that a record of the given kind makes.
spec fn record_op(kind: RecordKind, rec: RecordView) -> OpView {
    match kind {
        RecordKind::Function => OpView::Node(function_node(rec)),
        RecordKind::Call => OpView::Edge(call_edge(rec)),
        RecordKind::Variable => OpView::Node(variable_node(rec)),
        RecordKind::Transformation => OpView::Edge(transformation_edge(rec)),
        RecordKind::Class => OpView::Node(class_node(rec)),
        RecordKind::Interface => OpView::Node(interface_node(rec)),
        RecordKind::Relationship => OpView::Edge(relationship_edge(rec)),
    }
}

/// The additions that function records and call records make: every
/// function node, then every call edge.
pub open spec fn call_graph_ops(functions: Seq<RecordView>, calls: Seq<RecordView>) -> Seq<OpView> {
    functions.map_values(|r: RecordView| OpView::Node(function_node(r))) + calls.map_values(
        |r: RecordView| OpView::Edge(call_edge(r)),
    )
}

/// The additions that variable and transformation records make.
pub open spec fn data_flow_ops(variables: Seq<RecordView>, transformations: Seq<RecordView>) -> Seq<OpView> {
    variables.map_values(|r: RecordView| OpView::Node(variable_node(r))) + transformations.map_values(
        |r: RecordView| OpView::Edge(transformation_edge(r)),
    )
}

/// The node additions that class and interface records make.
pub open spec fn component_node_ops(classes: Seq<RecordView>, interfaces: Seq<RecordView>) -> Seq<OpView> {
    classes.map_values(|r: RecordView| OpView::Node(class_node(r))) + interfaces.map_values(
        |r: RecordView| OpView::Node(interface_node(r)),
    )
}

/// The edge additions that relationship records make.
pub open spec fn relationship_ops(relationships: Seq<RecordView>) -> Seq<OpView> {
    relationships.map_values(|r: RecordView| OpView::Edge(relationship_edge(r)))
}

/// The additions that import records make, with the module ids added so far:
/// for each import, its source and target module when not yet added, then
/// the import edge.
pub open spec fn dependency_plan(imports: Seq<RecordView>) -> (Seq<OpView>, Set<Seq<char>>)
    decreases imports.len(),
{
    if imports.len() == 0 {
        (Seq::empty(), Set::empty())
    } else {
        let (ops, known) = dependency_plan(imports.drop_last());
        let rec = imports.last();
        let s = import_source(rec);
        let t = import_target(rec);
        let ops1 = if known.contains(s) { ops } else { ops.push(OpView::Node(module_node(s))) };
        let known1 = known.insert(s);
        let ops2 = if known1.contains(t) { ops1 } else { ops1.push(OpView::Node(module_node(t))) };
        (ops2.push(OpView::Edge(import_edge(rec))), known1.insert(t))
    }
}

proof fn lemma_run_views_append(n: Seq<NodeView>, e: Seq<EdgeView>, a: Seq<OpView>, b: Seq<OpView>)
    ensures
        run_views(n, e, a + b) == match run_views(n, e, a) {
            Ok(st) => run_views(st.0, st.1, b),
            Err(m) => Err(m),
        },
    decreases b.len(),
{
    if b.len() == 0 {
        assert(a + b =~= a);
    } else {
        lemma_run_views_append(n, e, a, b.drop_last());
        assert((a + b).drop_last() =~= a + b.drop_last());
        assert((a + b).last() == b.last());
    }
}

fn copy_records(v: &Vec<VectorizerRecord>) -> (r: Vec<VectorizerRecord>)
    ensures
        records_view(r@) == records_view(v@),
{
    let mut out: Vec<VectorizerRecord> = Vec::new();
    let mut i: usize = 0;
    while i < v.len()
        invariant
            i <= v@.len(),
            records_view(out@) =~= records_view(v@).take(i as int),
        decreases v@.len() - i,
    {
        out.push(v[i].copy());
        proof {
            assert(records_view(v@).take(i as int + 1) =~= records_view(v@).take(i as int).push(v@[i as int].fields()));
        }
        i = i + 1;
    }
    proof {
        assert(records_view(v@).take(i as int) =~= records_view(v@));
    }
    out
}

impl VectorizerGraphExtractor {
    /// Search the vectorizer; no vectorizer connection is made yet, so every
    /// search comes back empty.
    fn perform_mcp_search(&self, _collection: &str, _query: &str) -> (r: Vec<VectorizerRecord>)
        ensures
            r@.len() == 0,
    {
        Vec::new()
    }

    /// Search a collection, answering from the cache when caching is on and
    /// the search was made before, and caching a new result.
    fn semantic_search(&mut self, collection: &str, query: &str) -> (r: Vec<VectorizerRecord>)
        ensures
            records_view(r@) == search_outcome(old(self).cached(), old(self).config.enable_caching, cache_key(collection@, query@)),
            final(self).cached() == cache_after(old(self).cached(), old(self).config.enable_caching, cache_key(collection@, query@)),
            final(self).config == old(self).config,
            final(self).mcp_client == old(self).mcp_client,
    {
        let mut key = String::from_str(collection);
        key.append(":");
        key.append(query);
        if self.config.enable_caching {
            match self.query_cache.get(key.as_str()) {
                Some(cached) => {
                    return copy_records(cached);
                },
                None => {},
            }
        }
        let results = self.perform_mcp_search(collection, query);
        proof {
            assert(records_view(results@) =~= Seq::<RecordView>::empty());
        }
        if self.config.enable_caching {
            let stored = copy_records(&results);
            let ghost before = self.query_cache.map();
            self.query_cache.insert(key, stored);
            proof {
                assert(self.cached() =~= cache_view(before).insert(cache_key(collection@, query@), Seq::<RecordView>::empty()));
            }
        }
        results
    }

    fn record_to_op(&self, kind: RecordKind, rec: VectorizerRecord) -> (r: Result<GraphOp, Error>)
        ensures
            r matches Ok(op) && op_view(op) == record_op(kind, rec.fields()),
    {
        match kind {
            RecordKind::Function => match self.create_function_node(rec) {
                Ok(n) => Ok(GraphOp::AddNode(n)),
                Err(e) => Err(e),
            },
            RecordKind::Call => match self.create_call_edge(rec) {
                Ok(x) => Ok(GraphOp::AddEdge(x)),
                Err(e) => Err(e),
            },
            RecordKind::Variable => match self.create_variable_node(rec) {
                Ok(n) => Ok(GraphOp::AddNode(n)),
                Err(e) => Err(e),
            },
            RecordKind::Transformation => match self.create_transformation_edge(rec) {
                Ok(x) => Ok(GraphOp::AddEdge(x)),
                Err(e) => Err(e),
            },
            RecordKind::Class => match self.create_class_node(rec) {
                Ok(n) => Ok(GraphOp::AddNode(n)),
                Err(e) => Err(e),
            },
            RecordKind::Interface => match self.create_interface_node(rec) {
                Ok(n) => Ok(GraphOp::AddNode(n)),
                Err(e) => Err(e),
            },
            RecordKind::Relationship => match self.create_relationship_edge(rec) {
                Ok(x) => Ok(GraphOp::AddEdge(x)),
                Err(e) => Err(e),
            },
        }
    }

    /// Append the additions that `recs` make, in order.
    fn push_ops(&self, ops: &mut Vec<GraphOp>, recs: Vec<VectorizerRecord>, kind: RecordKind)
        ensures
            ops_view(final(ops)@) == ops_view(old(ops)@) + records_view(recs@).map_values(|r: RecordView| record_op(kind, r)),
    {
        let ghost start = ops_view(ops@);
        let ghost all = records_view(recs@);
        let mut i: usize = 0;
        while i < recs.len()
            invariant
                i <= recs@.len(),
                all == records_view(recs@),
                ops_view(ops@) =~= start + all.take(i as int).map_values(|r: RecordView| record_op(kind, r)),
            decreases recs@.len() - i,
        {
            let rec = recs[i].copy();
            let ghost rv = rec.fields();
            match self.record_to_op(kind, rec) {
                Ok(op) => {
                    let ghost before = ops@;
                    ops.push(op);
                    proof {
                        assert(ops_view(ops@) =~= ops_view(before).push(op_view(op)));
                        assert(all[i as int] == rv);
                        assert(all.take(i as int + 1) =~= all.take(i as int).push(rv));
                        assert(all.take(i as int + 1).map_values(|r: RecordView| record_op(kind, r)) =~= all.take(
                            i as int,
                        ).map_values(|r: RecordView| record_op(kind, r)).push(record_op(kind, rv)));
                    }
                },
                Err(_) => {},
            }
            i = i + 1;
        }
        proof {
            assert(all.take(i as int) =~= all);
        }
    }

    /// Extract call graph data from vectorizer: a node for each function found
    /// in the functions collection, then an edge for each call found in the
    /// calls collection.
    pub fn extract_call_graph(&mut self, query: &str, _max_depth: Option<usize>) -> (r: Result<CorrelationGraph, Error>)
        ensures
            ({
                let on = old(self).config.enable_caching;
                let k1 = cache_key(old(self).config.collections.functions@, query@);
                let k2 = cache_key(old(self).config.collections.calls@, query@);
                let c1 = cache_after(old(self).cached(), on, k1);
                &&& built_from(
                    r,
                    GraphType::Call,
                    "Call Graph"@,
                    call_graph_ops(search_outcome(old(self).cached(), on, k1), search_outcome(c1, on, k2)),
                )
                &&& final(self).cached() == cache_after(c1, on, k2)
            }),
            final(self).config == old(self).config,
            final(self).mcp_client == old(self).mcp_client,
    {
        let functions_collection = self.config.collections.functions.clone();
        let calls_collection = self.config.collections.calls.clone();
        let functions = self.semantic_search(functions_collection.as_str(), query);
        let calls = self.semantic_search(calls_collection.as_str(), query);
        let ghost fs = records_view(functions@);
        let ghost cs = records_view(calls@);
        let mut ops: Vec<GraphOp> = Vec::new();
        self.push_ops(&mut ops, functions, RecordKind::Function);
        self.push_ops(&mut ops, calls, RecordKind::Call);
        proof {
            assert(ops_view(ops@) =~= call_graph_ops(fs, cs));
        }
        build_graph(GraphType::Call, String::from_str("Call Graph"), ops)
    }

    /// Extract dependency graph data from vectorizer: for each import found in
    /// the imports collection, its two modules (each added once) and the
    /// import edge.
    pub fn extract_dependency_graph(&mut self, query: &str) -> (r: Result<CorrelationGraph, Error>)
        ensures
            ({
                let on = old(self).config.enable_caching;
                let k = cache_key(old(self).config.collections.imports@, query@);
                &&& built_from(r, GraphType::Dependency, "Dependency Graph"@, dependency_plan(search_outcome(old(self).cached(), on, k)).0)
                &&& final(self).cached() == cache_after(old(self).cached(), on, k)
            }),
            final(self).config == old(self).config,
            final(self).mcp_client == old(self).mcp_client,
    {
        let imports_collection = self.config.collections.imports.clone();
        let imports = self.semantic_search(imports_collection.as_str(), query);
        let ghost all = records_view(imports@);
        let mut ops: Vec<GraphOp> = Vec::new();
        let mut added: StrMap<bool> = StrMap::new();
        let mut i: usize = 0;
        proof {
            assert(all.take(0) =~= Seq::<RecordView>::empty());
            assert(ops_view(ops@) =~= Seq::<OpView>::empty());
        }
        while i < imports.len()
            invariant
                i <= imports@.len(),
                all == records_view(imports@),
                ops_view(ops@) == dependency_plan(all.take(i as int)).0,
                added.map().dom() == dependency_plan(all.take(i as int)).1,
            decreases imports@.len() - i,
        {
            let rec = imports[i].copy();
            let ghost rv = rec.fields();
            proof {
                assert(all[i as int] == rv);
                assert(all.take(i as int + 1).drop_last() =~= all.take(i as int));
                assert(all.take(i as int + 1).last() == rv);
            }
            match self.create_import_relationship(rec) {
                Ok((source_node, target_node, edge)) => {
                    if !added.contains_key(source_node.id.as_str()) {
                        added.insert(source_node.id.clone(), true);
                        let ghost before = ops@;
                        ops.push(GraphOp::AddNode(source_node));
                        proof {
                            assert(ops_view(ops@) =~= ops_view(before).push(op_view(GraphOp::AddNode(source_node))));
                        }
                    } else {
                        added.insert(source_node.id.clone(), true);
                    }
                    if !added.contains_key(target_node.id.as_str()) {
                        added.insert(target_node.id.clone(), true);
                        let ghost before = ops@;
                        ops.push(GraphOp::AddNode(target_node));
                        proof {
                            assert(ops_view(ops@) =~= ops_view(before).push(op_view(GraphOp::AddNode(target_node))));
                        }
                    } else {
                        added.insert(target_node.id.clone(), true);
                    }
                    let ghost before = ops@;
                    ops.push(GraphOp::AddEdge(edge));
                    proof {
                        assert(ops_view(ops@) =~= ops_view(before).push(op_view(GraphOp::AddEdge(edge))));
                        assert(added.map().dom() =~= dependency_plan(all.take(i as int + 1)).1);
                    }
                },
                Err(_) => {},
            }
            i = i + 1;
        }
        proof {
            assert(all.take(i as int) =~= all);
        }
        build_graph(GraphType::Dependency, String::from_str("Dependency Graph"), ops)
    }

    /// Extract data flow graph data from vectorizer: a node for each variable
    /// found in the types collection, then an edge for each transformation
    /// found in the codebase collection.
    pub fn extract_data_flow_graph(&mut self, query: &str) -> (r: Result<CorrelationGraph, Error>)
        ensures
            ({
                let on = old(self).config.enable_caching;
                let k1 = cache_key(old(self).config.collections.types@, query@);
                let k2 = cache_key(old(self).config.collections.codebase@, query@);
                let c1 = cache_after(old(self).cached(), on, k1);
                &&& built_from(
                    r,
                    GraphType::DataFlow,
                    "Data Flow Graph"@,
                    data_flow_ops(search_outcome(old(self).cached(), on, k1), search_outcome(c1, on, k2)),
                )
                &&& final(self).cached() == cache_after(c1, on, k2)
            }),
            final(self).config == old(self).config,
            final(self).mcp_client == old(self).mcp_client,
    {
        let variables_collection = self.config.collections.types.clone();
        let transformations_collection = self.config.collections.codebase.clone();
        let variables = self.semantic_search(variables_collection.as_str(), query);
        let transformations = self.semantic_search(transformations_collection.as_str(), query);
        let ghost vs = records_view(variables@);
        let ghost ts = records_view(transformations@);
        let mut ops: Vec<GraphOp> = Vec::new();
        self.push_ops(&mut ops, variables, RecordKind::Variable);
        self.push_ops(&mut ops, transformations, RecordKind::Transformation);
        proof {
            assert(ops_view(ops@) =~= data_flow_ops(vs, ts));
        }
        build_graph(GraphType::DataFlow, String::from_str("Data Flow Graph"), ops)
    }

    /// Extract component graph data from vectorizer: a node for each class,
    /// then for each interface, both found in the types collection; when they
    /// are all accepted, an edge for each relationship found in the codebase
    /// collection.
    pub fn extract_component_graph(&mut self, query: &str) -> (r: Result<CorrelationGraph, Error>)
        ensures
            ({
                let on = old(self).config.enable_caching;
                let k1 = cache_key(old(self).config.collections.types@, query@);
                let k3 = cache_key(old(self).config.collections.codebase@, query@);
                let c1 = cache_after(old(self).cached(), on, k1);
                let c2 = cache_after(c1, on, k1);
                let node_ops = component_node_ops(search_outcome(old(self).cached(), on, k1), search_outcome(c1, on, k1));
                &&& built_from(
                    r,
                    GraphType::Component,
                    "Component Graph"@,
                    node_ops + relationship_ops(search_outcome(c2, on, k3)),
                )
                &&& run_views(Seq::empty(), Seq::empty(), node_ops) is Ok ==> final(self).cached() == cache_after(c2, on, k3)
                &&& run_views(Seq::empty(), Seq::empty(), node_ops) is Err ==> final(self).cached() == c2
            }),
            final(self).config == old(self).config,
            final(self).mcp_client == old(self).mcp_client,
    {
        let types_collection = self.config.collections.types.clone();
        let classes = self.semantic_search(types_collection.as_str(), query);
        let interfaces = self.semantic_search(types_collection.as_str(), query);
        let ghost cls = records_view(classes@);
        let ghost ifs = records_view(interfaces@);
        let mut node_ops: Vec<GraphOp> = Vec::new();
        self.push_ops(&mut node_ops, classes, RecordKind::Class);
        self.push_ops(&mut node_ops, interfaces, RecordKind::Interface);
        let ghost planned = ops_view(node_ops@);
        proof {
            assert(planned =~= component_node_ops(cls, ifs));
        }
        let built = build_graph(GraphType::Component, String::from_str("Component Graph"), node_ops);
        let mut graph = match built {
            Ok(g) => g,
            Err(e) => {
                let ghost rest = relationship_ops(search_outcome(self.cached(), self.config.enable_caching, cache_key(self.config.collections.codebase@, query@)));
                proof {
                    lemma_run_views_append(Seq::empty(), Seq::empty(), planned, rest);
                }
                return Err(e);
            },
        };
        let codebase_collection = self.config.collections.codebase.clone();
        let relationships = self.semantic_search(codebase_collection.as_str(), query);
        let ghost rs = records_view(relationships@);
        let mut edge_ops: Vec<GraphOp> = Vec::new();
        self.push_ops(&mut edge_ops, relationships, RecordKind::Relationship);
        proof {
            assert(ops_view(edge_ops@) =~= relationship_ops(rs));
        }
        let ghost n1 = graph.nodes@;
        let ghost e1 = graph.edges@;
        let ghost eops = edge_ops@;
        let res = apply_ops(&mut graph, edge_ops);
        proof {
            lemma_run_views(n1, e1, eops);
            lemma_run_views_append(Seq::empty(), Seq::empty(), planned, ops_view(eops));
        }
        match res {
            Ok(()) => Ok(graph),
            Err(e) => Err(e),
        }
    }

    /// Clear the query cache
    pub fn clear_cache(&mut self)
        ensures
            final(self).query_cache.map().dom() == Set::<Seq<char>>::empty(),
            final(self).config == old(self).config,
            final(self).mcp_client == old(self).mcp_client,
    {
        self.query_cache.clear();
    }

    /// Get cache statistics: the number of cached searches and the total
    /// number of cached records.
    pub fn cache_stats(&self) -> (r: (usize, usize))
        requires
            cached_items(self.cached_lists()) <= usize::MAX,
        ensures
            r.0 == self.query_cache.map().dom().len(),
            r.1 == cached_items(self.cached_lists()),
    {
        let n = self.query_cache.len();
        let ghost ks = self.query_cache.key_seq();
        let ghost lists = self.cached_lists();
        let mut total: usize = 0;
        let mut i: usize = 0;
        while i < n
            invariant
                i <= n,
                n == ks.len(),
                ks == self.query_cache.key_seq(),
                lists == self.cached_lists(),
                lists.len() == n,
                total == cached_items(lists.take(i as int)),
                cached_items(lists) <= usize::MAX,
            decreases n - i,
        {
            let (_, records) = self.query_cache.entry_at(i);
            proof {
                assert(lists.take(i as int + 1).drop_last() =~= lists.take(i as int));
                assert(lists[i as int] == records_view(records@));
                lemma_cached_items_prefix(lists, i as int + 1);
            }
            total = total + records.len();
            i = i + 1;
        }
        proof {
            assert(lists.take(i as int) =~= lists);
        }
        (n, total)
    }
}

proof fn lemma_cached_items_prefix(lists: Seq<Seq<RecordView>>, j: int)
    requires
        0 <= j <= lists.len(),
    ensures
        cached_items(lists.take(j)) <= cached_items(lists),
    decreases lists.len() - j,
{
    if j < lists.len() {
        lemma_cached_items_prefix(lists, j + 1);
        assert(lists.take(j + 1).drop_last() =~= lists.take(j));
    } else {
        assert(lists.take(j) =~= lists);
    }
}

impl Default for VectorizerGraphExtractor {
    fn default() -> (x: Self)
        ensures
            x.mcp_client is None,
            x.query_cache.map().dom() == Set::<Seq<char>>::empty(),
            x.config.max_results == 1000,
            x.config.enable_caching,
    {
        Self::new()
    }
}

} // verus!

verus! {

/// The ids of the records that have a text `id` field.
pub open spec fn record_ids(s: Seq<RecordView>) -> Set<Seq<char>>
    decreases s.len(),
{
    if s.len() == 0 {
        Set::empty()
    } else if s.last().text.contains_key("id"@) {
        record_ids(s.drop_last()).insert(s.last().text["id"@])
    } else {
        record_ids(s.drop_last())
    }
}

/// The records kept when duplicates by id are dropped: a record is kept when
/// it has no id, or when no earlier record has its id.
pub open spec fn first_by_id(s: Seq<RecordView>) -> Seq<RecordView>
    decreases s.len(),
{
    if s.len() == 0 {
        Seq::empty()
    } else {
        let x = s.last();
        let before = s.drop_last();
        if x.text.contains_key("id"@) && record_ids(before).contains(x.text["id"@]) {
            first_by_id(before)
        } else {
            first_by_id(before).push(x)
        }
    }
}

/// Most records a combined result keeps.
pub const COMBINED_LIMIT: usize = 1000;

/// The first `COMBINED_LIMIT` records of `s` (all of them when fewer).
pub open spec fn capped(s: Seq<RecordView>) -> Seq<RecordView> {
    if s.len() > COMBINED_LIMIT {
        s.take(COMBINED_LIMIT as int)
    } else {
        s
    }
}

/// Combine the results of a semantic search and a metadata search: the
/// semantic results, then the metadata results, with a record dropped when
/// an earlier one has the same id, and at most the first 1000 kept.
pub fn combine_results(semantic_results: Vec<VectorizerRecord>, metadata_results: Vec<VectorizerRecord>) -> (r: Vec<
    VectorizerRecord,
>)
    ensures
        records_view(r@) == capped(first_by_id(records_view(semantic_results@) + records_view(metadata_results@))),
{
    let mut combined = semantic_results;
    let mut rest = metadata_results;
    let ghost all = records_view(combined@) + records_view(rest@);
    combined.append(&mut rest);
    proof {
        assert(records_view(combined@) =~= all);
    }
    let mut seen: StrMap<bool> = StrMap::new();
    let mut kept: Vec<VectorizerRecord> = Vec::new();
    let n = combined.len();
    let mut i: usize = 0;
    proof {
        assert(all.take(0) =~= Seq::<RecordView>::empty());
        assert(seen.map().dom() =~= record_ids(all.take(0)));
    }
    while i < n
        invariant
            i <= n,
            n == combined@.len(),
            all == records_view(combined@),
            seen.map().dom() == record_ids(all.take(i as int)),
            records_view(kept@) =~= first_by_id(all.take(i as int)),
        decreases n - i,
    {
        let rec = &combined[i];
        let ghost rv = rec.fields();
        proof {
            assert(all[i as int] == rv);
            assert(all.take(i as int + 1).drop_last() =~= all.take(i as int));
            assert(all.take(i as int + 1).last() == rv);
        }
        match rec.text_fields.get("id") {
            Some(id) => {
                proof {
                    assert(rv.text.contains_key("id"@) && rv.text["id"@] == id@);
                }
                if !seen.contains_key(id.as_str()) {
                    let ghost before = kept@;
                    kept.push(rec.copy());
                    proof {
                        assert(records_view(kept@) =~= records_view(before).push(rv));
                    }
                }
                seen.insert(id.clone(), true);
                proof {
                    assert(seen.map().dom() =~= record_ids(all.take(i as int)).insert(id@));
                }
            },
            None => {
                let ghost before = kept@;
                kept.push(rec.copy());
                proof {
                    assert(records_view(kept@) =~= records_view(before).push(rv));
                }
            },
        }
        i = i + 1;
    }
    proof {
        assert(all.take(i as int) =~= all);
    }
    if kept.len() > COMBINED_LIMIT {
        let ghost before = kept@;
        kept.truncate(COMBINED_LIMIT);
        proof {
            assert(records_view(kept@) =~= records_view(before).take(COMBINED_LIMIT as int));
        }
    }
    kept
}

} // verus!
