//! In-memory property graph: nodes carrying labels and properties, typed
//! relationships between them, and the bookkeeping that keeps both consistent.

use vstd::prelude::*;
use crate::error::Error;
use crate::id_map::IdMap;
use crate::str_map::StrMap;
use crate::text::{decimal, u64_to_decimal};

verus! {

/// A unique identifier for nodes in the graph.
#[derive(Debug, Clone, Copy, PartialEq, Eq, Structural, Hash, PartialOrd, Ord)]
pub struct NodeId(pub u64);

impl NodeId {
    /// Create a new node id.
    pub fn new(id: u64) -> (r: Self)
        ensures
            r.0 == id,
    {
        NodeId(id)
    }

    /// The raw id value.
    pub fn value(&self) -> (r: u64)
        ensures
            r == self.0,
    {
        self.0
    }
}

impl From<u64> for NodeId {
    fn from(id: u64) -> (r: Self) {
        NodeId(id)
    }
}

impl vstd::std_specs::convert::FromSpecImpl<u64> for NodeId {
    open spec fn obeys_from_spec() -> bool {
        true
    }

    open spec fn from_spec(v: u64) -> Self {
        NodeId(v)
    }
}

impl From<NodeId> for u64 {
    fn from(node_id: NodeId) -> (r: Self) {
        node_id.0
    }
}

impl vstd::std_specs::convert::FromSpecImpl<NodeId> for u64 {
    open spec fn obeys_from_spec() -> bool {
        true
    }

    open spec fn from_spec(v: NodeId) -> Self {
        v.0
    }
}

/// A unique identifier for relationships in the graph.
#[derive(Debug, Clone, Copy, PartialEq, Eq, Structural, Hash, PartialOrd, Ord)]
pub struct EdgeId(pub u64);

impl EdgeId {
    /// Create a new edge id.
    pub fn new(id: u64) -> (r: Self)
        ensures
            r.0 == id,
    {
        EdgeId(id)
    }

    /// The raw id value.
    pub fn value(&self) -> (r: u64)
        ensures
            r == self.0,
    {
        self.0
    }
}

impl From<u64> for EdgeId {
    fn from(id: u64) -> (r: Self) {
        EdgeId(id)
    }
}

impl vstd::std_specs::convert::FromSpecImpl<u64> for EdgeId {
    open spec fn obeys_from_spec() -> bool {
        true
    }

    open spec fn from_spec(v: u64) -> Self {
        EdgeId(v)
    }
}

impl From<EdgeId> for u64 {
    fn from(edge_id: EdgeId) -> (r: Self) {
        edge_id.0
    }
}

impl vstd::std_specs::convert::FromSpecImpl<EdgeId> for u64 {
    open spec fn obeys_from_spec() -> bool {
        true
    }

    open spec fn from_spec(v: EdgeId) -> Self {
        v.0
    }
}

/// Property values; a 64-bit float is held by its IEEE-754 bit pattern.
#[derive(Debug, Clone, PartialEq)]
pub enum PropertyValue {
    Null,
    Bool(bool),
    Int64(i64),
    Float64(u64),
    String(String),
    Bytes(Vec<u8>),
}

/// The texts of a list of strings.
pub open spec fn texts(labels: Seq<String>) -> Seq<Seq<char>> {
    labels.map_values(|s: String| s@)
}

/// The texts of a list of borrowed strings.
pub open spec fn borrowed_texts(keys: Seq<&String>) -> Seq<Seq<char>> {
    keys.map_values(|s: &String| s@)
}

proof fn lemma_deref_push<T>(s: Seq<&T>, x: &T)
    ensures
        s.push(x).map_values(|y: &T| *y) =~= s.map_values(|y: &T| *y).push(*x),
{
}

/// First position of `x` in `s`, where it occurs.
fn position_of(s: &Vec<String>, x: &str) -> (r: Option<usize>)
    ensures
        match r {
            Some(i) => i < s@.len() && s@[i as int]@ == x@ && texts(s@).contains(x@)
                && forall|j: int| 0 <= j < i ==> #[trigger] s@[j]@ != x@,
            None => !texts(s@).contains(x@),
        },
{
    let key = String::from_str(x);
    let mut i: usize = 0;
    while i < s.len()
        invariant
            key@ == x@,
            i <= s@.len(),
            forall|j: int| 0 <= j < i ==> #[trigger] s@[j]@ != x@,
        decreases s@.len() - i,
    {
        if s[i].eq(&key) {
            proof {
                assert(texts(s@)[i as int] == x@);
            }
            return Some(i);
        }
        i = i + 1;
    }
    proof {
        if texts(s@).contains(x@) {
            let j = choose|j: int| 0 <= j < texts(s@).len() && texts(s@)[j] == x@;
            assert(s@[j]@ == x@);
        }
    }
    None
}

/// Keys of a property map, in insertion order.
fn keys_of(props: &StrMap<PropertyValue>) -> (r: Vec<&String>)
    ensures
        borrowed_texts(r@) == props.key_seq(),
{
    let n = props.len();
    let mut out: Vec<&String> = Vec::new();
    let mut i: usize = 0;
    while i < n
        invariant
            n == props.key_seq().len(),
            i <= n,
            borrowed_texts(out@) =~= props.key_seq().take(i as int),
        decreases n - i,
    {
        let (k, _v) = props.entry_at(i);
        out.push(k);
        proof {
            assert(props.key_seq().take(i as int + 1) =~= props.key_seq().take(i as int).push(k@));
        }
        i = i + 1;
        proof {
            assert(borrowed_texts(out@) =~= props.key_seq().take(i as int));
        }
    }
    proof {
        assert(props.key_seq().take(n as int) =~= props.key_seq());
    }
    out
}

/// A node of the graph with its labels and properties.
#[derive(Debug, Clone)]
pub struct Node {
    pub id: NodeId,
    pub labels: Vec<String>,
    pub properties: StrMap<PropertyValue>,
}

impl Node {
    /// The node's labels as texts.
    pub open spec fn label_seq(&self) -> Seq<Seq<char>> {
        texts(self.labels@)
    }

    /// Whether the node carries `label`.
    pub open spec fn carries_label(&self, label: Seq<char>) -> bool {
        self.label_seq().contains(label)
    }

    /// A node with the given id and labels and no properties.
    pub fn new(id: NodeId, labels: Vec<String>) -> (r: Self)
        ensures
            r.id == id,
            r.labels == labels,
            r.properties.map() == Map::<Seq<char>, PropertyValue>::empty(),
            r.properties.key_seq() == Seq::<Seq<char>>::empty(),
    {
        Node { id, labels, properties: StrMap::new() }
    }

    /// A node with the given id, labels and properties.
    pub fn with_properties(id: NodeId, labels: Vec<String>, properties: StrMap<PropertyValue>) -> (r: Self)
        ensures
            r.id == id,
            r.labels == labels,
            r.properties == properties,
    {
        Node { id, labels, properties }
    }

    /// Add a label unless the node already carries it.
    pub fn add_label(&mut self, label: String)
        ensures
            final(self).id == old(self).id,
            final(self).properties == old(self).properties,
            final(self).label_seq() == if old(self).carries_label(label@) {
                old(self).label_seq()
            } else {
                old(self).label_seq().push(label@)
            },
    {
        if position_of(&self.labels, label.as_str()).is_none() {
            let ghost before = self.labels@;
            let ghost text = label@;
            self.labels.push(label);
            proof {
                assert(texts(self.labels@) =~= texts(before).push(text));
            }
        }
    }

    /// Remove the first occurrence of a label; whether the node carried it.
    pub fn remove_label(&mut self, label: &str) -> (r: bool)
        ensures
            r == old(self).carries_label(label@),
            final(self).id == old(self).id,
            final(self).properties == old(self).properties,
            !r ==> final(self).labels@ == old(self).labels@,
            r ==> exists|p: int|
                0 <= p < old(self).label_seq().len() && old(self).label_seq()[p] == label@ && (forall|j: int|
                    0 <= j < p ==> #[trigger] old(self).label_seq()[j] != label@) && final(self).label_seq()
                    == old(self).label_seq().remove(p),
    {
        match position_of(&self.labels, label) {
            Some(pos) => {
                let ghost before = self.labels@;
                self.labels.remove(pos);
                proof {
                    let t = texts(before);
                    assert(t[pos as int] == label@);
                    assert forall|j: int| 0 <= j < pos as int implies #[trigger] t[j] != label@ by {
                        assert(before[j]@ != label@);
                    }
                    assert(texts(self.labels@) =~= t.remove(pos as int));
                    assert(t == old(self).label_seq());
                    let p = pos as int;
                    assert(0 <= p < old(self).label_seq().len() && old(self).label_seq()[p] == label@ && (forall|j: int|
                        0 <= j < p ==> #[trigger] old(self).label_seq()[j] != label@) && self.label_seq()
                        == old(self).label_seq().remove(p));
                }
                true
            },
            None => false,
        }
    }

    /// Whether the node carries `label`.
    pub fn has_label(&self, label: &str) -> (r: bool)
        ensures
            r == self.carries_label(label@),
    {
        position_of(&self.labels, label).is_some()
    }

    /// Set a property.
    pub fn set_property(&mut self, key: String, value: PropertyValue)
        ensures
            final(self).id == old(self).id,
            final(self).labels == old(self).labels,
            final(self).properties.map() == old(self).properties.map().insert(key@, value),
    {
        self.properties.insert(key, value);
    }

    /// A property's value.
    pub fn get_property(&self, key: &str) -> (r: Option<&PropertyValue>)
        ensures
            match r {
                Some(v) => self.properties.map().contains_key(key@) && self.properties.map()[key@] == *v,
                None => !self.properties.map().contains_key(key@),
            },
    {
        self.properties.get(key)
    }

    /// Remove a property, returning its value.
    pub fn remove_property(&mut self, key: &str) -> (r: Option<PropertyValue>)
        ensures
            final(self).id == old(self).id,
            final(self).labels == old(self).labels,
            final(self).properties.map() == old(self).properties.map().remove(key@),
            match r {
                Some(v) => old(self).properties.map().contains_key(key@) && old(self).properties.map()[key@] == v,
                None => !old(self).properties.map().contains_key(key@),
            },
    {
        self.properties.remove(key)
    }

    /// Whether a property is set.
    pub fn has_property(&self, key: &str) -> (r: bool)
        ensures
            r == self.properties.map().contains_key(key@),
    {
        self.properties.contains_key(key)
    }

    /// The property keys, in the order they were first set.
    pub fn property_keys(&self) -> (r: Vec<&String>)
        ensures
            borrowed_texts(r@) == self.properties.key_seq(),
    {
        keys_of(&self.properties)
    }

    /// Whether the node has neither labels nor properties.
    pub fn is_empty(&self) -> (r: bool)
        ensures
            r == (self.labels@.len() == 0 && self.properties.map().dom().len() == 0),
    {
        self.labels.len() == 0 && self.properties.len() == 0
    }
}

/// A relationship of the graph from one node to another.
#[derive(Debug, Clone)]
pub struct Edge {
    pub id: EdgeId,
    pub source: NodeId,
    pub target: NodeId,
    pub relationship_type: String,
    pub properties: StrMap<PropertyValue>,
}

impl Edge {
    /// An edge with no properties.
    pub fn new(id: EdgeId, source: NodeId, target: NodeId, relationship_type: String) -> (r: Self)
        ensures
            r.id == id,
            r.source == source,
            r.target == target,
            r.relationship_type == relationship_type,
            r.properties.map() == Map::<Seq<char>, PropertyValue>::empty(),
            r.properties.key_seq() == Seq::<Seq<char>>::empty(),
    {
        Edge { id, source, target, relationship_type, properties: StrMap::new() }
    }

    /// An edge with the given properties.
    pub fn with_properties(
        id: EdgeId,
        source: NodeId,
        target: NodeId,
        relationship_type: String,
        properties: StrMap<PropertyValue>,
    ) -> (r: Self)
        ensures
            r.id == id,
            r.source == source,
            r.target == target,
            r.relationship_type == relationship_type,
            r.properties == properties,
    {
        Edge { id, source, target, relationship_type, properties }
    }

    /// Set a property.
    pub fn set_property(&mut self, key: String, value: PropertyValue)
        ensures
            final(self).id == old(self).id,
            final(self).source == old(self).source,
            final(self).target == old(self).target,
            final(self).relationship_type == old(self).relationship_type,
            final(self).properties.map() == old(self).properties.map().insert(key@, value),
    {
        self.properties.insert(key, value);
    }

    /// A property's value.
    pub fn get_property(&self, key: &str) -> (r: Option<&PropertyValue>)
        ensures
            match r {
                Some(v) => self.properties.map().contains_key(key@) && self.properties.map()[key@] == *v,
                None => !self.properties.map().contains_key(key@),
            },
    {
        self.properties.get(key)
    }

    /// Remove a property, returning its value.
    pub fn remove_property(&mut self, key: &str) -> (r: Option<PropertyValue>)
        ensures
            final(self).id == old(self).id,
            final(self).source == old(self).source,
            final(self).target == old(self).target,
            final(self).relationship_type == old(self).relationship_type,
            final(self).properties.map() == old(self).properties.map().remove(key@),
            match r {
                Some(v) => old(self).properties.map().contains_key(key@) && old(self).properties.map()[key@] == v,
                None => !old(self).properties.map().contains_key(key@),
            },
    {
        self.properties.remove(key)
    }

    /// Whether a property is set.
    pub fn has_property(&self, key: &str) -> (r: bool)
        ensures
            r == self.properties.map().contains_key(key@),
    {
        self.properties.contains_key(key)
    }

    /// The property keys, in the order they were first set.
    pub fn property_keys(&self) -> (r: Vec<&String>)
        ensures
            borrowed_texts(r@) == self.properties.key_seq(),
    {
        keys_of(&self.properties)
    }

    /// Whether the edge has no properties.
    pub fn is_empty(&self) -> (r: bool)
        ensures
            r == (self.properties.map().dom().len() == 0),
    {
        self.properties.len() == 0
    }

    /// The node at the other end from `node_id`, if the edge touches it.
    pub fn other_end(&self, node_id: NodeId) -> (r: Option<NodeId>)
        ensures
            r == if self.source == node_id {
                Some(self.target)
            } else if self.target == node_id {
                Some(self.source)
            } else {
                None::<NodeId>
            },
    {
        if self.source == node_id {
            Some(self.target)
        } else if self.target == node_id {
            Some(self.source)
        } else {
            None
        }
    }
}

/// Whether an edge has `n` at either end.
pub open spec fn touches(e: Edge, n: NodeId) -> bool {
    e.source == n || e.target == n
}

/// The edges of `edges` that do not touch `n`.
pub open spec fn edges_without(edges: Map<u64, Edge>, n: NodeId) -> Map<u64, Edge> {
    edges.restrict(edges.dom().filter(|k: u64| !touches(edges[k], n)))
}

/// The message of a missing endpoint: which end, the id, and "not found".
pub open spec fn missing_node_message(end: Seq<char>, id: u64) -> Seq<char> {
    end + " node "@ + decimal(id as nat) + " not found"@
}

/// Counts describing a graph.
#[derive(Debug, Clone)]
pub struct GraphStats {
    pub total_nodes: usize,
    pub total_edges: usize,
    pub cached_nodes: usize,
    pub cached_edges: usize,
}

/// An in-memory graph of nodes and edges, each found by its id.
pub struct Graph {
    nodes: IdMap<Node>,
    edges: IdMap<Edge>,
    next_node_id: u64,
    next_edge_id: u64,
}

impl Graph {
    #[verifier::type_invariant]
    spec fn ids_match_keys(self) -> bool {
        &&& forall|k: u64| #[trigger] self.nodes.map().contains_key(k) ==> self.nodes.map()[k].id.0 == k
        &&& forall|k: u64| #[trigger] self.edges.map().contains_key(k) ==> self.edges.map()[k].id.0 == k
    }

    /// Nodes by id.
    pub closed spec fn node_map(&self) -> Map<u64, Node> {
        self.nodes.map()
    }

    /// Edges by id.
    pub closed spec fn edge_map(&self) -> Map<u64, Edge> {
        self.edges.map()
    }

    /// Node ids in the order they entered the graph.
    pub closed spec fn node_order(&self) -> Seq<u64> {
        self.nodes.key_seq()
    }

    /// Edge ids in the order they entered the graph.
    pub closed spec fn edge_order(&self) -> Seq<u64> {
        self.edges.key_seq()
    }

    /// The id the next created node receives.
    pub closed spec fn next_node(&self) -> u64 {
        self.next_node_id
    }

    /// The id the next created edge receives.
    pub closed spec fn next_edge(&self) -> u64 {
        self.next_edge_id
    }

    /// The node ids in entry order are exactly the node ids of the graph,
    /// and likewise for edges.
    pub proof fn lemma_orders_are_domains(&self)
        ensures
            forall|k: u64| #[trigger] self.node_map().contains_key(k) <==> self.node_order().contains(k),
            forall|k: u64| #[trigger] self.edge_map().contains_key(k) <==> self.edge_order().contains(k),
    {
        self.nodes.lemma_keys_are_domain();
        self.edges.lemma_keys_are_domain();
    }

    /// Every edge joins two nodes of the graph.
    pub open spec fn edges_attached(&self) -> bool {
        forall|k: u64| #[trigger] self.edge_map().contains_key(k) ==> self.node_map().contains_key(self.edge_map()[k].source.0)
            && self.node_map().contains_key(self.edge_map()[k].target.0)
    }

    /// The nodes in entry order.
    pub open spec fn node_list(&self) -> Seq<Node> {
        self.node_order().map_values(|k: u64| self.node_map()[k])
    }

    /// The edges in entry order.
    pub open spec fn edge_list(&self) -> Seq<Edge> {
        self.edge_order().map_values(|k: u64| self.edge_map()[k])
    }

    /// An empty graph.
    pub fn new() -> (g: Self)
        ensures
            g.node_map() == Map::<u64, Node>::empty(),
            g.edge_map() == Map::<u64, Edge>::empty(),
            g.node_order() == Seq::<u64>::empty(),
            g.edge_order() == Seq::<u64>::empty(),
            g.next_node() == 0,
            g.next_edge() == 0,
    {
        Graph { nodes: IdMap::new(), edges: IdMap::new(), next_node_id: 0, next_edge_id: 0 }
    }

    /// Create a node with the given labels under the next node id.
    pub fn create_node(&mut self, labels: Vec<String>) -> (r: Result<NodeId, Error>)
        requires
            old(self).next_node() < u64::MAX,
        ensures
            r == Ok::<NodeId, Error>(NodeId(old(self).next_node())),
            final(self).next_node() == old(self).next_node() + 1,
            final(self).next_edge() == old(self).next_edge(),
            final(self).node_map().contains_key(old(self).next_node()),
            final(self).node_map() == old(self).node_map().insert(
                old(self).next_node(),
                final(self).node_map()[old(self).next_node()],
            ),
            final(self).node_map()[old(self).next_node()].id == NodeId(old(self).next_node()),
            final(self).node_map()[old(self).next_node()].labels == labels,
            final(self).node_map()[old(self).next_node()].properties.map() == Map::<Seq<char>, PropertyValue>::empty(),
            final(self).edge_map() == old(self).edge_map(),
            final(self).edge_order() == old(self).edge_order(),
    {
        proof {
            use_type_invariant(&*self);
        }
        let node_id = NodeId::new(self.next_node_id);
        self.next_node_id = self.next_node_id + 1;
        let node = Node::new(node_id, labels);
        let ghost made = node;
        let mut nodes = IdMap::new();
        std::mem::swap(&mut nodes, &mut self.nodes);
        nodes.insert(node_id.0, node);
        self.nodes = nodes;
        proof {
            assert(self.nodes.map() == old(self).nodes.map().insert(node_id.0, made));
        }
        Ok(node_id)
    }

    /// The node with the given id.
    pub fn get_node(&self, node_id: NodeId) -> (r: Result<Option<&Node>, Error>)
        ensures
            match r {
                Ok(Some(n)) => self.node_map().contains_key(node_id.0) && self.node_map()[node_id.0] == *n
                    && n.id == node_id,
                Ok(None) => !self.node_map().contains_key(node_id.0),
                Err(_) => false,
            },
    {
        proof {
            use_type_invariant(&*self);
        }
        Ok(self.nodes.get(node_id.0))
    }

    /// Store `node` under its id, replacing any node there.
    pub fn update_node(&mut self, node: Node) -> (r: Result<(), Error>)
        ensures
            r is Ok,
            final(self).node_map() == old(self).node_map().insert(node.id.0, node),
            final(self).edge_map() == old(self).edge_map(),
            final(self).edge_order() == old(self).edge_order(),
            final(self).next_node() == old(self).next_node(),
            final(self).next_edge() == old(self).next_edge(),
    {
        proof {
            use_type_invariant(&*self);
        }
        let k = node.id.0;
        let mut nodes = IdMap::new();
        std::mem::swap(&mut nodes, &mut self.nodes);
        nodes.insert(k, node);
        self.nodes = nodes;
        Ok(())
    }

    /// Delete a node and every edge touching it; whether the node existed.
    pub fn delete_node(&mut self, node_id: NodeId) -> (r: Result<bool, Error>)
        ensures
            r == Ok::<bool, Error>(old(self).node_map().contains_key(node_id.0)),
            final(self).node_map() == old(self).node_map().remove(node_id.0),
            old(self).node_map().contains_key(node_id.0) ==> final(self).edge_map() == edges_without(
                old(self).edge_map(),
                node_id,
            ),
            !old(self).node_map().contains_key(node_id.0) ==> final(self).edge_map() == old(self).edge_map(),
            old(self).node_order().contains(node_id.0) ==> final(self).node_order() == old(self).node_order().remove(
                old(self).node_order().index_of(node_id.0),
            ),
            !old(self).node_order().contains(node_id.0) ==> final(self).node_order() == old(self).node_order()
                && final(self).edge_order() == old(self).edge_order(),
            old(self).edges_attached() ==> final(self).edges_attached(),
            final(self).next_node() == old(self).next_node(),
            final(self).next_edge() == old(self).next_edge(),
    {
        proof {
            use_type_invariant(&*self);
            self.lemma_orders_are_domains();
        }
        let mut nodes = IdMap::new();
        std::mem::swap(&mut nodes, &mut self.nodes);
        let removed = nodes.remove(node_id.0);
        self.nodes = nodes;
        match removed {
            Some(_node) => {
                self.remove_edges_touching(node_id);
                Ok(true)
            },
            None => Ok(false),
        }
    }

    fn remove_edges_touching(&mut self, node_id: NodeId)
        ensures
            final(self).edge_map() == edges_without(old(self).edge_map(), node_id),
            final(self).node_map() == old(self).node_map(),
            final(self).node_order() == old(self).node_order(),
            final(self).next_node() == old(self).next_node(),
            final(self).next_edge() == old(self).next_edge(),
    {
        proof {
            use_type_invariant(&*self);
        }
        let ghost old_edges = self.edges.map();
        let ghost ks = self.edges.key_seq();
        let n = self.edges.len();
        let mut doomed: Vec<u64> = Vec::new();
        let mut i: usize = 0;
        while i < n
            invariant
                n == ks.len(),
                i <= n,
                ks == self.edges.key_seq(),
                old_edges == self.edges.map(),
                forall|k: u64| #[trigger] old_edges.contains_key(k) <==> ks.contains(k),
                forall|x: u64| #[trigger] doomed@.contains(x) <==> (ks.take(i as int).contains(x)
                    && touches(old_edges[x], node_id)),
            decreases n - i,
        {
            let (k, e) = self.edges.entry_at(i);
            let hit = e.source == node_id || e.target == node_id;
            proof {
                assert(ks.take(i as int + 1) =~= ks.take(i as int).push(k));
            }
            let ghost before = doomed@;
            if hit {
                doomed.push(k);
            }
            proof {
                assert(ks[i as int] == k);
                assert forall|x: u64| #[trigger] doomed@.contains(x) <==> (ks.take(i as int + 1).contains(x)
                    && touches(old_edges[x], node_id)) by {
                    if hit {
                        assert(doomed@ =~= before.push(k));
                        assert(doomed@[before.len() as int] == k);
                        if before.contains(x) {
                            let q = choose|q: int| 0 <= q < before.len() && before[q] == x;
                            assert(doomed@[q] == x);
                        }
                        if doomed@.contains(x) && x != k {
                            let q = choose|q: int| 0 <= q < doomed@.len() && doomed@[q] == x;
                            assert(before[q] == x);
                        }
                    }
                    let t = ks.take(i as int);
                    assert(ks.take(i as int + 1)[i as int] == k);
                    if t.contains(x) {
                        let q = choose|q: int| 0 <= q < t.len() && t[q] == x;
                        assert(ks.take(i as int + 1)[q] == x);
                    }
                    let t1 = ks.take(i as int + 1);
                    if t1.contains(x) && x != k {
                        let q = choose|q: int| 0 <= q < t1.len() && t1[q] == x;
                        assert(t[q] == x);
                    }
                }
            }
            i = i + 1;
        }
        proof {
            assert(ks.take(n as int) =~= ks);
        }
        let mut edges = IdMap::new();
        std::mem::swap(&mut edges, &mut self.edges);
        let mut j: usize = 0;
        while j < doomed.len()
            invariant
                j <= doomed@.len(),
                forall|x: u64| #[trigger] doomed@.contains(x) <==> (old_edges.contains_key(x)
                    && touches(old_edges[x], node_id)),
                edges.map() =~= Map::new(
                    |k: u64| old_edges.contains_key(k) && !doomed@.take(j as int).contains(k),
                    |k: u64| old_edges[k],
                ),
                self.nodes == old(self).nodes,
                forall|k: u64| #[trigger] old_edges.contains_key(k) ==> old_edges[k].id.0 == k,
                forall|k: u64| #[trigger] self.nodes.map().contains_key(k) ==> self.nodes.map()[k].id.0 == k,
                self.next_node_id == old(self).next_node_id,
                self.next_edge_id == old(self).next_edge_id,
            decreases doomed@.len() - j,
        {
            let d = doomed[j];
            let ghost before = edges.map();
            edges.remove(d);
            proof {
                let t = doomed@.take(j as int);
                let t2 = doomed@.take(j as int + 1);
                assert(t2 =~= t.push(d));
                assert forall|k: u64| #[trigger] t2.contains(k) <==> (t.contains(k) || k == d) by {
                    assert(t2[j as int] == d);
                    if t.contains(k) {
                        let q = choose|q: int| 0 <= q < t.len() && t[q] == k;
                        assert(t2[q] == k);
                    }
                    if t2.contains(k) && k != d {
                        let q = choose|q: int| 0 <= q < t2.len() && t2[q] == k;
                        assert(t[q] == k);
                    }
                }
                assert(edges.map() =~= Map::new(
                    |k: u64| old_edges.contains_key(k) && !t2.contains(k),
                    |k: u64| old_edges[k],
                ));
            }
            j = j + 1;
        }
        proof {
            assert(doomed@.take(j as int) =~= doomed@);
            assert(edges.map() =~= edges_without(old_edges, node_id));
        }
        self.edges = edges;
    }

    /// Create an edge between two existing nodes under the next edge id.
    pub fn create_edge(&mut self, source: NodeId, target: NodeId, relationship_type: String) -> (r: Result<
        EdgeId,
        Error,
    >)
        requires
            old(self).next_edge() < u64::MAX,
        ensures
            r is Ok <==> (old(self).node_map().contains_key(source.0) && old(self).node_map().contains_key(
                target.0,
            )),
            !old(self).node_map().contains_key(source.0) ==> (r matches Err(Error::NotFound(m)) && m@
                == missing_node_message("Source"@, source.0)),
            old(self).node_map().contains_key(source.0) && !old(self).node_map().contains_key(target.0) ==> (
            r matches Err(Error::NotFound(m)) && m@ == missing_node_message("Target"@, target.0)),
            r is Err ==> *final(self) == *old(self),
            r is Ok ==> {
                &&& r == Ok::<EdgeId, Error>(EdgeId(old(self).next_edge()))
                &&& final(self).next_edge() == old(self).next_edge() + 1
                &&& final(self).edge_map().contains_key(old(self).next_edge())
                &&& final(self).edge_map() == old(self).edge_map().insert(
                    old(self).next_edge(),
                    final(self).edge_map()[old(self).next_edge()],
                )
                &&& final(self).edge_map()[old(self).next_edge()].id == EdgeId(old(self).next_edge())
                &&& final(self).edge_map()[old(self).next_edge()].source == source
                &&& final(self).edge_map()[old(self).next_edge()].target == target
                &&& final(self).edge_map()[old(self).next_edge()].relationship_type == relationship_type
                &&& final(self).edge_map()[old(self).next_edge()].properties.map() == Map::<
                    Seq<char>,
                    PropertyValue,
                >::empty()
                &&& final(self).node_map() == old(self).node_map()
                &&& final(self).node_order() == old(self).node_order()
                &&& final(self).next_node() == old(self).next_node()
            },
    {
        proof {
            use_type_invariant(&*self);
        }
        if !self.nodes.contains_key(source.0) {
            return Err(Error::NotFound(missing_node_text("Source", source.0)));
        }
        if !self.nodes.contains_key(target.0) {
            return Err(Error::NotFound(missing_node_text("Target", target.0)));
        }
        let edge_id = EdgeId::new(self.next_edge_id);
        self.next_edge_id = self.next_edge_id + 1;
        let edge = Edge::new(edge_id, source, target, relationship_type);
        let ghost made = edge;
        let mut edges = IdMap::new();
        std::mem::swap(&mut edges, &mut self.edges);
        edges.insert(edge_id.0, edge);
        self.edges = edges;
        proof {
            assert(self.edges.map() == old(self).edges.map().insert(edge_id.0, made));
        }
        Ok(edge_id)
    }

    /// The edge with the given id.
    pub fn get_edge(&self, edge_id: EdgeId) -> (r: Result<Option<&Edge>, Error>)
        ensures
            match r {
                Ok(Some(e)) => self.edge_map().contains_key(edge_id.0) && self.edge_map()[edge_id.0] == *e
                    && e.id == edge_id,
                Ok(None) => !self.edge_map().contains_key(edge_id.0),
                Err(_) => false,
            },
    {
        proof {
            use_type_invariant(&*self);
        }
        Ok(self.edges.get(edge_id.0))
    }

    /// Store `edge` under its id, replacing any edge there.
    pub fn update_edge(&mut self, edge: Edge) -> (r: Result<(), Error>)
        ensures
            r is Ok,
            final(self).edge_map() == old(self).edge_map().insert(edge.id.0, edge),
            final(self).node_map() == old(self).node_map(),
            final(self).node_order() == old(self).node_order(),
            final(self).next_node() == old(self).next_node(),
            final(self).next_edge() == old(self).next_edge(),
    {
        proof {
            use_type_invariant(&*self);
        }
        let k = edge.id.0;
        let mut edges = IdMap::new();
        std::mem::swap(&mut edges, &mut self.edges);
        edges.insert(k, edge);
        self.edges = edges;
        Ok(())
    }

    /// Delete an edge; whether it existed.
    pub fn delete_edge(&mut self, edge_id: EdgeId) -> (r: Result<bool, Error>)
        ensures
            r == Ok::<bool, Error>(old(self).edge_map().contains_key(edge_id.0)),
            final(self).edge_map() == old(self).edge_map().remove(edge_id.0),
            final(self).node_map() == old(self).node_map(),
            final(self).node_order() == old(self).node_order(),
            final(self).next_node() == old(self).next_node(),
            final(self).next_edge() == old(self).next_edge(),
    {
        proof {
            use_type_invariant(&*self);
        }
        let mut edges = IdMap::new();
        std::mem::swap(&mut edges, &mut self.edges);
        let removed = edges.remove(edge_id.0);
        self.edges = edges;
        Ok(removed.is_some())
    }

    /// Every node, in entry order.
    pub fn get_all_nodes(&self) -> (r: Result<Vec<&Node>, Error>)
        ensures
            self.node_order().no_duplicates(),
            forall|k: u64| #[trigger] self.node_map().contains_key(k) <==> self.node_order().contains(k),
            match r {
                Ok(v) => v@.map_values(|n: &Node| *n) == self.node_list() && forall|i: int|
                    0 <= i < self.node_order().len() ==> #[trigger] self.node_list()[i].id.0 == self.node_order()[i],
                Err(_) => false,
            },
    {
        proof {
            use_type_invariant(&*self);
        }
        let n = self.nodes.len();
        let mut out: Vec<&Node> = Vec::new();
        let mut i: usize = 0;
        while i < n
            invariant
                n == self.node_order().len(),
                i <= n,
                out@.map_values(|x: &Node| *x) =~= self.node_list().take(i as int),
            decreases n - i,
        {
            let (_k, v) = self.nodes.entry_at(i);
            let ghost before = out@;
            out.push(v);
            proof {
                lemma_deref_push(before, v);
                assert(out@ =~= before.push(v));
                assert(self.node_list().take(i as int + 1) =~= self.node_list().take(i as int).push(self.node_list()[i as int]));
            }
            i = i + 1;
        }
        proof {
            assert(self.node_list().take(n as int) =~= self.node_list());
            assert forall|i: int| 0 <= i < self.node_order().len() implies #[trigger] self.node_list()[i].id.0
                == self.node_order()[i] by {
                assert(self.node_order().contains(self.node_order()[i]));
                assert(self.nodes.map().contains_key(self.node_order()[i]));
                assert(self.node_list()[i] == self.nodes.map()[self.node_order()[i]]);
            }
        }
        Ok(out)
    }

    /// Every edge, in entry order.
    pub fn get_all_edges(&self) -> (r: Result<Vec<&Edge>, Error>)
        ensures
            self.edge_order().no_duplicates(),
            forall|k: u64| #[trigger] self.edge_map().contains_key(k) <==> self.edge_order().contains(k),
            match r {
                Ok(v) => v@.map_values(|e: &Edge| *e) == self.edge_list() && forall|i: int|
                    0 <= i < self.edge_order().len() ==> #[trigger] self.edge_list()[i].id.0 == self.edge_order()[i],
                Err(_) => false,
            },
    {
        proof {
            use_type_invariant(&*self);
        }
        let n = self.edges.len();
        let mut out: Vec<&Edge> = Vec::new();
        let mut i: usize = 0;
        while i < n
            invariant
                n == self.edge_order().len(),
                i <= n,
                out@.map_values(|x: &Edge| *x) =~= self.edge_list().take(i as int),
            decreases n - i,
        {
            let (_k, v) = self.edges.entry_at(i);
            let ghost before = out@;
            out.push(v);
            proof {
                lemma_deref_push(before, v);
                assert(out@ =~= before.push(v));
                assert(self.edge_list().take(i as int + 1) =~= self.edge_list().take(i as int).push(self.edge_list()[i as int]));
            }
            i = i + 1;
        }
        proof {
            assert(self.edge_list().take(n as int) =~= self.edge_list());
            assert forall|i: int| 0 <= i < self.edge_order().len() implies #[trigger] self.edge_list()[i].id.0
                == self.edge_order()[i] by {
                assert(self.edge_order().contains(self.edge_order()[i]));
                assert(self.edges.map().contains_key(self.edge_order()[i]));
                assert(self.edge_list()[i] == self.edges.map()[self.edge_order()[i]]);
            }
        }
        Ok(out)
    }

    /// The nodes carrying `label`, in entry order.
    pub fn get_nodes_by_label(&self, label: &str) -> (r: Result<Vec<&Node>, Error>)
        ensures
            match r {
                Ok(v) => v@.map_values(|n: &Node| *n) == self.node_list().filter(
                    |n: Node| n.carries_label(label@),
                ),
                Err(_) => false,
            },
    {
        let ghost pred = |n: Node| n.carries_label(label@);
        let n = self.nodes.len();
        let mut out: Vec<&Node> = Vec::new();
        let mut i: usize = 0;
        while i < n
            invariant
                n == self.node_order().len(),
                i <= n,
                pred == (|n: Node| n.carries_label(label@)),
                out@.map_values(|x: &Node| *x) =~= self.node_list().take(i as int).filter(pred),
            decreases n - i,
        {
            let (_k, v) = self.nodes.entry_at(i);
            let ghost before = out@;
            proof {
                let s = self.node_list().take(i as int + 1);
                assert(s.drop_last() =~= self.node_list().take(i as int));
                assert(s.last() == *v);
            }
            let hit = v.has_label(label);
            if hit {
                out.push(v);
                proof {
                    lemma_deref_push(before, v);
                    assert(out@ =~= before.push(v));
                }
            }
            proof {
                let s = self.node_list().take(i as int + 1);
                assert(hit == pred(s.last()));
                assert(s.filter(pred) == (if pred(s.last()) {
                    s.drop_last().filter(pred).push(s.last())
                } else {
                    s.drop_last().filter(pred)
                })) by {
                    reveal(Seq::filter);
                }
                assert(out@.map_values(|x: &Node| *x) =~= s.filter(pred));
            }
            i = i + 1;
        }
        proof {
            assert(self.node_list().take(n as int) =~= self.node_list());
        }
        Ok(out)
    }

    /// The edges of the given relationship type, in entry order.
    pub fn get_edges_by_type(&self, relationship_type: &str) -> (r: Result<Vec<&Edge>, Error>)
        ensures
            match r {
                Ok(v) => v@.map_values(|e: &Edge| *e) == self.edge_list().filter(
                    |e: Edge| e.relationship_type@ == relationship_type@,
                ),
                Err(_) => false,
            },
    {
        let ghost pred = |e: Edge| e.relationship_type@ == relationship_type@;
        let wanted = String::from_str(relationship_type);
        let n = self.edges.len();
        let mut out: Vec<&Edge> = Vec::new();
        let mut i: usize = 0;
        while i < n
            invariant
                n == self.edge_order().len(),
                i <= n,
                wanted@ == relationship_type@,
                pred == (|e: Edge| e.relationship_type@ == relationship_type@),
                out@.map_values(|x: &Edge| *x) =~= self.edge_list().take(i as int).filter(pred),
            decreases n - i,
        {
            let (_k, v) = self.edges.entry_at(i);
            let ghost before = out@;
            proof {
                let s = self.edge_list().take(i as int + 1);
                assert(s.drop_last() =~= self.edge_list().take(i as int));
                assert(s.last() == *v);
            }
            let hit = v.relationship_type.eq(&wanted);
            if hit {
                out.push(v);
                proof {
                    lemma_deref_push(before, v);
                    assert(out@ =~= before.push(v));
                }
            }
            proof {
                let s = self.edge_list().take(i as int + 1);
                assert(hit == pred(s.last()));
                assert(s.filter(pred) == (if pred(s.last()) {
                    s.drop_last().filter(pred).push(s.last())
                } else {
                    s.drop_last().filter(pred)
                })) by {
                    reveal(Seq::filter);
                }
                assert(out@.map_values(|x: &Edge| *x) =~= s.filter(pred));
            }
            i = i + 1;
        }
        proof {
            assert(self.edge_list().take(n as int) =~= self.edge_list());
        }
        Ok(out)
    }

    /// The edges touching `node_id`, in entry order.
    pub fn get_edges_for_node(&self, node_id: NodeId) -> (r: Result<Vec<&Edge>, Error>)
        ensures
            match r {
                Ok(v) => v@.map_values(|e: &Edge| *e) == self.edge_list().filter(|e: Edge| touches(e, node_id)),
                Err(_) => false,
            },
    {
        let ghost pred = |e: Edge| touches(e, node_id);
        let n = self.edges.len();
        let mut out: Vec<&Edge> = Vec::new();
        let mut i: usize = 0;
        while i < n
            invariant
                n == self.edge_order().len(),
                i <= n,
                pred == (|e: Edge| touches(e, node_id)),
                out@.map_values(|x: &Edge| *x) =~= self.edge_list().take(i as int).filter(pred),
            decreases n - i,
        {
            let (_k, v) = self.edges.entry_at(i);
            let ghost before = out@;
            proof {
                let s = self.edge_list().take(i as int + 1);
                assert(s.drop_last() =~= self.edge_list().take(i as int));
                assert(s.last() == *v);
            }
            let hit = v.source == node_id || v.target == node_id;
            if hit {
                out.push(v);
                proof {
                    lemma_deref_push(before, v);
                    assert(out@ =~= before.push(v));
                }
            }
            proof {
                let s = self.edge_list().take(i as int + 1);
                assert(hit == pred(s.last()));
                assert(s.filter(pred) == (if pred(s.last()) {
                    s.drop_last().filter(pred).push(s.last())
                } else {
                    s.drop_last().filter(pred)
                })) by {
                    reveal(Seq::filter);
                }
                assert(out@.map_values(|x: &Edge| *x) =~= s.filter(pred));
            }
            i = i + 1;
        }
        proof {
            assert(self.edge_list().take(n as int) =~= self.edge_list());
        }
        Ok(out)
    }

    /// Number of nodes.
    pub fn node_count(&self) -> (r: Result<usize, Error>)
        ensures
            match r {
                Ok(c) => c == self.node_map().dom().len(),
                Err(_) => false,
            },
    {
        Ok(self.nodes.len())
    }

    /// Number of edges.
    pub fn edge_count(&self) -> (r: Result<usize, Error>)
        ensures
            match r {
                Ok(c) => c == self.edge_map().dom().len(),
                Err(_) => false,
            },
    {
        Ok(self.edges.len())
    }

    /// Remove every node and edge and restart both id counters.
    pub fn clear(&mut self)
        ensures
            final(self).node_map() == Map::<u64, Node>::empty(),
            final(self).edge_map() == Map::<u64, Edge>::empty(),
            final(self).node_order() == Seq::<u64>::empty(),
            final(self).edge_order() == Seq::<u64>::empty(),
            final(self).next_node() == 0,
            final(self).next_edge() == 0,
    {
        proof {
            use_type_invariant(&*self);
        }
        self.nodes = IdMap::new();
        self.edges = IdMap::new();
        self.next_node_id = 0;
        self.next_edge_id = 0;
    }

    /// Node and edge counts.
    pub fn stats(&self) -> (r: Result<GraphStats, Error>)
        ensures
            match r {
                Ok(s) => s.total_nodes == self.node_map().dom().len() && s.total_edges
                    == self.edge_map().dom().len() && s.cached_nodes == self.node_map().dom().len()
                    && s.cached_edges == self.edge_map().dom().len(),
                Err(_) => false,
            },
    {
        let n = self.nodes.len();
        let m = self.edges.len();
        Ok(GraphStats { total_nodes: n, total_edges: m, cached_nodes: n, cached_edges: m })
    }
}

impl Default for Graph {
    fn default() -> (g: Self)
        ensures
            g.node_map() == Map::<u64, Node>::empty(),
            g.edge_map() == Map::<u64, Edge>::empty(),
            g.next_node() == 0,
            g.next_edge() == 0,
    {
        Graph::new()
    }
}

fn missing_node_text(end: &str, id: u64) -> (s: String)
    ensures
        s@ == missing_node_message(end@, id),
{
    let digits = u64_to_decimal(id);
    let s = String::from_str(end).concat(" node ");
    let s = s.concat(digits.as_str());
    let s = s.concat(" not found");
    proof {
        reveal_strlit(" node ");
        reveal_strlit(" not found");
    }
    s
}

} // verus!
