//! The correlation graph itself: typed nodes and edges identified by strings.

use super::{EdgeType, GraphType, NodeType};
use crate::error::Error;
use crate::str_map::StrMap;
use vstd::prelude::*;

verus! {

/// Current wall-clock time in milliseconds since the Unix epoch: the system
/// clock's reading (`SystemTime::now`, `duration_since(UNIX_EPOCH)`) made a
/// chrono time with `DateTime::from_timestamp`, read back with
/// `timestamp_millis`. `None` when the clock reads before the epoch or beyond
/// chrono's range, where `Utc::now` would panic. Nothing is stated of the
/// value, which depends on the clock.
#[verifier::external_body]
pub(crate) fn now_millis() -> Option<i64> {
    match std::time::SystemTime::now().duration_since(std::time::UNIX_EPOCH) {
        Ok(d) => match chrono::DateTime::from_timestamp(d.as_secs() as i64, d.subsec_nanos()) {
            Some(t) => Some(t.timestamp_millis()),
            None => None,
        },
        Err(_) => None,
    }
}

/// Graph node; its position and size for drawing are kept by the caller.
#[derive(Debug, Clone)]
pub struct GraphNode {
    /// Unique node identifier
    pub id: String,
    /// Node type
    pub node_type: NodeType,
    /// Human-readable label
    pub label: String,
    /// Text-valued metadata
    pub metadata: StrMap<String>,
    /// Node color for visualization
    pub color: Option<String>,
}

/// Graph edge; the weight is the bit pattern of an `f32` (`f32::to_bits`).
#[derive(Debug, Clone)]
pub struct GraphEdge {
    /// Unique edge identifier
    pub id: String,
    /// Source node ID
    pub source: String,
    /// Target node ID
    pub target: String,
    /// Edge type
    pub edge_type: EdgeType,
    /// Edge weight (strength of relationship), as `f32` bits
    pub weight_bits: u32,
    /// Text-valued metadata
    pub metadata: StrMap<String>,
    /// Edge label for visualization
    pub label: Option<String>,
}

/// Complete correlation graph
#[derive(Debug)]
pub struct CorrelationGraph {
    /// Graph type
    pub graph_type: GraphType,
    /// Graph name/title
    pub name: String,
    /// Graph description
    pub description: Option<String>,
    /// All nodes in the graph
    pub nodes: Vec<GraphNode>,
    /// All edges in the graph
    pub edges: Vec<GraphEdge>,
    /// Graph metadata
    pub metadata: StrMap<serde_json::Value>,
    /// Creation timestamp (milliseconds since the Unix epoch; 0 when the
    /// clock could not be read)
    pub created_at: i64,
    /// Last update timestamp (milliseconds since the Unix epoch); left as it
    /// was when the clock could not be read
    pub updated_at: i64,
}

/// Ids of a sequence of nodes.
pub open spec fn node_ids(nodes: Seq<GraphNode>) -> Seq<Seq<char>> {
    nodes.map_values(|n: GraphNode| n.id@)
}

/// Ids of a sequence of edges.
pub open spec fn edge_ids(edges: Seq<GraphEdge>) -> Seq<Seq<char>> {
    edges.map_values(|e: GraphEdge| e.id@)
}

/// The edges, in order, that start or end at node `id`.
pub open spec fn edges_at(edges: Seq<GraphEdge>, id: Seq<char>) -> Seq<GraphEdge>
    decreases edges.len(),
{
    if edges.len() == 0 {
        Seq::empty()
    } else {
        let rest = edges_at(edges.drop_last(), id);
        if edges.last().source@ == id || edges.last().target@ == id {
            rest.push(edges.last())
        } else {
            rest
        }
    }
}

/// Largest number of edges at any of the first `n` nodes (0 when none).
pub open spec fn max_degree_upto(nodes: Seq<GraphNode>, edges: Seq<GraphEdge>, n: int) -> nat
    decreases n,
{
    if n <= 0 {
        0
    } else {
        let d = edges_at(edges, nodes[n - 1].id@).len();
        let m = max_degree_upto(nodes, edges, n - 1);
        if d > m { d } else { m }
    }
}

fn str_eq(a: &String, b: &String) -> (r: bool)
    ensures
        r == (a@ == b@),
{
    a.eq(b)
}

fn concat_message(prefix: &str, detail: &String) -> (s: String)
    ensures
        s@ == prefix@ + detail@,
{
    String::from_str(prefix).concat(detail.as_str())
}

impl CorrelationGraph {
    /// Create a new correlation graph
    pub fn new(graph_type: GraphType, name: String) -> (g: Self)
        ensures
            g.graph_type == graph_type,
            g.name == name,
            g.description is None,
            g.nodes@.len() == 0,
            g.edges@.len() == 0,
            g.metadata.map() == Map::<Seq<char>, serde_json::Value>::empty(),
            g.created_at == g.updated_at,
    {
        let now = match now_millis() {
            Some(t) => t,
            None => 0,
        };
        CorrelationGraph {
            graph_type,
            name,
            description: None,
            nodes: Vec::new(),
            edges: Vec::new(),
            metadata: StrMap::new(),
            created_at: now,
            updated_at: now,
        }
    }

    pub(crate) fn has_node_id(&self, id: &String) -> (r: bool)
        ensures
            r == node_ids(self.nodes@).contains(id@),
    {
        let mut i: usize = 0;
        while i < self.nodes.len()
            invariant
                i <= self.nodes@.len(),
                forall|k: int| 0 <= k < i ==> self.nodes@[k].id@ != id@,
            decreases self.nodes@.len() - i,
        {
            if str_eq(&self.nodes[i].id, id) {
                proof {
                    assert(node_ids(self.nodes@)[i as int] == id@);
                }
                return true;
            }
            i = i + 1;
        }
        proof {
            assert forall|k: int| 0 <= k < node_ids(self.nodes@).len() implies node_ids(self.nodes@)[k] != id@ by {
                assert(node_ids(self.nodes@)[k] == self.nodes@[k].id@);
            }
        }
        false
    }

    fn has_edge_id(&self, id: &String) -> (r: bool)
        ensures
            r == edge_ids(self.edges@).contains(id@),
    {
        let mut i: usize = 0;
        while i < self.edges.len()
            invariant
                i <= self.edges@.len(),
                forall|k: int| 0 <= k < i ==> self.edges@[k].id@ != id@,
            decreases self.edges@.len() - i,
        {
            if str_eq(&self.edges[i].id, id) {
                proof {
                    assert(edge_ids(self.edges@)[i as int] == id@);
                }
                return true;
            }
            i = i + 1;
        }
        proof {
            assert forall|k: int| 0 <= k < edge_ids(self.edges@).len() implies edge_ids(self.edges@)[k] != id@ by {
                assert(edge_ids(self.edges@)[k] == self.edges@[k].id@);
            }
        }
        false
    }

    /// Add a node to the graph; a node whose id is already present is refused.
    pub fn add_node(&mut self, node: GraphNode) -> (r: Result<(), Error>)
        ensures
            final(self).edges@ == old(self).edges@,
            final(self).graph_type == old(self).graph_type,
            final(self).name == old(self).name,
            final(self).description == old(self).description,
            node_ids(old(self).nodes@).contains(node.id@) ==> final(self).nodes@ == old(self).nodes@
                && (r matches Err(e) && e == Error::GraphCorrelation(e->GraphCorrelation_0)
                && e->GraphCorrelation_0@ == "Duplicate node ID: "@ + node.id@),
            !node_ids(old(self).nodes@).contains(node.id@) ==> r is Ok && final(self).nodes@ == old(self).nodes@.push(node),
    {
        if self.has_node_id(&node.id) {
            return Err(Error::GraphCorrelation(concat_message("Duplicate node ID: ", &node.id)));
        }
        self.nodes.push(node);
        if let Some(t) = now_millis() {
            self.updated_at = t;
        }
        Ok(())
    }

    /// Add an edge to the graph; refused when its id is taken or an endpoint is missing.
    pub fn add_edge(&mut self, edge: GraphEdge) -> (r: Result<(), Error>)
        ensures
            final(self).nodes@ == old(self).nodes@,
            final(self).graph_type == old(self).graph_type,
            final(self).name == old(self).name,
            final(self).description == old(self).description,
            r is Ok <==> (!edge_ids(old(self).edges@).contains(edge.id@)
                && node_ids(old(self).nodes@).contains(edge.source@)
                && node_ids(old(self).nodes@).contains(edge.target@)),
            r is Ok ==> final(self).edges@ == old(self).edges@.push(edge),
            r is Err ==> final(self).edges@ == old(self).edges@,
            edge_ids(old(self).edges@).contains(edge.id@) ==> (r matches Err(Error::GraphCorrelation(m))
                && m@ == "Duplicate edge ID: "@ + edge.id@),
            !edge_ids(old(self).edges@).contains(edge.id@) && !node_ids(old(self).nodes@).contains(edge.source@)
                ==> (r matches Err(Error::GraphCorrelation(m)) && m@ == "Source node not found: "@ + edge.source@),
            !edge_ids(old(self).edges@).contains(edge.id@) && node_ids(old(self).nodes@).contains(edge.source@)
                && !node_ids(old(self).nodes@).contains(edge.target@)
                ==> (r matches Err(Error::GraphCorrelation(m)) && m@ == "Target node not found: "@ + edge.target@),
    {
        if self.has_edge_id(&edge.id) {
            return Err(Error::GraphCorrelation(concat_message("Duplicate edge ID: ", &edge.id)));
        }
        if !self.has_node_id(&edge.source) {
            return Err(Error::GraphCorrelation(concat_message("Source node not found: ", &edge.source)));
        }
        if !self.has_node_id(&edge.target) {
            return Err(Error::GraphCorrelation(concat_message("Target node not found: ", &edge.target)));
        }
        self.edges.push(edge);
        if let Some(t) = now_millis() {
            self.updated_at = t;
        }
        Ok(())
    }

    /// Get node by ID: the first node with that id.
    pub fn get_node(&self, id: &String) -> (r: Option<&GraphNode>)
        ensures
            match r {
                Some(n) => n.id@ == id@ && exists|k: int| 0 <= k < self.nodes@.len() && self.nodes@[k] == *n
                    && forall|j: int| 0 <= j < k ==> self.nodes@[j].id@ != id@,
                None => !node_ids(self.nodes@).contains(id@),
            },
    {
        let mut i: usize = 0;
        while i < self.nodes.len()
            invariant
                i <= self.nodes@.len(),
                forall|k: int| 0 <= k < i ==> self.nodes@[k].id@ != id@,
            decreases self.nodes@.len() - i,
        {
            if str_eq(&self.nodes[i].id, id) {
                return Some(&self.nodes[i]);
            }
            i = i + 1;
        }
        proof {
            assert forall|k: int| 0 <= k < node_ids(self.nodes@).len() implies node_ids(self.nodes@)[k] != id@ by {
                assert(node_ids(self.nodes@)[k] == self.nodes@[k].id@);
            }
        }
        None
    }

    /// Get edge by ID: the first edge with that id.
    pub fn get_edge(&self, id: &String) -> (r: Option<&GraphEdge>)
        ensures
            match r {
                Some(e) => e.id@ == id@ && exists|k: int| 0 <= k < self.edges@.len() && self.edges@[k] == *e
                    && forall|j: int| 0 <= j < k ==> self.edges@[j].id@ != id@,
                None => !edge_ids(self.edges@).contains(id@),
            },
    {
        let mut i: usize = 0;
        while i < self.edges.len()
            invariant
                i <= self.edges@.len(),
                forall|k: int| 0 <= k < i ==> self.edges@[k].id@ != id@,
            decreases self.edges@.len() - i,
        {
            if str_eq(&self.edges[i].id, id) {
                return Some(&self.edges[i]);
            }
            i = i + 1;
        }
        proof {
            assert forall|k: int| 0 <= k < edge_ids(self.edges@).len() implies edge_ids(self.edges@)[k] != id@ by {
                assert(edge_ids(self.edges@)[k] == self.edges@[k].id@);
            }
        }
        None
    }

    /// Get all edges connected to a node, in insertion order.
    pub fn get_node_edges(&self, node_id: &String) -> (r: Vec<&GraphEdge>)
        ensures
            r@.len() == edges_at(self.edges@, node_id@).len(),
            forall|k: int| 0 <= k < r@.len() ==> *(#[trigger] r@[k]) == edges_at(self.edges@, node_id@)[k],
    {
        let mut r: Vec<&GraphEdge> = Vec::new();
        let mut i: usize = 0;
        while i < self.edges.len()
            invariant
                i <= self.edges@.len(),
                r@.len() == edges_at(self.edges@.subrange(0, i as int), node_id@).len(),
                forall|k: int| 0 <= k < r@.len() ==> *(#[trigger] r@[k]) == edges_at(self.edges@.subrange(0, i as int), node_id@)[k],
            decreases self.edges@.len() - i,
        {
            let e = &self.edges[i];
            proof {
                let pre = self.edges@.subrange(0, i as int + 1);
                assert(pre.drop_last() =~= self.edges@.subrange(0, i as int));
                assert(pre.last() == *e);
            }
            if str_eq(&e.source, node_id) || str_eq(&e.target, node_id) {
                r.push(e);
            }
            i = i + 1;
        }
        proof {
            assert(self.edges@.subrange(0, self.edges@.len() as int) =~= self.edges@);
        }
        r
    }

    /// Number of edges at the busiest node (0 for a graph without nodes).
    pub fn max_degree(&self) -> (d: usize)
        ensures
            d == max_degree_upto(self.nodes@, self.edges@, self.nodes@.len() as int),
    {
        let mut best: usize = 0;
        let mut i: usize = 0;
        while i < self.nodes.len()
            invariant
                i <= self.nodes@.len(),
                best == max_degree_upto(self.nodes@, self.edges@, i as int),
            decreases self.nodes@.len() - i,
        {
            let d = self.get_node_edges(&self.nodes[i].id).len();
            if d > best {
                best = d;
            }
            i = i + 1;
        }
        best
    }
}

} // verus!
