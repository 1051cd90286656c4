//! Adjacency-list graph with search, component, ordering and spanning-tree
//! algorithms.
//!
//! Edge weights are carried as the IEEE-754 bit pattern of the weight
//! (`f64::to_bits`); the traversal algorithms here never read them.

use crate::error::Error;
use std::collections::HashMap;
use vstd::prelude::*;

verus! {

broadcast use vstd::std_specs::hash::group_hash_axioms;

/// Graph representation for algorithms: for each node, in insertion order,
/// its outgoing `(neighbor, weight_bits)` pairs.
pub struct Graph {
    nodes: Vec<u64>,
    adjacency: Vec<Vec<(u64, u64)>>,
    node_labels: Vec<Option<Vec<String>>>,
    edge_types: Vec<(u64, u64, Vec<String>)>,
}

/// Target ids of a sequence of weighted out-edges.
pub open spec fn targets(s: Seq<(u64, u64)>) -> Seq<u64> {
    s.map_values(|e: (u64, u64)| e.0)
}

impl Graph {
    /// Structural invariant: node ids are distinct and every node has one
    /// adjacency list and one label slot.
    pub closed spec fn wf(&self) -> bool {
        &&& self.nodes@.no_duplicates()
        &&& self.adjacency@.len() == self.nodes@.len()
        &&& self.node_labels@.len() == self.nodes@.len()
    }

    /// Nodes in the order they were first added.
    pub closed spec fn node_seq(&self) -> Seq<u64> {
        self.nodes@
    }

    /// Outgoing edges of `n` in insertion order (empty when `n` is no node).
    pub closed spec fn out_edges(&self, n: u64) -> Seq<(u64, u64)> {
        if self.nodes@.contains(n) {
            self.adjacency@[self.nodes@.index_of(n)]@
        } else {
            Seq::empty()
        }
    }

    /// There is an edge from `a` to `b`.
    pub open spec fn has_edge(&self, a: u64, b: u64) -> bool {
        targets(self.out_edges(a)).contains(b)
    }

    /// `p` is a walk along edges of the graph.
    pub open spec fn is_path(&self, p: Seq<u64>) -> bool {
        &&& p.len() >= 1
        &&& forall|i: int| 0 <= i < p.len() - 1 ==> #[trigger] self.has_edge(p[i], p[i + 1])
    }

    /// There is a walk of exactly `d` edges from `s` to `v`.
    pub open spec fn reachable_in(&self, s: u64, v: u64, d: nat) -> bool {
        exists|p: Seq<u64>|
            #[trigger] self.is_path(p) && p[0] == s && p.last() == v && p.len() == d + 1
    }

    /// There is a walk from `s` to `v`.
    pub open spec fn reachable(&self, s: u64, v: u64) -> bool {
        exists|d: nat| #[trigger] self.reachable_in(s, v, d)
    }

    /// Create a new empty graph
    pub fn new() -> (g: Self)
        ensures
            g.wf(),
            g.types_wf(),
            g.node_seq() == Seq::<u64>::empty(),
    {
        let g = Graph { nodes: Vec::new(), adjacency: Vec::new(), node_labels: Vec::new(), edge_types: Vec::new() };
        proof {
            assert(type_keys(g.edge_types@) =~= Seq::<(u64, u64)>::empty());
        }
        g
    }

    fn position(&self, n: u64) -> (r: Option<usize>)
        requires
            self.wf(),
        ensures
            match r {
                Some(i) => i < self.nodes@.len() && self.nodes@[i as int] == n
                    && self.nodes@.index_of(n) == i as int && self.nodes@.contains(n),
                None => !self.nodes@.contains(n),
            },
    {
        let mut i: usize = 0;
        while i < self.nodes.len()
            invariant
                self.wf(),
                i <= self.nodes@.len(),
                forall|k: int| 0 <= k < i ==> self.nodes@[k] != n,
            decreases self.nodes@.len() - i,
        {
            if self.nodes[i] == n {
                proof {
                    let j = self.nodes@.index_of(n);
                    assert(self.nodes@.contains(n));
                    assert(self.nodes@[j] == n);
                    assert(j == i as int);
                }
                return Some(i);
            }
            i = i + 1;
        }
        None
    }

    /// Add a node to the graph; its labels replace any it had, its edges stay.
    pub fn add_node(&mut self, node_id: u64, labels: Vec<String>)
        requires
            old(self).wf(),
        ensures
            final(self).wf(),
            old(self).types_wf() ==> final(self).types_wf(),
            forall|a: u64, b: u64| #[trigger] final(self).types_of(a, b) == old(self).types_of(a, b),
            old(self).node_seq().contains(node_id) ==> final(self).node_seq() == old(self).node_seq(),
            !old(self).node_seq().contains(node_id) ==> final(self).node_seq() == old(self).node_seq().push(node_id),
            forall|n: u64| #[trigger] final(self).out_edges(n) == old(self).out_edges(n),
            final(self).labels_of(node_id) == Some(labels@),
            forall|n: u64| n != node_id ==> #[trigger] final(self).labels_of(n) == old(self).labels_of(n),
    {
        let ghost labels_view = labels@;
        match self.position(node_id) {
            Some(i) => {
                self.node_labels.set(i, Some(labels));
                proof {
                    assert forall|n: u64| #[trigger] self.out_edges(n) == old(self).out_edges(n) by {}
                    assert forall|n: u64| n != node_id implies #[trigger] self.labels_of(n) == old(self).labels_of(n) by {
                        if self.nodes@.contains(n) {
                            let j = self.nodes@.index_of(n);
                            assert(self.nodes@[j] == n);
                        }
                    }
                }
            },
            None => {
                self.nodes.push(node_id);
                self.adjacency.push(Vec::new());
                self.node_labels.push(Some(labels));
                proof {
                    let old_nodes = old(self).nodes@;
                    assert(self.nodes@ == old_nodes.push(node_id));
                    assert(self.nodes@[old_nodes.len() as int] == node_id);
                    lemma_index_of_push(old_nodes, node_id);
                    assert forall|n: u64| #[trigger] self.out_edges(n) == old(self).out_edges(n) by {
                        if n != node_id && old_nodes.contains(n) {
                            lemma_index_of_push_other(old_nodes, node_id, n);
                        }
                        if n == node_id {
                            assert(self.adjacency@[old_nodes.len() as int]@ == Seq::<(u64, u64)>::empty());
                        }
                        if n != node_id && !old_nodes.contains(n) {
                            assert(!self.nodes@.contains(n)) by {
                                if self.nodes@.contains(n) {
                                    let j = self.nodes@.index_of(n);
                                    assert(self.nodes@[j] == n);
                                    assert(j < old_nodes.len());
                                    assert(old_nodes[j] == n);
                                }
                            }
                        }
                    }
                    assert forall|n: u64| n != node_id implies #[trigger] self.labels_of(n) == old(self).labels_of(n) by {
                        if old_nodes.contains(n) {
                            lemma_index_of_push_other(old_nodes, node_id, n);
                        } else {
                            assert(!self.nodes@.contains(n)) by {
                                if self.nodes@.contains(n) {
                                    let j = self.nodes@.index_of(n);
                                    assert(self.nodes@[j] == n);
                                    assert(old_nodes[j] == n);
                                }
                            }
                        }
                    }
                }
            },
        }
    }

    /// Labels recorded for `n` by `add_node` (`None` when it has none).
    pub closed spec fn labels_of(&self, n: u64) -> Option<Seq<String>> {
        if self.nodes@.contains(n) {
            match self.node_labels@[self.nodes@.index_of(n)] {
                Some(v) => Some(v@),
                None => None,
            }
        } else {
            None
        }
    }

    /// Every id that occurs in the graph: the nodes and every edge target.
    pub closed spec fn universe(&self) -> Set<u64> {
        self.nodes@.to_set() + all_targets(self.adjacency@.map_values(|v: Vec<(u64, u64)>| v@)).to_set()
    }

    proof fn lemma_universe(&self)
        requires
            self.wf(),
        ensures
            self.universe().finite(),
            forall|n: u64| self.nodes@.contains(n) ==> #[trigger] self.universe().contains(n),
            forall|a: u64, b: u64| #[trigger] self.has_edge(a, b) ==> self.universe().contains(b),
    {
        let adj = self.adjacency@.map_values(|v: Vec<(u64, u64)>| v@);
        assert(self.nodes@.to_set().finite());
        assert(all_targets(adj).to_set().finite());
        assert forall|a: u64, b: u64| #[trigger] self.has_edge(a, b) implies self.universe().contains(b) by {
            let t = targets(self.out_edges(a));
            let k = choose|k: int| 0 <= k < t.len() && t[k] == b;
            assert(self.nodes@.contains(a));
            let i = self.nodes@.index_of(a);
            assert(self.nodes@[i] == a);
            assert(adj[i] == self.adjacency@[i]@);
            lemma_all_targets(adj, i, k);
            assert(all_targets(adj).contains(adj[i][k].0));
        }
        assert forall|n: u64| self.nodes@.contains(n) implies #[trigger] self.universe().contains(n) by {
            assert(self.nodes@.to_set().contains(n));
        }
    }

    /// Check if a node exists
    pub fn has_node(&self, node_id: u64) -> (b: bool)
        requires
            self.wf(),
        ensures
            b == self.node_seq().contains(node_id),
    {
        self.position(node_id).is_some()
    }

    /// Outgoing `(neighbor, weight_bits)` pairs of a node, empty for an unknown node.
    pub fn get_neighbors(&self, node_id: u64) -> (r: Vec<(u64, u64)>)
        requires
            self.wf(),
        ensures
            r@ == self.out_edges(node_id),
    {
        match self.position(node_id) {
            Some(i) => copy_pairs(&self.adjacency[i]),
            None => Vec::new(),
        }
    }

    /// Get all nodes in the graph, in the order they were added.
    pub fn get_nodes(&self) -> (r: Vec<u64>)
        ensures
            r@ == self.node_seq(),
    {
        self.nodes.clone()
    }
}

fn copy_pairs(v: &Vec<(u64, u64)>) -> (r: Vec<(u64, u64)>)
    ensures
        r@ == v@,
{
    let mut r: Vec<(u64, u64)> = Vec::new();
    let mut k: usize = 0;
    while k < v.len()
        invariant
            k <= v@.len(),
            r@ == v@.subrange(0, k as int),
        decreases v@.len() - k,
    {
        r.push(v[k]);
        k = k + 1;
    }
    assert(v@.subrange(0, v@.len() as int) == v@);
    r
}

/// Concatenated edge targets of a sequence of adjacency lists.
pub open spec fn all_targets(adj: Seq<Seq<(u64, u64)>>) -> Seq<u64>
    decreases adj.len(),
{
    if adj.len() == 0 {
        Seq::empty()
    } else {
        all_targets(adj.drop_last()) + targets(adj.last())
    }
}

proof fn lemma_all_targets(adj: Seq<Seq<(u64, u64)>>, i: int, k: int)
    requires
        0 <= i < adj.len(),
        0 <= k < adj[i].len(),
    ensures
        all_targets(adj).contains(adj[i][k].0),
    decreases adj.len(),
{
    let front = all_targets(adj.drop_last());
    let back = targets(adj.last());
    if i == adj.len() - 1 {
        assert((front + back)[front.len() + k] == back[k]);
    } else {
        lemma_all_targets(adj.drop_last(), i, k);
        let j = choose|j: int| 0 <= j < front.len() && front[j] == adj[i][k].0;
        assert((front + back)[j] == front[j]);
    }
}

proof fn lemma_index_of_push(s: Seq<u64>, x: u64)
    requires
        s.no_duplicates(),
        !s.contains(x),
    ensures
        s.push(x).no_duplicates(),
        s.push(x).contains(x),
        s.push(x).index_of(x) == s.len(),
{
    let t = s.push(x);
    assert(t[s.len() as int] == x);
    let j = t.index_of(x);
    assert(t[j] == x);
    if j < s.len() {
        assert(s[j] == x);
    }
}

proof fn lemma_index_of_push_other(s: Seq<u64>, x: u64, n: u64)
    requires
        s.no_duplicates(),
        !s.contains(x),
        s.contains(n),
    ensures
        s.push(x).contains(n),
        s.push(x).index_of(n) == s.index_of(n),
        0 <= s.index_of(n) < s.len(),
        s[s.index_of(n)] == n,
{
    let t = s.push(x);
    let i = s.index_of(n);
    assert(s[i] == n);
    assert(t[i] == n);
    let j = t.index_of(n);
    assert(t[j] == n);
    if j == s.len() {
        assert(n == x);
    }
    assert(t.no_duplicates()) by {
        lemma_index_of_push(s, x);
    }
}

} // verus!

verus! {

/// BFS result containing distances and paths
pub struct BfsResult {
    /// Distance from source to each node
    pub distances: HashMap<u64, usize>,
    /// Parent node for each node in the BFS tree
    pub parents: HashMap<u64, u64>,
    /// Order of node discovery
    pub discovery_order: Vec<u64>,
}

impl Graph {
    /// What breadth-first search from `source` yields: every node reachable
    /// from `source` gets its shortest walk length, is listed once in order of
    /// distance, and every node but `source` has a parent one step closer.
    pub open spec fn bfs_correct(&self, source: u64, r: BfsResult) -> bool {
        let d = r.distances@;
        let p = r.parents@;
        let o = r.discovery_order@;
        &&& forall|v: u64| #[trigger] d.contains_key(v) <==> self.reachable(source, v)
        &&& forall|v: u64| #[trigger] d.contains_key(v) ==> self.reachable_in(source, v, d[v] as nat)
        &&& forall|v: u64, n: nat| #[trigger] self.reachable_in(source, v, n) ==> d[v] <= n
        &&& o.len() >= 1 && o[0] == source && o.no_duplicates()
        &&& forall|v: u64| #[trigger] o.contains(v) <==> d.contains_key(v)
        &&& forall|i: int, j: int| 0 <= i <= j < o.len() ==> d[#[trigger] o[i]] <= d[#[trigger] o[j]]
        &&& forall|v: u64| #[trigger] p.contains_key(v) <==> (d.contains_key(v) && v != source)
        &&& forall|v: u64| #[trigger] p.contains_key(v) ==> self.has_edge(p[v], v) && d[p[v]] + 1 == d[v]
    }

    /// Perform Breadth-First Search from a source node
    pub fn bfs(&self, source: u64) -> (r: Result<BfsResult, Error>)
        requires
            self.wf(),
        ensures
            match r {
                Ok(res) => self.node_seq().contains(source) && self.bfs_correct(source, res),
                Err(e) => !self.node_seq().contains(source)
                    && (e matches Error::InvalidInput(m) && m@ == "Source node not found"@),
            },
    {
        if !self.has_node(source) {
            return Err(Error::InvalidInput(String::from_str("Source node not found")));
        }
        proof {
            self.lemma_universe();
        }
        let ghost u = self.universe();
        let mut distances: HashMap<u64, usize> = HashMap::new();
        let mut parents: HashMap<u64, u64> = HashMap::new();
        let mut order: Vec<u64> = Vec::new();
        distances.insert(source, 0);
        order.push(source);
        let mut head: usize = 0;
        proof {
            assert(order@ == seq![source]);
            assert forall|v: u64| distances@.contains_key(v) implies order@.contains(v) by {
                assert(order@[0] == source);
            }
        }
        while head < order.len()
            invariant
                self.wf(),
                u == self.universe(),
                u.finite(),
                forall|n: u64| self.nodes@.contains(n) ==> #[trigger] u.contains(n),
                forall|a: u64, b: u64| #[trigger] self.has_edge(a, b) ==> u.contains(b),
                self.node_seq().contains(source),
                order@.len() >= 1,
                order@[0] == source,
                order@.no_duplicates(),
                head <= order@.len(),
                forall|k: int| 0 <= k < order@.len() ==> distances@.contains_key(#[trigger] order@[k]),
                forall|k: int| 0 <= k < order@.len() ==> u.contains(#[trigger] order@[k]),
                forall|v: u64| #[trigger] distances@.contains_key(v) ==> order@.contains(v),
                distances@[source] == 0,
                forall|i: int, j: int|
                    0 <= i <= j < order@.len() ==> distances@[#[trigger] order@[i]] <= distances@[#[trigger] order@[j]],
                head < order@.len() ==> distances@[order@[order@.len() - 1]] <= distances@[order@[head as int]] + 1,
                forall|k: int| 0 <= k < order@.len() ==> distances@[#[trigger] order@[k]] <= k,
                forall|v: u64| #[trigger] parents@.contains_key(v) <==> (distances@.contains_key(v) && v != source),
                forall|v: u64|
                    #[trigger] parents@.contains_key(v) ==> distances@.contains_key(parents@[v])
                        && self.has_edge(parents@[v], v) && distances@[parents@[v]] + 1 == distances@[v],
                forall|k: int, t: u64|
                    0 <= k < head && #[trigger] self.has_edge(order@[k], t) ==> distances@.contains_key(t)
                        && distances@[t] <= distances@[order@[k]] + 1,
            decreases u.len() - head,
        {
            proof {
                lemma_distinct_in_set_bounded(order@, u);
            }
            let current = order[head];
            let d = *distances.get(&current).unwrap();
            let nbrs = self.get_neighbors(current);
            let ghost len0 = order@.len();
            let mut j: usize = 0;
            while j < nbrs.len()
                invariant
                    self.wf(),
                    u == self.universe(),
                    u.finite(),
                    forall|a: u64, b: u64| #[trigger] self.has_edge(a, b) ==> u.contains(b),
                    nbrs@ == self.out_edges(current),
                    j <= nbrs@.len(),
                    head < len0,
                    len0 <= order@.len(),
                    current == order@[head as int],
                    d == distances@[current],
                    d <= head,
                    order@.len() >= 1,
                    order@[0] == source,
                    order@.no_duplicates(),
                    forall|k: int| 0 <= k < order@.len() ==> distances@.contains_key(#[trigger] order@[k]),
                    forall|k: int| 0 <= k < order@.len() ==> u.contains(#[trigger] order@[k]),
                    forall|v: u64| #[trigger] distances@.contains_key(v) ==> order@.contains(v),
                    distances@[source] == 0,
                    forall|i: int, j2: int|
                        0 <= i <= j2 < order@.len() ==> distances@[#[trigger] order@[i]] <= distances@[#[trigger] order@[j2]],
                    distances@[order@[order@.len() - 1]] <= d + 1,
                    forall|k: int| 0 <= k < order@.len() ==> distances@[#[trigger] order@[k]] <= k,
                    forall|v: u64| #[trigger] parents@.contains_key(v) <==> (distances@.contains_key(v) && v != source),
                    forall|v: u64|
                        #[trigger] parents@.contains_key(v) ==> distances@.contains_key(parents@[v])
                            && self.has_edge(parents@[v], v) && distances@[parents@[v]] + 1 == distances@[v],
                    forall|k: int, t: u64|
                        0 <= k < head && #[trigger] self.has_edge(order@[k], t) ==> distances@.contains_key(t)
                            && distances@[t] <= distances@[order@[k]] + 1,
                    forall|m: int|
                        0 <= m < j ==> distances@.contains_key(#[trigger] nbrs@[m].0)
                            && distances@[nbrs@[m].0] <= d + 1,
                decreases nbrs@.len() - j,
            {
                let neighbor = nbrs[j].0;
                proof {
                    assert(targets(nbrs@)[j as int] == neighbor);
                    assert(self.has_edge(current, neighbor));
                }
                if !distances.contains_key(&neighbor) {
                    let ghost old_order = order@;
                    let ghost old_dist = distances@;
                    proof {
                        lemma_distinct_in_set_bounded(order@, u);
                        assert(!order@.contains(neighbor));
                        assert(u.contains(neighbor));
                        assert(d < order@.len());
                        assert(order@.len() == order.len());
                    }
                    distances.insert(neighbor, d + 1);
                    parents.insert(neighbor, current);
                    order.push(neighbor);
                    proof {
                        assert(order@ == old_order.push(neighbor));
                        assert forall|k: int| 0 <= k < order@.len() implies distances@.contains_key(#[trigger] order@[k]) by {
                            if k < old_order.len() {
                                assert(order@[k] == old_order[k]);
                            }
                        }
                        assert forall|v: u64| #[trigger] distances@.contains_key(v) implies order@.contains(v) by {
                            if v == neighbor {
                                assert(order@[old_order.len() as int] == neighbor);
                            } else {
                                assert(old_dist.contains_key(v));
                                assert(old_order.contains(v));
                                let k = choose|k: int| 0 <= k < old_order.len() && old_order[k] == v;
                                assert(order@[k] == v);
                            }
                        }
                        assert forall|i: int, j2: int|
                            0 <= i <= j2 < order@.len() implies distances@[#[trigger] order@[i]] <= distances@[#[trigger] order@[j2]] by {
                            if j2 == old_order.len() {
                                if i < old_order.len() {
                                    assert(old_dist[old_order[i]] <= old_dist[old_order[old_order.len() - 1]]);
                                    assert(order@[i] == old_order[i]);
                                    assert(old_order[i] != neighbor);
                                }
                            } else {
                                assert(order@[i] == old_order[i]);
                                assert(order@[j2] == old_order[j2]);
                                assert(old_order[i] != neighbor);
                                assert(old_order[j2] != neighbor);
                            }
                        }
                        assert forall|k: int| 0 <= k < order@.len() implies distances@[#[trigger] order@[k]] <= k by {
                            if k < old_order.len() {
                                assert(order@[k] == old_order[k]);
                                assert(old_order[k] != neighbor);
                            }
                        }
                        assert(order@.no_duplicates()) by {
                            assert forall|a: int, b: int| 0 <= a < b < order@.len() implies order@[a] != order@[b] by {
                                if b == old_order.len() {
                                    assert(order@[a] == old_order[a]);
                                    assert(old_order.contains(order@[a]));
                                }
                            }
                        }
                        assert forall|k: int| 0 <= k < order@.len() implies u.contains(#[trigger] order@[k]) by {
                            if k < old_order.len() {
                                assert(order@[k] == old_order[k]);
                            }
                        }
                        assert forall|v: u64| #[trigger] parents@.contains_key(v) implies distances@.contains_key(parents@[v])
                            && self.has_edge(parents@[v], v) && distances@[parents@[v]] + 1 == distances@[v] by {
                            if v != neighbor {
                                assert(old_dist.contains_key(v));
                                assert(old_dist.contains_key(parents@[v]));
                                assert(parents@[v] != neighbor);
                            }
                        }
                        assert forall|k: int, t: u64|
                            0 <= k < head && #[trigger] self.has_edge(order@[k], t) implies distances@.contains_key(t)
                                && distances@[t] <= distances@[order@[k]] + 1 by {
                            assert(order@[k] == old_order[k]);
                            assert(old_dist.contains_key(t));
                            assert(t != neighbor);
                            assert(old_order[k] != neighbor);
                        }
                        assert forall|m: int| 0 <= m < j + 1 implies distances@.contains_key(#[trigger] nbrs@[m].0)
                            && distances@[nbrs@[m].0] <= d + 1 by {
                            if m < j {
                                assert(old_dist.contains_key(nbrs@[m].0));
                            }
                        }
                        assert(current != neighbor);
                        assert(order@[order@.len() - 1] == neighbor);
                    }
                }
                j = j + 1;
            }
            proof {
                assert forall|k: int, t: u64|
                    0 <= k < head + 1 && #[trigger] self.has_edge(order@[k], t) implies distances@.contains_key(t)
                        && distances@[t] <= distances@[order@[k]] + 1 by {
                    if k == head {
                        let tg = targets(nbrs@);
                        let m = choose|m: int| 0 <= m < tg.len() && tg[m] == t;
                        assert(nbrs@[m].0 == t);
                    }
                }
                if head + 1 < order@.len() {
                    assert(distances@[order@[head as int]] <= distances@[order@[head + 1]]);
                }
            }
            head = head + 1;
        }
        let res = BfsResult { distances, parents, discovery_order: order };
        proof {
            self.lemma_bfs_result(source, res);
        }
        Ok(res)
    }

    proof fn lemma_bfs_result(&self, source: u64, r: BfsResult)
        requires
            r.discovery_order@.len() >= 1,
            r.discovery_order@[0] == source,
            r.discovery_order@.no_duplicates(),
            forall|k: int| 0 <= k < r.discovery_order@.len() ==> r.distances@.contains_key(#[trigger] r.discovery_order@[k]),
            forall|v: u64| #[trigger] r.distances@.contains_key(v) ==> r.discovery_order@.contains(v),
            r.distances@[source] == 0,
            forall|i: int, j: int|
                0 <= i <= j < r.discovery_order@.len() ==> r.distances@[#[trigger] r.discovery_order@[i]]
                    <= r.distances@[#[trigger] r.discovery_order@[j]],
            forall|v: u64| #[trigger] r.parents@.contains_key(v) <==> (r.distances@.contains_key(v) && v != source),
            forall|v: u64|
                #[trigger] r.parents@.contains_key(v) ==> r.distances@.contains_key(r.parents@[v])
                    && self.has_edge(r.parents@[v], v) && r.distances@[r.parents@[v]] + 1 == r.distances@[v],
            forall|k: int, t: u64|
                0 <= k < r.discovery_order@.len() && #[trigger] self.has_edge(r.discovery_order@[k], t)
                    ==> r.distances@.contains_key(t) && r.distances@[t] <= r.distances@[r.discovery_order@[k]] + 1,
        ensures
            self.bfs_correct(source, r),
    {
        let d = r.distances@;
        let o = r.discovery_order@;
        assert forall|v: u64| #[trigger] d.contains_key(v) implies self.reachable_in(source, v, d[v] as nat) by {
            self.lemma_parent_chain(source, r, v, d[v] as nat);
        }
        assert forall|v: u64, n: nat| #[trigger] self.reachable_in(source, v, n) implies d[v] <= n by {
            let p = choose|p: Seq<u64>| #[trigger] self.is_path(p) && p[0] == source && p.last() == v && p.len() == n + 1;
            self.lemma_path_bound(source, r, p);
        }
        assert forall|v: u64| #[trigger] d.contains_key(v) <==> self.reachable(source, v) by {
            if d.contains_key(v) {
                assert(self.reachable_in(source, v, d[v] as nat));
            }
            if self.reachable(source, v) {
                let n = choose|n: nat| #[trigger] self.reachable_in(source, v, n);
                let p = choose|p: Seq<u64>| #[trigger] self.is_path(p) && p[0] == source && p.last() == v && p.len() == n + 1;
                self.lemma_path_bound(source, r, p);
            }
        }
        assert forall|v: u64| #[trigger] o.contains(v) <==> d.contains_key(v) by {
            if o.contains(v) {
                let k = choose|k: int| 0 <= k < o.len() && o[k] == v;
            }
        }
    }

    proof fn lemma_parent_chain(&self, source: u64, r: BfsResult, v: u64, n: nat)
        requires
            r.distances@.contains_key(v),
            r.distances@[v] == n,
            r.distances@[source] == 0,
            forall|w: u64| #[trigger] r.parents@.contains_key(w) <==> (r.distances@.contains_key(w) && w != source),
            forall|w: u64|
                #[trigger] r.parents@.contains_key(w) ==> r.distances@.contains_key(r.parents@[w])
                    && self.has_edge(r.parents@[w], w) && r.distances@[r.parents@[w]] + 1 == r.distances@[w],
        ensures
            self.reachable_in(source, v, n),
        decreases n,
    {
        if v == source {
            let p = seq![source];
            assert(self.is_path(p));
        } else {
            assert(r.parents@.contains_key(v));
            let pv = r.parents@[v];
            self.lemma_parent_chain(source, r, pv, (n - 1) as nat);
            let p = choose|p: Seq<u64>| #[trigger] self.is_path(p) && p[0] == source && p.last() == pv && p.len() == n;
            let q = p.push(v);
            assert forall|i: int| 0 <= i < q.len() - 1 implies #[trigger] self.has_edge(q[i], q[i + 1]) by {
                if i < p.len() - 1 {
                    assert(q[i] == p[i]);
                    assert(q[i + 1] == p[i + 1]);
                    assert(self.has_edge(p[i], p[i + 1]));
                } else {
                    assert(q[i] == pv);
                    assert(q[i + 1] == v);
                }
            }
            assert(self.is_path(q));
            assert(q.last() == v);
        }
    }

    proof fn lemma_path_bound(&self, source: u64, r: BfsResult, p: Seq<u64>)
        requires
            self.is_path(p),
            p[0] == source,
            r.distances@.contains_key(source),
            r.distances@[source] == 0,
            forall|v: u64| #[trigger] r.distances@.contains_key(v) ==> r.discovery_order@.contains(v),
            forall|k: int, t: u64|
                0 <= k < r.discovery_order@.len() && #[trigger] self.has_edge(r.discovery_order@[k], t)
                    ==> r.distances@.contains_key(t) && r.distances@[t] <= r.distances@[r.discovery_order@[k]] + 1,
        ensures
            r.distances@.contains_key(p.last()),
            r.distances@[p.last()] <= p.len() - 1,
        decreases p.len(),
    {
        if p.len() > 1 {
            let q = p.drop_last();
            assert forall|i: int| 0 <= i < q.len() - 1 implies #[trigger] self.has_edge(q[i], q[i + 1]) by {
                assert(self.has_edge(p[i], p[i + 1]));
            }
            self.lemma_path_bound(source, r, q);
            let a = q.last();
            let b = p.last();
            let i = p.len() - 2;
            assert(self.has_edge(p[i], p[i + 1]));
            assert(r.discovery_order@.contains(a));
            let k = choose|k: int| 0 <= k < r.discovery_order@.len() && r.discovery_order@[k] == a;
            assert(self.has_edge(r.discovery_order@[k], b));
        }
    }
}

spec fn len_within(s: Seq<u64>, u: Set<u64>) -> bool {
    s.len() <= u.len()
}

/// A duplicate-free sequence drawn from a finite set is no longer than the set.
proof fn lemma_distinct_in_set_bounded(s: Seq<u64>, u: Set<u64>)
    requires
        s.no_duplicates(),
        u.finite(),
        forall|k: int| 0 <= k < s.len() ==> u.contains(#[trigger] s[k]),
    ensures
        s.len() <= u.len(),
{
    s.unique_seq_to_set();
    assert(s.to_set().subset_of(u));
    vstd::set_lib::lemma_len_subset(s.to_set(), u);
}

} // verus!

verus! {

/// The keys of an association list of edge types.
pub open spec fn type_keys(s: Seq<(u64, u64, Vec<String>)>) -> Seq<(u64, u64)> {
    s.map_values(|e: (u64, u64, Vec<String>)| (e.0, e.1))
}

impl Graph {
    /// Edge types recorded for the edge `a -> b` by the last `add_edge` between them.
    pub closed spec fn types_of(&self, a: u64, b: u64) -> Option<Seq<String>> {
        let keys = type_keys(self.edge_types@);
        if keys.contains((a, b)) {
            Some(self.edge_types@[keys.index_of((a, b))].2@)
        } else {
            None
        }
    }

    /// The edge-type association list has one entry per edge.
    pub closed spec fn types_wf(&self) -> bool {
        type_keys(self.edge_types@).no_duplicates()
    }

    /// Add an edge to the graph; `from` becomes a node if it was none, `to` does not.
    pub fn add_edge(&mut self, from: u64, to: u64, weight_bits: u64, edge_types: Vec<String>)
        requires
            old(self).wf(),
            old(self).types_wf(),
        ensures
            final(self).wf(),
            final(self).types_wf(),
            old(self).node_seq().contains(from) ==> final(self).node_seq() == old(self).node_seq(),
            !old(self).node_seq().contains(from) ==> final(self).node_seq() == old(self).node_seq().push(from),
            final(self).out_edges(from) == old(self).out_edges(from).push((to, weight_bits)),
            forall|n: u64| n != from ==> #[trigger] final(self).out_edges(n) == old(self).out_edges(n),
            forall|n: u64| #[trigger] final(self).labels_of(n) == old(self).labels_of(n),
            final(self).types_of(from, to) == Some(edge_types@),
            forall|a: u64, b: u64| (a, b) != (from, to) ==> #[trigger] final(self).types_of(a, b) == old(self).types_of(a, b),
    {
        match self.position(from) {
            Some(i) => {
                self.adjacency[i].push((to, weight_bits));
                proof {
                    assert forall|n: u64| n != from implies #[trigger] self.out_edges(n) == old(self).out_edges(n) by {
                        if self.nodes@.contains(n) {
                            let j = self.nodes@.index_of(n);
                            assert(self.nodes@[j] == n);
                        }
                    }
                    assert forall|n: u64| #[trigger] self.labels_of(n) == old(self).labels_of(n) by {}
                }
            },
            None => {
                let mut v: Vec<(u64, u64)> = Vec::new();
                v.push((to, weight_bits));
                self.nodes.push(from);
                self.adjacency.push(v);
                self.node_labels.push(None);
                proof {
                    let old_nodes = old(self).nodes@;
                    lemma_index_of_push(old_nodes, from);
                    assert forall|n: u64| n != from implies #[trigger] self.out_edges(n) == old(self).out_edges(n) by {
                        if old_nodes.contains(n) {
                            lemma_index_of_push_other(old_nodes, from, n);
                        } else {
                            assert(!self.nodes@.contains(n)) by {
                                if self.nodes@.contains(n) {
                                    let j = self.nodes@.index_of(n);
                                    assert(self.nodes@[j] == n);
                                    assert(old_nodes[j] == n);
                                }
                            }
                        }
                    }
                    assert(old(self).out_edges(from) == Seq::<(u64, u64)>::empty());
                    assert(self.out_edges(from) == seq![(to, weight_bits)]);
                    assert forall|n: u64| #[trigger] self.labels_of(n) == old(self).labels_of(n) by {
                        if n == from {
                        } else if old_nodes.contains(n) {
                            lemma_index_of_push_other(old_nodes, from, n);
                        } else {
                            assert(!self.nodes@.contains(n)) by {
                                if self.nodes@.contains(n) {
                                    let j = self.nodes@.index_of(n);
                                    assert(self.nodes@[j] == n);
                                    assert(old_nodes[j] == n);
                                }
                            }
                        }
                    }
                }
            },
        }
        let ghost mid = *self;
        self.set_edge_types(from, to, edge_types);
        proof {
            assert forall|n: u64| #[trigger] self.out_edges(n) == mid.out_edges(n) by {}
            assert forall|n: u64| #[trigger] self.labels_of(n) == mid.labels_of(n) by {}
        }
    }

    fn set_edge_types(&mut self, from: u64, to: u64, types: Vec<String>)
        requires
            old(self).types_wf(),
        ensures
            final(self).types_wf(),
            final(self).nodes == old(self).nodes,
            final(self).adjacency == old(self).adjacency,
            final(self).node_labels == old(self).node_labels,
            final(self).types_of(from, to) == Some(types@),
            forall|a: u64, b: u64| (a, b) != (from, to) ==> #[trigger] final(self).types_of(a, b) == old(self).types_of(a, b),
    {
        let ghost old_keys = type_keys(self.edge_types@);
        let mut i: usize = 0;
        while i < self.edge_types.len()
            invariant
                i <= self.edge_types@.len(),
                *self == *old(self),
                old_keys == type_keys(self.edge_types@),
                old_keys.no_duplicates(),
                forall|k: int| 0 <= k < i ==> #[trigger] old_keys[k] != (from, to),
            decreases self.edge_types@.len() - i,
        {
            if self.edge_types[i].0 == from && self.edge_types[i].1 == to {
                let ghost before = self.edge_types@;
                self.edge_types.set(i, (from, to, types));
                proof {
                    let keys = type_keys(self.edge_types@);
                    assert(keys =~= old_keys);
                    assert(keys[i as int] == (from, to));
                    let j = keys.index_of((from, to));
                    assert(keys.contains((from, to)));
                    assert(keys[j] == (from, to));
                    assert(j == i as int);
                    assert forall|a: u64, b: u64| (a, b) != (from, to) implies #[trigger] self.types_of(a, b) == old(self).types_of(a, b) by {
                        if keys.contains((a, b)) {
                            let q = keys.index_of((a, b));
                            assert(keys[q] == (a, b));
                            assert(q != i as int);
                        }
                    }
                }
                return;
            }
            i = i + 1;
        }
        let ghost before = self.edge_types@;
        self.edge_types.push((from, to, types));
        proof {
            let keys = type_keys(self.edge_types@);
            assert(keys =~= old_keys.push((from, to)));
            assert(!old_keys.contains((from, to)));
            assert(keys.no_duplicates()) by {
                assert forall|a: int, b: int| 0 <= a < b < keys.len() implies keys[a] != keys[b] by {
                    if b == old_keys.len() {
                        assert(keys[a] == old_keys[a]);
                    } else {
                        assert(keys[a] == old_keys[a]);
                        assert(keys[b] == old_keys[b]);
                    }
                }
            }
            assert(keys[old_keys.len() as int] == (from, to));
            let j = keys.index_of((from, to));
            assert(keys.contains((from, to)));
            assert(keys[j] == (from, to));
            assert(j == old_keys.len());
            assert forall|a: u64, b: u64| (a, b) != (from, to) implies #[trigger] self.types_of(a, b) == old(self).types_of(a, b) by {
                if old_keys.contains((a, b)) {
                    let q = old_keys.index_of((a, b));
                    assert(old_keys[q] == (a, b));
                    assert(keys[q] == (a, b));
                    let q2 = keys.index_of((a, b));
                    assert(keys.contains((a, b)));
                    assert(keys[q2] == (a, b));
                    assert(q2 == q);
                } else {
                    assert(!keys.contains((a, b))) by {
                        if keys.contains((a, b)) {
                            let q2 = keys.index_of((a, b));
                            assert(keys[q2] == (a, b));
                            assert(old_keys[q2] == (a, b));
                        }
                    }
                }
            }
        }
    }

    /// Get node labels
    pub fn get_node_labels(&self, node_id: u64) -> (r: Option<&Vec<String>>)
        requires
            self.wf(),
        ensures
            match r {
                Some(v) => self.labels_of(node_id) == Some(v@),
                None => self.labels_of(node_id) is None,
            },
    {
        match self.position(node_id) {
            Some(i) => self.node_labels[i].as_ref(),
            None => None,
        }
    }

    /// Get edge types
    pub fn get_edge_types(&self, from: u64, to: u64) -> (r: Option<&Vec<String>>)
        requires
            self.types_wf(),
        ensures
            match r {
                Some(v) => self.types_of(from, to) == Some(v@),
                None => self.types_of(from, to) is None,
            },
    {
        let ghost keys = type_keys(self.edge_types@);
        let mut i: usize = 0;
        while i < self.edge_types.len()
            invariant
                i <= self.edge_types@.len(),
                keys == type_keys(self.edge_types@),
                keys.no_duplicates(),
                forall|k: int| 0 <= k < i ==> #[trigger] keys[k] != (from, to),
            decreases self.edge_types@.len() - i,
        {
            if self.edge_types[i].0 == from && self.edge_types[i].1 == to {
                proof {
                    assert(keys[i as int] == (from, to));
                    assert(keys.contains((from, to)));
                    let j = keys.index_of((from, to));
                    assert(keys[j] == (from, to));
                    assert(j == i as int);
                }
                return Some(&self.edge_types[i].2);
            }
            i = i + 1;
        }
        None
    }
}

} // verus!

verus! {

/// DFS result containing discovery and finish times
pub struct DfsResult {
    /// Discovery time for each node
    pub discovery_times: HashMap<u64, usize>,
    /// Finish time for each node
    pub finish_times: HashMap<u64, usize>,
    /// Parent node for each node in the DFS tree
    pub parents: HashMap<u64, u64>,
    /// Order of node discovery
    pub discovery_order: Vec<u64>,
}

impl Graph {
    /// Number of distinct ids in the graph (nodes and edge targets).
    pub closed spec fn id_count(&self) -> nat {
        self.universe().len()
    }

    /// State kept by depth-first search between steps.
    #[verifier::opaque]
    spec fn dfs_state(
        &self,
        s: u64,
        d: Map<u64, usize>,
        f: Map<u64, usize>,
        p: Map<u64, u64>,
        o: Seq<u64>,
        t: usize,
    ) -> bool {
        &&& o.no_duplicates()
        &&& forall|k: int| 0 <= k < o.len() ==> d.contains_key(#[trigger] o[k])
        &&& forall|k: int| 0 <= k < o.len() ==> self.universe().contains(#[trigger] o[k])
        &&& forall|v: u64| #[trigger] d.contains_key(v) ==> o.contains(v)
        &&& forall|v: u64| #[trigger] f.contains_key(v) ==> d.contains_key(v) && d[v] < f[v] && f[v] <= t
        &&& forall|v: u64| #[trigger] d.contains_key(v) ==> 1 <= d[v] <= t
        &&& forall|i: int, j: int| 0 <= i < j < o.len() ==> d[#[trigger] o[i]] < d[#[trigger] o[j]]
        &&& forall|v: u64| #[trigger] p.contains_key(v) ==> d.contains_key(v) && v != s
        &&& forall|v: u64|
            #[trigger] p.contains_key(v) ==> d.contains_key(p[v]) && self.has_edge(p[v], v) && d[p[v]] < d[v]
        &&& forall|v: u64| #[trigger] d.contains_key(v) && v != s ==> p.contains_key(v)
        &&& forall|v: u64, w: u64| #[trigger] f.contains_key(v) && #[trigger] self.has_edge(v, w) ==> d.contains_key(w)
        &&& f.dom().finite()
        &&& t == o.len() + f.dom().len()
    }

    /// What depth-first search from `source` yields: exactly the nodes
    /// reachable from `source` are discovered and finished, each discovered
    /// before it is finished, listed once in order of discovery, and every
    /// node but `source` hangs below an earlier-discovered parent.
    pub open spec fn dfs_correct(&self, source: u64, r: DfsResult) -> bool {
        let d = r.discovery_times@;
        let f = r.finish_times@;
        let p = r.parents@;
        let o = r.discovery_order@;
        &&& forall|v: u64| #[trigger] d.contains_key(v) <==> self.reachable(source, v)
        &&& forall|v: u64| #[trigger] f.contains_key(v) <==> d.contains_key(v)
        &&& forall|v: u64| #[trigger] d.contains_key(v) ==> 1 <= d[v] < f[v]
        &&& o.len() >= 1 && o[0] == source && o.no_duplicates()
        &&& forall|v: u64| #[trigger] o.contains(v) <==> d.contains_key(v)
        &&& forall|i: int, j: int| 0 <= i < j < o.len() ==> d[#[trigger] o[i]] < d[#[trigger] o[j]]
        &&& forall|v: u64| #[trigger] p.contains_key(v) <==> (d.contains_key(v) && v != source)
        &&& forall|v: u64| #[trigger] p.contains_key(v) ==> self.has_edge(p[v], v) && d[p[v]] < d[v]
    }

    /// Perform Depth-First Search from a source node
    pub fn dfs(&self, source: u64) -> (r: Result<DfsResult, Error>)
        requires
            self.wf(),
            2 * self.id_count() < usize::MAX,
        ensures
            match r {
                Ok(res) => self.node_seq().contains(source) && self.dfs_correct(source, res),
                Err(e) => !self.node_seq().contains(source)
                    && (e matches Error::InvalidInput(m) && m@ == "Source node not found"@),
            },
    {
        if !self.has_node(source) {
            return Err(Error::InvalidInput(String::from_str("Source node not found")));
        }
        proof {
            self.lemma_universe();
        }
        let mut discovery_times: HashMap<u64, usize> = HashMap::new();
        let mut finish_times: HashMap<u64, usize> = HashMap::new();
        let mut parents: HashMap<u64, u64> = HashMap::new();
        let mut discovery_order: Vec<u64> = Vec::new();
        let mut time: usize = 0;
        proof {
            assert(finish_times@.dom() =~= Set::<u64>::empty());
            reveal(Graph::dfs_state);
            assert(self.dfs_state(source, discovery_times@, finish_times@, parents@, discovery_order@, time));
        }
        self.dfs_visit(
            source,
            None,
            source,
            &mut discovery_times,
            &mut finish_times,
            &mut parents,
            &mut discovery_order,
            &mut time,
        );
        let res = DfsResult { discovery_times, finish_times, parents, discovery_order };
        proof {
            reveal(Graph::dfs_state);
            reveal(Graph::dfs_grows);
            let d = res.discovery_times@;
            let f = res.finish_times@;
            let o = res.discovery_order@;
            assert(o[0] == source) by {
                assert(o.len() >= 1);
                assert(d.contains_key(o[0]));
            }
            assert forall|v: u64| #[trigger] d.contains_key(v) implies self.reachable(source, v) by {
                self.lemma_dfs_parent_chain(source, res.discovery_times@, res.parents@, v);
            }
            assert forall|v: u64| self.reachable(source, v) implies #[trigger] d.contains_key(v) by {
                let n = choose|n: nat| #[trigger] self.reachable_in(source, v, n);
                let p = choose|p: Seq<u64>| #[trigger] self.is_path(p) && p[0] == source && p.last() == v && p.len() == n + 1;
                self.lemma_closed_path(d, f, p);
            }
            assert forall|v: u64| #[trigger] o.contains(v) implies d.contains_key(v) by {
                let k = choose|k: int| 0 <= k < o.len() && o[k] == v;
            }
        }
        Ok(res)
    }

    proof fn lemma_dfs_parent_chain(&self, s: u64, d: Map<u64, usize>, p: Map<u64, u64>, v: u64)
        requires
            d.contains_key(v),
            forall|w: u64| #[trigger] d.contains_key(w) && w != s ==> p.contains_key(w),
            forall|w: u64|
                #[trigger] p.contains_key(w) ==> d.contains_key(p[w]) && self.has_edge(p[w], w) && d[p[w]] < d[w],
        ensures
            self.reachable(s, v),
        decreases d[v],
    {
        if v == s {
            let q = seq![s];
            assert(self.is_path(q));
            assert(self.reachable_in(s, v, 0));
        } else {
            let pv = p[v];
            self.lemma_dfs_parent_chain(s, d, p, pv);
            let n = choose|n: nat| #[trigger] self.reachable_in(s, pv, n);
            let q = choose|q: Seq<u64>| #[trigger] self.is_path(q) && q[0] == s && q.last() == pv && q.len() == n + 1;
            let q2 = q.push(v);
            assert forall|i: int| 0 <= i < q2.len() - 1 implies #[trigger] self.has_edge(q2[i], q2[i + 1]) by {
                if i < q.len() - 1 {
                    assert(q2[i] == q[i]);
                    assert(q2[i + 1] == q[i + 1]);
                    assert(self.has_edge(q[i], q[i + 1]));
                }
            }
            assert(self.is_path(q2));
            assert(self.reachable_in(s, v, n + 1));
        }
    }

    /// A walk that starts inside a set of finished nodes closed under edges stays inside it.
    proof fn lemma_closed_path(&self, d: Map<u64, usize>, f: Map<u64, usize>, p: Seq<u64>)
        requires
            self.is_path(p),
            d.contains_key(p[0]),
            forall|v: u64| #[trigger] d.contains_key(v) ==> f.contains_key(v),
            forall|v: u64, w: u64| #[trigger] f.contains_key(v) && #[trigger] self.has_edge(v, w) ==> d.contains_key(w),
        ensures
            d.contains_key(p.last()),
        decreases p.len(),
    {
        if p.len() > 1 {
            let q = p.drop_last();
            assert forall|i: int| 0 <= i < q.len() - 1 implies #[trigger] self.has_edge(q[i], q[i + 1]) by {
                assert(self.has_edge(p[i], p[i + 1]));
            }
            self.lemma_closed_path(d, f, q);
            let i = p.len() - 2;
            assert(self.has_edge(p[i], p[i + 1]));
            assert(f.contains_key(q.last()));
        }
    }

    /// How the search state may change across a call that explores from one node.
    #[verifier::opaque]
    spec fn dfs_grows(
        d0: Map<u64, usize>,
        f0: Map<u64, usize>,
        p0: Map<u64, u64>,
        o0: Seq<u64>,
        d: Map<u64, usize>,
        f: Map<u64, usize>,
        p: Map<u64, u64>,
        o: Seq<u64>,
    ) -> bool {
        &&& o0.len() <= o.len()
        &&& o.subrange(0, o0.len() as int) == o0
        &&& forall|v: u64| #[trigger] d0.contains_key(v) ==> d.contains_key(v) && d[v] == d0[v]
        &&& forall|v: u64| #[trigger] f0.contains_key(v) ==> f.contains_key(v) && f[v] == f0[v]
        &&& forall|v: u64| #[trigger] p0.contains_key(v) ==> p.contains_key(v) && p[v] == p0[v]
        &&& forall|v: u64| #[trigger] f.contains_key(v) && !f0.contains_key(v) ==> !d0.contains_key(v)
        &&& forall|v: u64| #[trigger] d.contains_key(v) && !d0.contains_key(v) ==> f.contains_key(v)
    }

    proof fn lemma_dfs_grows_dom(
        d0: Map<u64, usize>, f0: Map<u64, usize>, p0: Map<u64, u64>, o0: Seq<u64>,
        d1: Map<u64, usize>, f1: Map<u64, usize>, p1: Map<u64, u64>, o1: Seq<u64>,
    )
        requires
            Self::dfs_grows(d0, f0, p0, o0, d1, f1, p1, o1),
        ensures
            forall|v: u64| #[trigger] d0.contains_key(v) ==> d1.contains_key(v),
    {
        reveal(Graph::dfs_grows);
    }

    proof fn lemma_dfs_grows_trans(
        d0: Map<u64, usize>, f0: Map<u64, usize>, p0: Map<u64, u64>, o0: Seq<u64>,
        d1: Map<u64, usize>, f1: Map<u64, usize>, p1: Map<u64, u64>, o1: Seq<u64>,
        d2: Map<u64, usize>, f2: Map<u64, usize>, p2: Map<u64, u64>, o2: Seq<u64>,
    )
        requires
            Self::dfs_grows(d0, f0, p0, o0, d1, f1, p1, o1),
            Self::dfs_grows(d1, f1, p1, o1, d2, f2, p2, o2),
        ensures
            Self::dfs_grows(d0, f0, p0, o0, d2, f2, p2, o2),
    {
        reveal(Graph::dfs_grows);
        assert forall|k: int| 0 <= k < o0.len() implies o2[k] == o0[k] by {
            assert(o1.subrange(0, o0.len() as int)[k] == o0[k]);
            assert(o2.subrange(0, o1.len() as int)[k] == o1[k]);
        }
        assert(o2.subrange(0, o0.len() as int) =~= o0);
        assert forall|v: u64| #[trigger] f2.contains_key(v) && !f0.contains_key(v) implies !d0.contains_key(v) by {
            if f1.contains_key(v) {
            } else {
                assert(!d1.contains_key(v));
            }
        }
        assert forall|v: u64| #[trigger] d2.contains_key(v) && !d0.contains_key(v) implies f2.contains_key(v) by {
            if d1.contains_key(v) {
                assert(f1.contains_key(v));
            }
        }
    }

    #[verifier::rlimit(100)]
    proof fn lemma_dfs_discover(
        &self, s: u64,
        d0: Map<u64, usize>, f0: Map<u64, usize>, p0: Map<u64, u64>, o0: Seq<u64>, t0: usize,
        node: u64, parent: Option<u64>,
    )
        requires
            self.dfs_state(s, d0, f0, p0, o0, t0),
            self.universe().finite(),
            2 * self.id_count() < usize::MAX,
            self.universe().contains(node),
            !d0.contains_key(node),
            match parent {
                Some(p) => d0.contains_key(p) && self.has_edge(p, node) && node != s,
                None => node == s,
            },
        ensures
            t0 + 1 < usize::MAX,
            self.dfs_state(
                s,
                d0.insert(node, (t0 + 1) as usize),
                f0,
                match parent {
                    Some(p) => p0.insert(node, p),
                    None => p0,
                },
                o0.push(node),
                (t0 + 1) as usize,
            ),
    {
        reveal(Graph::dfs_state);
        let t1 = (t0 + 1) as usize;
        let d = d0.insert(node, t1);
        let p = match parent {
            Some(q) => p0.insert(node, q),
            None => p0,
        };
        let o = o0.push(node);
        lemma_distinct_in_set_bounded(o0, self.universe());
        assert(!o0.contains(node));
        o0.unique_seq_to_set();
        assert(f0.dom().subset_of(o0.to_set())) by {
            assert forall|v: u64| f0.dom().contains(v) implies o0.to_set().contains(v) by {
                assert(d0.contains_key(v));
            }
        }
        vstd::set_lib::lemma_len_subset(f0.dom(), o0.to_set());
        lemma_push_fresh(o0, node);
        assert forall|k: int| 0 <= k < o.len() implies self.universe().contains(#[trigger] o[k]) by {
            if k < o0.len() {
                assert(o[k] == o0[k]);
            }
        }
        lemma_distinct_in_set_bounded(o, self.universe());
        assert forall|k: int| 0 <= k < o.len() implies d.contains_key(#[trigger] o[k]) by {
            if k < o0.len() {
                assert(o[k] == o0[k]);
            }
        }
        assert forall|v: u64| #[trigger] d.contains_key(v) implies o.contains(v) by {
            if v == node {
                assert(o[o0.len() as int] == node);
            } else {
                let k = choose|k: int| 0 <= k < o0.len() && o0[k] == v;
                assert(o[k] == v);
            }
        }
        assert forall|i: int, j: int| 0 <= i < j < o.len() implies d[#[trigger] o[i]] < d[#[trigger] o[j]] by {
            assert(o[i] == o0[i]);
            assert(o0[i] != node);
            if j < o0.len() {
                assert(o[j] == o0[j]);
                assert(o0[j] != node);
            }
        }
        assert forall|v: u64| #[trigger] p.contains_key(v) implies d.contains_key(p[v]) && self.has_edge(p[v], v)
            && d[p[v]] < d[v] by {
            if v != node {
                assert(p0.contains_key(v));
                assert(p0[v] != node);
            }
        }
        assert forall|v: u64, w: u64| #[trigger] f0.contains_key(v) && #[trigger] self.has_edge(v, w) implies d.contains_key(w) by {
            assert(d0.contains_key(w));
        }
        assert forall|v: u64| #[trigger] d.contains_key(v) && v != s implies p.contains_key(v) by {
            if v != node {
                assert(p0.contains_key(v));
            }
        }
        assert(t1 == o.len() + f0.dom().len());
    }

    proof fn lemma_dfs_finish(
        &self, s: u64,
        d: Map<u64, usize>, f: Map<u64, usize>, p: Map<u64, u64>, o: Seq<u64>, t: usize,
        node: u64,
    )
        requires
            self.dfs_state(s, d, f, p, o, t),
            self.universe().finite(),
            2 * self.id_count() < usize::MAX,
            d.contains_key(node),
            !f.contains_key(node),
            forall|w: u64| #[trigger] self.has_edge(node, w) ==> d.contains_key(w),
        ensures
            t + 1 < usize::MAX,
            self.dfs_state(s, d, f.insert(node, (t + 1) as usize), p, o, (t + 1) as usize),
    {
        reveal(Graph::dfs_state);
        let t1 = (t + 1) as usize;
        let f1 = f.insert(node, t1);
        assert(f.dom().subset_of(o.to_set().remove(node))) by {
            assert forall|v: u64| f.dom().contains(v) implies o.to_set().remove(node).contains(v) by {
                assert(d.contains_key(v));
            }
        }
        assert(o.to_set().contains(node));
        o.unique_seq_to_set();
        vstd::set_lib::lemma_len_subset(f.dom(), o.to_set().remove(node));
        lemma_distinct_in_set_bounded(o, self.universe());
        assert(f1.dom() == f.dom().insert(node));
        assert forall|v: u64, w: u64| #[trigger] f1.contains_key(v) && #[trigger] self.has_edge(v, w) implies d.contains_key(w) by {
            if v != node {
                assert(f.contains_key(v));
            }
        }
        assert forall|v: u64| #[trigger] f1.contains_key(v) implies d.contains_key(v) && d[v] < f1[v] && f1[v] <= t1 by {
            if v != node {
                assert(f.contains_key(v));
            }
        }
    }

    proof fn lemma_dfs_close(
        d0: Map<u64, usize>, f0: Map<u64, usize>, p0: Map<u64, u64>, o0: Seq<u64>,
        d1: Map<u64, usize>, f1: Map<u64, usize>, p1: Map<u64, u64>, o1: Seq<u64>,
        d2: Map<u64, usize>, f2: Map<u64, usize>, p2: Map<u64, u64>, o2: Seq<u64>,
        node: u64, t: usize,
    )
        requires
            !d0.contains_key(node),
            forall|v: u64| #[trigger] f0.contains_key(v) ==> d0.contains_key(v),
            d1 == d0.insert(node, d1[node]),
            f1 == f0,
            forall|v: u64| #[trigger] p0.contains_key(v) ==> p1.contains_key(v) && p1[v] == p0[v],
            o1 == o0.push(node),
            Self::dfs_grows(d1, f1, p1, o1, d2, f2, p2, o2),
        ensures
            Self::dfs_grows(d0, f0, p0, o0, d2, f2.insert(node, t), p2, o2),
            !f2.contains_key(node),
    {
        reveal(Graph::dfs_grows);
        let ff = f2.insert(node, t);
        assert forall|k: int| 0 <= k < o0.len() implies o2[k] == o0[k] by {
            assert(o2.subrange(0, o1.len() as int)[k] == o1[k]);
            assert(o1[k] == o0[k]);
        }
        assert(o2.subrange(0, o0.len() as int) =~= o0);
        assert(d1.contains_key(node));
        assert forall|v: u64| #[trigger] f0.contains_key(v) implies ff.contains_key(v) && ff[v] == f0[v] by {
            assert(v != node);
        }
        assert forall|v: u64| #[trigger] d0.contains_key(v) implies d2.contains_key(v) && d2[v] == d0[v] by {
            assert(d1.contains_key(v));
        }
        assert forall|v: u64| #[trigger] ff.contains_key(v) && !f0.contains_key(v) implies !d0.contains_key(v) by {
            if v != node {
                assert(!d1.contains_key(v));
            }
        }
        assert forall|v: u64| #[trigger] d2.contains_key(v) && !d0.contains_key(v) implies ff.contains_key(v) by {
            if v != node {
                assert(!d1.contains_key(v));
            }
        }
    }

    /// DFS visit helper function
    #[verifier::rlimit(40)]
    fn dfs_visit(
        &self,
        node: u64,
        parent: Option<u64>,
        source: u64,
        discovery_times: &mut HashMap<u64, usize>,
        finish_times: &mut HashMap<u64, usize>,
        parents: &mut HashMap<u64, u64>,
        discovery_order: &mut Vec<u64>,
        time: &mut usize,
    )
        requires
            self.wf(),
            2 * self.id_count() < usize::MAX,
            self.universe().finite(),
            forall|a: u64, b: u64| #[trigger] self.has_edge(a, b) ==> self.universe().contains(b),
            self.universe().contains(node),
            !old(discovery_times)@.contains_key(node),
            self.dfs_state(source, old(discovery_times)@, old(finish_times)@, old(parents)@, old(discovery_order)@, *old(time)),
            match parent {
                Some(p) => old(discovery_times)@.contains_key(p) && self.has_edge(p, node) && node != source,
                None => node == source,
            },
        ensures
            self.dfs_state(source, final(discovery_times)@, final(finish_times)@, final(parents)@, final(discovery_order)@, *final(time)),
            final(finish_times)@.contains_key(node),
            final(discovery_times)@.contains_key(node),
            old(discovery_order)@.len() < final(discovery_order)@.len(),
            Self::dfs_grows(
                old(discovery_times)@, old(finish_times)@, old(parents)@, old(discovery_order)@,
                final(discovery_times)@, final(finish_times)@, final(parents)@, final(discovery_order)@,
            ),
        decreases self.universe().len() - old(discovery_order)@.len(),
    {
        let ghost d0 = discovery_times@;
        let ghost f0 = finish_times@;
        let ghost p0 = parents@;
        let ghost o0 = discovery_order@;
        let ghost t0 = *time;
        proof {
            self.lemma_dfs_discover(source, d0, f0, p0, o0, t0, node, parent);
        }
        *time = *time + 1;
        discovery_times.insert(node, *time);
        discovery_order.push(node);
        match parent {
            Some(p) => {
                parents.insert(node, p);
            },
            None => {},
        }
        let ghost d1 = discovery_times@;
        let ghost f1 = finish_times@;
        let ghost p1 = parents@;
        let ghost o1 = discovery_order@;
        proof {
            assert(o1 =~= o0.push(node));
            assert(o1.subrange(0, o1.len() as int) =~= o1);
            reveal(Graph::dfs_grows);
            assert(Self::dfs_grows(d1, f1, p1, o1, d1, f1, p1, o1));
            assert(!f1.contains_key(node) && (forall|v: u64| #[trigger] p0.contains_key(v) ==> p1.contains_key(v) && p1[v] == p0[v])) by {
                reveal(Graph::dfs_state);
            }
            assert(d1.contains_key(source)) by {
                if node != source {
                    let pp = parent.unwrap();
                    reveal(Graph::dfs_state);
                    self.lemma_dfs_source_discovered(source, d0, p0, pp);
                }
            }
        }
        let nbrs = self.get_neighbors(node);
        let mut j: usize = 0;
        while j < nbrs.len()
            invariant
                self.wf(),
                2 * self.id_count() < usize::MAX,
                self.universe().finite(),
                forall|a: u64, b: u64| #[trigger] self.has_edge(a, b) ==> self.universe().contains(b),
                nbrs@ == self.out_edges(node),
                j <= nbrs@.len(),
                self.dfs_state(source, discovery_times@, finish_times@, parents@, discovery_order@, *time),
                Self::dfs_grows(d1, f1, p1, o1, discovery_times@, finish_times@, parents@, discovery_order@),
                d1.contains_key(node),
                d1.contains_key(source),
                o0 == old(discovery_order)@,
                !f1.contains_key(node),
                o1.len() == o0.len() + 1,
                forall|m: int| 0 <= m < j ==> discovery_times@.contains_key(#[trigger] nbrs@[m].0),
            decreases nbrs@.len() - j,
        {
            let neighbor = nbrs[j].0;
            proof {
                assert(targets(nbrs@)[j as int] == neighbor);
                assert(self.has_edge(node, neighbor));
            }
            if !discovery_times.contains_key(&neighbor) {
                let ghost dm = discovery_times@;
                let ghost fm = finish_times@;
                let ghost pm = parents@;
                let ghost om = discovery_order@;
                proof {
                    assert(len_within(om, self.universe())) by {
                        reveal(Graph::dfs_state);
                        lemma_distinct_in_set_bounded(om, self.universe());
                    }
                    assert(dm.contains_key(node) && dm.contains_key(source) && om.len() >= o1.len()) by {
                        reveal(Graph::dfs_grows);
                    }
                    assert(om.len() <= self.universe().len());
                    assert(old(discovery_order)@.len() < om.len());
                }
                self.dfs_visit(
                    neighbor,
                    Some(node),
                    source,
                    discovery_times,
                    finish_times,
                    parents,
                    discovery_order,
                    time,
                );
                proof {
                    Self::lemma_dfs_grows_trans(
                        d1, f1, p1, o1, dm, fm, pm, om,
                        discovery_times@, finish_times@, parents@, discovery_order@,
                    );
                    Self::lemma_dfs_grows_dom(dm, fm, pm, om, discovery_times@, finish_times@, parents@, discovery_order@);
                    assert forall|m: int| 0 <= m < j + 1 implies discovery_times@.contains_key(#[trigger] nbrs@[m].0) by {
                        if m < j {
                            assert(dm.contains_key(nbrs@[m].0));
                        }
                    }
                }
            }
            j = j + 1;
        }
        let ghost dl = discovery_times@;
        let ghost fl = finish_times@;
        let ghost pl = parents@;
        let ghost ol = discovery_order@;
        proof {
            assert(!fl.contains_key(node) && dl.contains_key(node)) by {
                reveal(Graph::dfs_grows);
            }
            assert forall|w: u64| #[trigger] self.has_edge(node, w) implies dl.contains_key(w) by {
                let tg = targets(nbrs@);
                let m = choose|m: int| 0 <= m < tg.len() && tg[m] == w;
                assert(nbrs@[m].0 == w);
            }
            self.lemma_dfs_finish(source, dl, fl, pl, ol, *time, node);
        }
        *time = *time + 1;
        finish_times.insert(node, *time);
        proof {
            assert(forall|v: u64| #[trigger] f0.contains_key(v) ==> d0.contains_key(v)) by {
                reveal(Graph::dfs_state);
            }
            Self::lemma_dfs_close(d0, f0, p0, o0, d1, f1, p1, o1, dl, fl, pl, ol, node, *time);
        }
    }

    /// The search root is discovered before anything else is.
    proof fn lemma_dfs_source_discovered(&self, s: u64, d: Map<u64, usize>, p: Map<u64, u64>, v: u64)
        requires
            d.contains_key(v),
            forall|w: u64| #[trigger] d.contains_key(w) && w != s ==> p.contains_key(w),
            forall|w: u64|
                #[trigger] p.contains_key(w) ==> d.contains_key(p[w]) && self.has_edge(p[w], w) && d[p[w]] < d[w],
        ensures
            d.contains_key(s),
        decreases d[v],
    {
        if v != s {
            self.lemma_dfs_source_discovered(s, d, p, p[v]);
        }
    }
}

} // verus!

verus! {

/// Connected components result
pub struct ConnectedComponentsResult {
    /// Component ID for each node
    pub components: HashMap<u64, usize>,
    /// Number of connected components
    pub component_count: usize,
    /// Nodes in each component
    pub component_nodes: HashMap<usize, Vec<u64>>,
}

impl Graph {
    /// What the search along out-edges yields. Nodes are taken in order; each one
    /// not yet assigned starts a new component (its first member) that gets
    /// everything reachable from it that is not yet assigned. Hence every
    /// node and everything reachable from one is assigned, edges never lead
    /// to a later component, and each id lies in the first component whose
    /// start reaches it.
    pub open spec fn components_correct(&self, r: ConnectedComponentsResult) -> bool {
        let c = r.components@;
        let m = r.component_nodes@;
        let n = r.component_count;
        &&& forall|v: u64| self.node_seq().contains(v) ==> #[trigger] c.contains_key(v)
        &&& forall|v: u64| #[trigger] c.contains_key(v) ==> c[v] < n
        &&& forall|k: usize| #[trigger] m.contains_key(k) <==> k < n
        &&& forall|k: usize| k < n ==> {
            let members = #[trigger] m[k]@;
            &&& members.len() >= 1
            &&& members.no_duplicates()
            &&& self.node_seq().contains(members[0])
            &&& forall|v: u64| #[trigger] members.contains(v) <==> (c.contains_key(v) && c[v] == k)
        }
        &&& forall|v: u64| #[trigger] c.contains_key(v) ==> self.reachable(m[c[v]]@[0], v)
        &&& forall|u: u64, v: u64| #[trigger] c.contains_key(u) && #[trigger] self.has_edge(u, v)
            ==> c.contains_key(v) && c[v] <= c[u]
    }

    /// Components by repeated depth-first search along out-edges.
    fn search_components(&self) -> (r: ConnectedComponentsResult)
        requires
            self.wf(),
        ensures
            self.components_correct(r),
    {
        proof {
            self.lemma_universe();
        }
        let mut components: HashMap<u64, usize> = HashMap::new();
        let mut component_nodes: HashMap<usize, Vec<u64>> = HashMap::new();
        let mut component_count: usize = 0;
        let mut order: Vec<u64> = Vec::new();
        let mut i: usize = 0;
        while i < self.nodes.len()
            invariant
                self.wf(),
                self.universe().finite(),
                forall|n: u64| self.nodes@.contains(n) ==> #[trigger] self.universe().contains(n),
                forall|a: u64, b: u64| #[trigger] self.has_edge(a, b) ==> self.universe().contains(b),
                i <= self.nodes@.len(),
                order@.no_duplicates(),
                forall|k: int| 0 <= k < order@.len() ==> self.universe().contains(#[trigger] order@[k]),
                forall|v: u64| #[trigger] components@.contains_key(v) <==> order@.contains(v),
                forall|k: int| 0 <= k < i ==> components@.contains_key(#[trigger] self.nodes@[k]),
                forall|v: u64| #[trigger] components@.contains_key(v) ==> components@[v] < component_count,
                forall|k: usize| #[trigger] component_nodes@.contains_key(k) <==> k < component_count,
                forall|k: usize| k < component_count ==> {
                    let members = #[trigger] component_nodes@[k]@;
                    &&& members.len() >= 1
                    &&& members.no_duplicates()
                    &&& self.node_seq().contains(members[0])
                    &&& forall|v: u64| #[trigger] members.contains(v) <==> (components@.contains_key(v) && components@[v] == k)
                },
                forall|v: u64| #[trigger] components@.contains_key(v)
                    ==> self.reachable(component_nodes@[components@[v]]@[0], v),
                forall|u: u64, v: u64| #[trigger] components@.contains_key(u) && #[trigger] self.has_edge(u, v)
                    ==> components@.contains_key(v) && components@[v] <= components@[u],
                component_count <= order@.len(),
            decreases self.nodes@.len() - i,
        {
            let node = self.nodes[i];
            if !components.contains_key(&node) {
                let ghost c0 = components@;
                let ghost o0 = order@;
                proof {
                    assert(self.nodes@.contains(node));
                    lemma_distinct_in_set_bounded(o0, self.universe());
                    assert(!o0.contains(node));
                }
                let mut members: Vec<u64> = Vec::new();
                self.dfs_component(node, component_count, &mut components, &mut members, &mut order);
                proof {
                    assert(members@.len() >= 1);
                    assert(members@[0] == node);
                    assert(component_count < order.len());
                    lemma_distinct_in_set_bounded(order@, self.universe());
                    assert forall|v: u64| #[trigger] members@.contains(v) <==> (components@.contains_key(v) && components@[v] == component_count) by {
                        if components@.contains_key(v) && components@[v] == component_count {
                            if c0.contains_key(v) {
                                assert(c0[v] < component_count);
                            }
                        }
                    }
                }
                let ghost mv = members@;
                let ghost cn0 = component_nodes@;
                component_nodes.insert(component_count, members);
                proof {
                    let cc = component_count;
                    assert forall|k: usize| k < cc + 1 implies {
                        let ms = #[trigger] component_nodes@[k]@;
                        &&& ms.len() >= 1
                        &&& ms.no_duplicates()
                        &&& self.node_seq().contains(ms[0])
                        &&& forall|v: u64| #[trigger] ms.contains(v) <==> (components@.contains_key(v) && components@[v] == k)
                    } by {
                        if k < cc {
                            let ms = component_nodes@[k]@;
                            assert(ms == cn0[k]@);
                            assert forall|v: u64| #[trigger] ms.contains(v) <==> (components@.contains_key(v) && components@[v] == k) by {
                                if ms.contains(v) {
                                    assert(c0.contains_key(v));
                                }
                                if components@.contains_key(v) && components@[v] == k {
                                    if !c0.contains_key(v) {
                                        assert(components@[v] == cc);
                                    }
                                }
                            }
                        } else {
                            assert(component_nodes@[k]@ == mv);
                        }
                    }
                    assert forall|v: u64| #[trigger] components@.contains_key(v) implies
                        self.reachable(component_nodes@[components@[v]]@[0], v) by {
                        if c0.contains_key(v) {
                            assert(component_nodes@[c0[v]] == cn0[c0[v]]);
                        } else {
                            assert(components@[v] == cc);
                        }
                    }
                }
                component_count = component_count + 1;
            }
            i = i + 1;
        }
        ConnectedComponentsResult { components, component_count, component_nodes }
    }

    /// DFS helper for connected components
    #[verifier::rlimit(40)]
    fn dfs_component(
        &self,
        node: u64,
        component_id: usize,
        components: &mut HashMap<u64, usize>,
        members: &mut Vec<u64>,
        order: &mut Vec<u64>,
    )
        requires
            self.wf(),
            self.universe().finite(),
            forall|a: u64, b: u64| #[trigger] self.has_edge(a, b) ==> self.universe().contains(b),
            self.universe().contains(node),
            !old(components)@.contains_key(node),
            old(order)@.no_duplicates(),
            forall|k: int| 0 <= k < old(order)@.len() ==> self.universe().contains(#[trigger] old(order)@[k]),
            forall|v: u64| #[trigger] old(components)@.contains_key(v) <==> old(order)@.contains(v),
            forall|v: u64| #[trigger] old(components)@.contains_key(v) ==> old(components)@[v] <= component_id,
            old(members)@.no_duplicates(),
            forall|v: u64| #[trigger] old(members)@.contains(v) ==> old(components)@.contains_key(v)
                && old(components)@[v] == component_id,
        ensures
            final(order)@.no_duplicates(),
            forall|k: int| 0 <= k < final(order)@.len() ==> self.universe().contains(#[trigger] final(order)@[k]),
            forall|v: u64| #[trigger] final(components)@.contains_key(v) <==> final(order)@.contains(v),
            old(order)@.len() < final(order)@.len(),
            final(components)@.contains_key(node),
            final(components)@[node] == component_id,
            old(members)@.len() < final(members)@.len(),
            final(members)@[old(members)@.len() as int] == node,
            final(members)@.subrange(0, old(members)@.len() as int) == old(members)@,
            final(members)@.no_duplicates(),
            forall|v: u64| #[trigger] old(components)@.contains_key(v) ==> final(components)@.contains_key(v)
                && final(components)@[v] == old(components)@[v],
            forall|v: u64| #[trigger] final(members)@.contains(v) <==> (old(members)@.contains(v)
                || (final(components)@.contains_key(v) && !old(components)@.contains_key(v))),
            forall|v: u64| #[trigger] final(components)@.contains_key(v) && !old(components)@.contains_key(v)
                ==> final(components)@[v] == component_id && self.reachable(node, v),
            forall|u: u64, v: u64| #[trigger] final(components)@.contains_key(u) && !old(components)@.contains_key(u)
                && #[trigger] self.has_edge(u, v) ==> final(components)@.contains_key(v)
                && final(components)@[v] <= component_id,
            forall|v: u64| #[trigger] final(components)@.contains_key(v) ==> final(components)@[v] <= component_id,
        decreases self.universe().len() - old(order)@.len(),
    {
        let ghost c0 = components@;
        let ghost m0 = members@;
        let ghost o0 = order@;
        proof {
            lemma_distinct_in_set_bounded(o0, self.universe());
            assert(!o0.contains(node));
            assert(!m0.contains(node));
        }
        components.insert(node, component_id);
        members.push(node);
        order.push(node);
        let ghost c1 = components@;
        let ghost m1 = members@;
        let ghost o1 = order@;
        proof {
            lemma_push_fresh(o0, node);
            lemma_push_fresh(m0, node);
            assert forall|k: int| 0 <= k < o1.len() implies self.universe().contains(#[trigger] o1[k]) by {
                if k < o0.len() {
                    assert(o1[k] == o0[k]);
                }
            }
            assert forall|v: u64| #[trigger] c1.contains_key(v) <==> o1.contains(v) by {
                if v != node && o1.contains(v) {
                    let k = choose|k: int| 0 <= k < o1.len() && o1[k] == v;
                    assert(o0[k] == v);
                }
                if v != node && c1.contains_key(v) {
                    let k = choose|k: int| 0 <= k < o0.len() && o0[k] == v;
                    assert(o1[k] == v);
                }
            }
            assert forall|v: u64| #[trigger] m1.contains(v) <==> (m0.contains(v) || v == node) by {
                if v != node && m1.contains(v) {
                    let k = choose|k: int| 0 <= k < m1.len() && m1[k] == v;
                    assert(m0[k] == v);
                }
                if m0.contains(v) {
                    let k = choose|k: int| 0 <= k < m0.len() && m0[k] == v;
                    assert(m1[k] == v);
                }
            }
            assert(self.reachable(node, node)) by {
                let p = seq![node];
                assert(self.is_path(p));
                assert(self.reachable_in(node, node, 0));
            }
            assert(m1.subrange(0, m0.len() as int) =~= m0);
            assert forall|v: u64| #[trigger] m0.contains(v) implies c0.contains_key(v) && c0[v] == component_id by {
                assert(old(members)@.contains(v));
            }
        }
        let nbrs = self.get_neighbors(node);
        let mut j: usize = 0;
        while j < nbrs.len()
            invariant
                self.wf(),
                self.universe().finite(),
                forall|a: u64, b: u64| #[trigger] self.has_edge(a, b) ==> self.universe().contains(b),
                nbrs@ == self.out_edges(node),
                j <= nbrs@.len(),
                o0 == old(order)@,
                order@.no_duplicates(),
                forall|k: int| 0 <= k < order@.len() ==> self.universe().contains(#[trigger] order@[k]),
                forall|v: u64| #[trigger] components@.contains_key(v) <==> order@.contains(v),
                o0.len() < order@.len(),
                components@.contains_key(node),
                components@[node] == component_id,
                !c0.contains_key(node),
                m0.len() < members@.len(),
                members@[m0.len() as int] == node,
                forall|v: u64| #[trigger] m0.contains(v) ==> c0.contains_key(v) && c0[v] == component_id,
                members@.subrange(0, m0.len() as int) == m0,
                members@.no_duplicates(),
                forall|v: u64| #[trigger] c0.contains_key(v) ==> components@.contains_key(v)
                    && components@[v] == c0[v],
                forall|v: u64| #[trigger] members@.contains(v) <==> (m0.contains(v)
                    || (components@.contains_key(v) && !c0.contains_key(v))),
                forall|v: u64| #[trigger] components@.contains_key(v) && !c0.contains_key(v)
                    ==> components@[v] == component_id && self.reachable(node, v),
                forall|u: u64, v: u64| #[trigger] components@.contains_key(u) && !c0.contains_key(u) && u != node
                    && #[trigger] self.has_edge(u, v) ==> components@.contains_key(v)
                    && components@[v] <= component_id,
                forall|v: u64| #[trigger] components@.contains_key(v) ==> components@[v] <= component_id,
                forall|m: int| 0 <= m < j ==> components@.contains_key(#[trigger] nbrs@[m].0),
            decreases nbrs@.len() - j,
        {
            let neighbor = nbrs[j].0;
            proof {
                assert(targets(nbrs@)[j as int] == neighbor);
                assert(self.has_edge(node, neighbor));
            }
            if !components.contains_key(&neighbor) {
                let ghost cm = components@;
                let ghost mm = members@;
                let ghost om = order@;
                proof {
                    lemma_distinct_in_set_bounded(om, self.universe());
                    assert forall|v: u64| #[trigger] mm.contains(v) implies cm.contains_key(v) && cm[v] == component_id by {
                        if m0.contains(v) {
                            assert(c0.contains_key(v));
                        }
                    }
                }
                self.dfs_component(neighbor, component_id, components, members, order);
                proof {
                    assert(members@[m0.len() as int] == node) by {
                        assert(members@.subrange(0, mm.len() as int)[m0.len() as int] == mm[m0.len() as int]);
                    }
                    assert(members@.subrange(0, m0.len() as int) =~= m0) by {
                        assert forall|k: int| 0 <= k < m0.len() implies members@[k] == m0[k] by {
                            assert(mm.subrange(0, m0.len() as int)[k] == m0[k]);
                            assert(members@.subrange(0, mm.len() as int)[k] == mm[k]);
                        }
                    }
                    assert forall|v: u64| #[trigger] components@.contains_key(v) && !c0.contains_key(v)
                        implies components@[v] == component_id && self.reachable(node, v) by {
                        if !cm.contains_key(v) {
                            self.lemma_reach_prepend(node, neighbor, v);
                        }
                    }
                    assert forall|u: u64, v: u64| #[trigger] components@.contains_key(u) && !c0.contains_key(u) && u != node
                        && #[trigger] self.has_edge(u, v) implies components@.contains_key(v)
                        && components@[v] <= component_id by {
                        if cm.contains_key(u) {
                            assert(cm.contains_key(v));
                        }
                    }
                    assert forall|v: u64| #[trigger] members@.contains(v) <==> (m0.contains(v)
                        || (components@.contains_key(v) && !c0.contains_key(v))) by {
                        if members@.contains(v) && !mm.contains(v) {
                            assert(!cm.contains_key(v));
                        }
                    }
                    assert forall|m: int| 0 <= m < j + 1 implies components@.contains_key(#[trigger] nbrs@[m].0) by {
                        if m < j {
                            assert(cm.contains_key(nbrs@[m].0));
                        }
                    }
                }
            }
            j = j + 1;
        }
        proof {
            assert forall|u: u64, v: u64| #[trigger] components@.contains_key(u) && !c0.contains_key(u)
                && #[trigger] self.has_edge(u, v) implies components@.contains_key(v)
                && components@[v] <= component_id by {
                if u == node {
                    let tg = targets(nbrs@);
                    let m = choose|m: int| 0 <= m < tg.len() && tg[m] == v;
                    assert(nbrs@[m].0 == v);
                }
            }
        }
    }

    proof fn lemma_reach_prepend(&self, a: u64, b: u64, v: u64)
        requires
            self.has_edge(a, b),
            self.reachable(b, v),
        ensures
            self.reachable(a, v),
    {
        let n = choose|n: nat| #[trigger] self.reachable_in(b, v, n);
        let p = choose|p: Seq<u64>| #[trigger] self.is_path(p) && p[0] == b && p.last() == v && p.len() == n + 1;
        let q = seq![a] + p;
        assert forall|i: int| 0 <= i < q.len() - 1 implies #[trigger] self.has_edge(q[i], q[i + 1]) by {
            if i == 0 {
                assert(q[1] == p[0]);
            } else {
                assert(q[i] == p[i - 1]);
                assert(q[i + 1] == p[i]);
                assert(self.has_edge(p[i - 1], p[(i - 1) + 1]));
            }
        }
        assert(self.is_path(q));
        assert(q.last() == v);
        assert(self.reachable_in(a, v, n + 1));
    }
}

proof fn lemma_push_fresh(s: Seq<u64>, x: u64)
    requires
        s.no_duplicates(),
        !s.contains(x),
    ensures
        s.push(x).no_duplicates(),
        s.push(x).len() == s.len() + 1,
        s.push(x)[s.len() as int] == x,
        forall|k: int| 0 <= k < s.len() ==> #[trigger] s.push(x)[k] == s[k],
{
    let t = s.push(x);
    assert forall|a: int, b: int| 0 <= a < b < t.len() implies t[a] != t[b] by {
        if b == s.len() {
            assert(t[a] == s[a]);
            assert(s.contains(s[a]));
        } else {
            assert(t[a] == s[a]);
            assert(t[b] == s[b]);
        }
    }
}


impl Graph {
    /// An edge joins `a` and `b`, in either direction.
    pub open spec fn linked(&self, a: u64, b: u64) -> bool {
        self.has_edge(a, b) || self.has_edge(b, a)
    }

    /// `p` is a walk along edges taken in either direction.
    pub open spec fn is_link_path(&self, p: Seq<u64>) -> bool {
        &&& p.len() >= 1
        &&& forall|i: int| 0 <= i < p.len() - 1 ==> #[trigger] self.linked(p[i], p[i + 1])
    }

    /// `u` and `v` are joined by edges, their direction ignored.
    pub open spec fn joined(&self, u: u64, v: u64) -> bool {
        exists|p: Seq<u64>| #[trigger] self.is_link_path(p) && p[0] == u && p.last() == v
    }

    /// The connected components, edge direction ignored: every node and
    /// everything joined to an id that has a component has one; two ids share
    /// a component exactly when they are joined; components are numbered
    /// `0..component_count`, and `component_nodes` lists each one's members,
    /// none twice.
    pub open spec fn components_joined(&self, r: ConnectedComponentsResult) -> bool {
        let c = r.components@;
        let m = r.component_nodes@;
        let n = r.component_count;
        &&& forall|v: u64| self.node_seq().contains(v) ==> #[trigger] c.contains_key(v)
        &&& forall|v: u64| #[trigger] c.contains_key(v) ==> c[v] < n
        &&& forall|k: usize| #[trigger] m.contains_key(k) <==> k < n
        &&& forall|k: usize| k < n ==> {
            let members = #[trigger] m[k]@;
            &&& members.len() >= 1
            &&& members.no_duplicates()
            &&& forall|v: u64| #[trigger] members.contains(v) <==> (c.contains_key(v) && c[v] == k)
        }
        &&& forall|u: u64, v: u64| #[trigger] c.contains_key(u) && #[trigger] self.joined(u, v)
            ==> c.contains_key(v) && c[v] == c[u]
        &&& forall|u: u64, v: u64| #![trigger c[u], c[v]] c.contains_key(u) && c.contains_key(v) && c[u] == c[v]
            ==> self.joined(u, v)
    }

    /// Find connected components, edge direction ignored
    pub fn connected_components(&self) -> (r: ConnectedComponentsResult)
        requires
            self.wf(),
        ensures
            self.components_joined(r),
    {
        let g = self.undirected();
        let r = g.search_components();
        proof {
            let c = r.components@;
            let m = r.component_nodes@;
            assert forall|u: u64, v: u64| #[trigger] c.contains_key(u) && #[trigger] self.joined(u, v)
                implies c.contains_key(v) && c[v] == c[u] by {
                let p = choose|p: Seq<u64>| #[trigger] self.is_link_path(p) && p[0] == u && p.last() == v;
                lemma_same_component_along(*self, g, r, p, p.len() as int - 1);
            }
            assert forall|u: u64, v: u64| #![trigger c[u], c[v]] c.contains_key(u) && c.contains_key(v) && c[u] == c[v]
                implies self.joined(u, v) by {
                let s = m[c[u]]@[0];
                lemma_reach_joined(*self, g, s, u);
                lemma_reach_joined(*self, g, s, v);
                lemma_joined_sym(*self, s, u);
                lemma_joined_trans(*self, u, s, v);
            }
        }
        r
    }

    /// A copy of the graph's nodes with every edge in both directions: its
    /// edges are exactly the pairs this graph links.
    fn undirected(&self) -> (g: Graph)
        requires
            self.wf(),
        ensures
            g.wf(),
            forall|n: u64| self.node_seq().contains(n) ==> #[trigger] g.node_seq().contains(n),
            forall|a: u64, b: u64| #[trigger] g.has_edge(a, b) <==> self.linked(a, b),
    {
        let mut g = Graph::new();
        let n = self.nodes.len();
        let mut i: usize = 0;
        while i < n
            invariant
                self.wf(),
                n == self.nodes@.len(),
                i <= n,
                g.wf(),
                forall|k: int| 0 <= k < i ==> #[trigger] g.node_seq().contains(self.nodes@[k]),
                forall|x: u64| #[trigger] g.out_edges(x) == Seq::<(u64, u64)>::empty(),
            decreases n - i,
        {
            let ghost g0 = g;
            g.add_node(self.nodes[i], Vec::new());
            proof {
                let s0 = g0.node_seq();
                let a = self.nodes@[i as int];
                assert forall|k: int| 0 <= k < i + 1 implies #[trigger] g.node_seq().contains(self.nodes@[k]) by {
                    if k < i {
                        assert(s0.contains(self.nodes@[k]));
                        let q = choose|q: int| 0 <= q < s0.len() && s0[q] == self.nodes@[k];
                        if !s0.contains(a) {
                            assert(g.node_seq()[q] == self.nodes@[k]);
                        }
                    } else if !s0.contains(a) {
                        assert(g.node_seq()[s0.len() as int] == a);
                    }
                }
            }
            i = i + 1;
        }
        let mut i: usize = 0;
        while i < n
            invariant
                self.wf(),
                n == self.nodes@.len(),
                i <= n,
                g.wf(),
                forall|k: int| 0 <= k < n ==> #[trigger] g.node_seq().contains(self.nodes@[k]),
                forall|x: u64, y: u64| #[trigger] g.has_edge(x, y) <==> self.links_upto(i as int, 0, x, y),
            decreases n - i,
        {
            let a = self.nodes[i];
            let out = &self.adjacency[i];
            let mut j: usize = 0;
            proof {
                assert(self.nodes@.index_of(a) == i as int) by {
                    assert(self.nodes@.contains(a));
                    let q = self.nodes@.index_of(a);
                    assert(self.nodes@[q] == a);
                }
                assert(out@ == self.out_edges(a));
            }
            while j < out.len()
                invariant
                    self.wf(),
                    n == self.nodes@.len(),
                    i < n,
                    a == self.nodes@[i as int],
                    out@ == self.out_edges(a),
                    j <= out@.len(),
                    g.wf(),
                    forall|k: int| 0 <= k < n ==> #[trigger] g.node_seq().contains(self.nodes@[k]),
                    forall|x: u64, y: u64| #[trigger] g.has_edge(x, y) <==> self.links_upto(i as int, j as int, x, y),
                decreases out@.len() - j,
            {
                let (t, w) = out[j];
                let ghost g0 = g;
                g.link(a, t, w);
                let ghost g1 = g;
                g.link(t, a, w);
                proof {
                    assert(self.out_edges(a)[j as int].0 == t);
                    assert forall|k: int| 0 <= k < n implies #[trigger] g.node_seq().contains(self.nodes@[k]) by {
                        assert(g0.node_seq().contains(self.nodes@[k]));
                        assert(g1.node_seq().contains(self.nodes@[k]));
                    }
                    assert forall|x: u64, y: u64| #[trigger] g.has_edge(x, y) <==> self.links_upto(i as int, j as int + 1, x, y) by {
                        lemma_targets_push(g0.out_edges(x), (t, w));
                        lemma_targets_push(g1.out_edges(x), (a, w));
                        self.lemma_links_step(i as int, j as int, x, y);
                        assert(g0.has_edge(x, y) <==> self.links_upto(i as int, j as int, x, y));
                        assert(self.edge_pair(i as int, j as int, x, y) <==> ((x == a && y == t) || (x == t && y == a)));
                        if x == a {
                            assert(g1.out_edges(x) == g0.out_edges(x).push((t, w)));
                        } else {
                            assert(g1.out_edges(x) == g0.out_edges(x));
                        }
                        if x == t {
                            assert(g.out_edges(x) == g1.out_edges(x).push((a, w)));
                        } else {
                            assert(g.out_edges(x) == g1.out_edges(x));
                        }
                    }
                }
                j = j + 1;
            }
            proof {
                assert forall|x: u64, y: u64| #[trigger] g.has_edge(x, y) <==> self.links_upto(i as int + 1, 0, x, y) by {
                    self.lemma_links_row_end(i as int, x, y);
                }
            }
            i = i + 1;
        }
        proof {
            assert forall|x: u64, y: u64| #[trigger] g.has_edge(x, y) <==> self.linked(x, y) by {
                self.lemma_links_all(x, y);
            }
            assert forall|x: u64| self.node_seq().contains(x) implies #[trigger] g.node_seq().contains(x) by {
                let k = self.nodes@.index_of(x);
                assert(self.nodes@[k] == x);
            }
        }
        g
    }

    /// The pair `(x, y)` is one of the first edges, either way round: those
    /// of the nodes before position `i`, and the first `j` of node `i`.
    spec fn links_upto(&self, i: int, j: int, x: u64, y: u64) -> bool {
        exists|k: int, l: int| 0 <= k <= i && k < self.nodes@.len() && 0 <= l
            && (if k < i { l < self.out_edges(self.nodes@[k]).len() } else { l < j })
            && #[trigger] self.edge_pair(k, l, x, y)
    }

    /// The `l`-th edge of the node at position `k` joins `x` and `y`, either way round.
    spec fn edge_pair(&self, k: int, l: int, x: u64, y: u64) -> bool {
        let a = self.nodes@[k];
        let b = self.out_edges(a)[l].0;
        (x == a && y == b) || (x == b && y == a)
    }

    proof fn lemma_links_step(&self, i: int, j: int, x: u64, y: u64)
        requires
            self.wf(),
            0 <= i < self.nodes@.len(),
            0 <= j < self.out_edges(self.nodes@[i]).len(),
        ensures
            self.links_upto(i, j + 1, x, y) <==> (self.links_upto(i, j, x, y) || self.edge_pair(i, j, x, y)),
    {
        if self.links_upto(i, j + 1, x, y) && !self.edge_pair(i, j, x, y) {
            let (k, l) = choose|k: int, l: int| 0 <= k <= i && k < self.nodes@.len() && 0 <= l
                && (if k < i { l < self.out_edges(self.nodes@[k]).len() } else { l < j + 1 })
                && #[trigger] self.edge_pair(k, l, x, y);
            assert(self.links_upto(i, j, x, y));
        }
    }

    proof fn lemma_links_row_end(&self, i: int, x: u64, y: u64)
        requires
            self.wf(),
            0 <= i < self.nodes@.len(),
        ensures
            self.links_upto(i, self.out_edges(self.nodes@[i]).len() as int, x, y) <==> self.links_upto(i + 1, 0, x, y),
    {
        if self.links_upto(i + 1, 0, x, y) {
            let (k, l) = choose|k: int, l: int| 0 <= k <= i + 1 && k < self.nodes@.len() && 0 <= l
                && (if k < i + 1 { l < self.out_edges(self.nodes@[k]).len() } else { l < 0 })
                && #[trigger] self.edge_pair(k, l, x, y);
            assert(self.links_upto(i, self.out_edges(self.nodes@[i]).len() as int, x, y));
        }
    }

    proof fn lemma_links_all(&self, x: u64, y: u64)
        requires
            self.wf(),
        ensures
            self.links_upto(self.nodes@.len() as int, 0, x, y) <==> self.linked(x, y),
    {
        let n = self.nodes@.len() as int;
        if self.links_upto(n, 0, x, y) {
            let (k, l) = choose|k: int, l: int| 0 <= k <= n && k < self.nodes@.len() && 0 <= l
                && (if k < n { l < self.out_edges(self.nodes@[k]).len() } else { l < 0 })
                && #[trigger] self.edge_pair(k, l, x, y);
            let a = self.nodes@[k];
            let b = self.out_edges(a)[l].0;
            assert(targets(self.out_edges(a))[l] == b);
            assert(self.has_edge(a, b));
        }
        if self.has_edge(x, y) {
            self.lemma_edge_position(x, y);
        }
        if self.has_edge(y, x) {
            self.lemma_edge_position(y, x);
        }
    }

    proof fn lemma_edge_position(&self, a: u64, b: u64)
        requires
            self.wf(),
            self.has_edge(a, b),
        ensures
            self.links_upto(self.nodes@.len() as int, 0, a, b),
            self.links_upto(self.nodes@.len() as int, 0, b, a),
    {
        assert(self.nodes@.contains(a));
        let k = self.nodes@.index_of(a);
        assert(self.nodes@[k] == a);
        let t = targets(self.out_edges(a));
        let l = choose|l: int| 0 <= l < t.len() && t[l] == b;
        assert(self.edge_pair(k, l, a, b));
        assert(self.edge_pair(k, l, b, a));
    }

    /// Add the edge `from -> to` to the adjacency alone; `from` becomes a node
    /// if it was none.
    fn link(&mut self, from: u64, to: u64, weight_bits: u64)
        requires
            old(self).wf(),
        ensures
            final(self).wf(),
            forall|n: u64| old(self).node_seq().contains(n) ==> #[trigger] final(self).node_seq().contains(n),
            final(self).out_edges(from) == old(self).out_edges(from).push((to, weight_bits)),
            forall|n: u64| n != from ==> #[trigger] final(self).out_edges(n) == old(self).out_edges(n),
    {
        match self.position(from) {
            Some(i) => {
                self.adjacency[i].push((to, weight_bits));
                proof {
                    assert forall|n: u64| n != from implies #[trigger] self.out_edges(n) == old(self).out_edges(n) by {
                        if self.nodes@.contains(n) {
                            let j = self.nodes@.index_of(n);
                            assert(self.nodes@[j] == n);
                        }
                    }
                }
            },
            None => {
                let mut v: Vec<(u64, u64)> = Vec::new();
                v.push((to, weight_bits));
                self.nodes.push(from);
                self.adjacency.push(v);
                self.node_labels.push(None);
                proof {
                    let old_nodes = old(self).nodes@;
                    lemma_index_of_push(old_nodes, from);
                    assert forall|n: u64| n != from implies #[trigger] self.out_edges(n) == old(self).out_edges(n) by {
                        if old_nodes.contains(n) {
                            lemma_index_of_push_other(old_nodes, from, n);
                        } else {
                            assert(!self.nodes@.contains(n)) by {
                                if self.nodes@.contains(n) {
                                    let j = self.nodes@.index_of(n);
                                    assert(self.nodes@[j] == n);
                                    assert(old_nodes[j] == n);
                                }
                            }
                        }
                    }
                    assert(old(self).out_edges(from) == Seq::<(u64, u64)>::empty());
                    assert(self.out_edges(from) == seq![(to, weight_bits)]);
                    assert forall|n: u64| old(self).node_seq().contains(n) implies #[trigger] self.node_seq().contains(n) by {
                        let j = old_nodes.index_of(n);
                        assert(old_nodes[j] == n);
                        assert(self.nodes@[j] == n);
                    }
                }
            },
        }
    }
}

proof fn lemma_targets_push(s: Seq<(u64, u64)>, e: (u64, u64))
    ensures
        forall|y: u64| #[trigger] targets(s.push(e)).contains(y) <==> (targets(s).contains(y) || y == e.0),
{
    let t = targets(s.push(e));
    let t0 = targets(s);
    assert(t =~= t0.push(e.0));
    assert forall|y: u64| #[trigger] t.contains(y) <==> (t0.contains(y) || y == e.0) by {
        if t.contains(y) {
            let k = choose|k: int| 0 <= k < t.len() && t[k] == y;
            if k < t0.len() {
                assert(t0[k] == y);
            }
        }
        if t0.contains(y) {
            let k = choose|k: int| 0 <= k < t0.len() && t0[k] == y;
            assert(t[k] == y);
        }
        if y == e.0 {
            assert(t[t0.len() as int] == y);
        }
    }
}

/// Along a walk that ignores direction, every id from a component's member
/// on shares its component.
proof fn lemma_same_component_along(g0: Graph, g: Graph, r: ConnectedComponentsResult, p: Seq<u64>, i: int)
    requires
        g.components_correct(r),
        forall|a: u64, b: u64| #[trigger] g.has_edge(a, b) <==> g0.linked(a, b),
        g0.is_link_path(p),
        0 <= i < p.len(),
        r.components@.contains_key(p[0]),
    ensures
        r.components@.contains_key(p[i]),
        r.components@[p[i]] == r.components@[p[0]],
    decreases i,
{
    if i > 0 {
        lemma_same_component_along(g0, g, r, p, i - 1);
        let a = p[i - 1];
        let b = p[i];
        assert(g0.linked(p[i - 1], p[(i - 1) + 1]));
        assert(g.has_edge(a, b));
        assert(g.has_edge(b, a));
    }
}

/// A walk in the two-way copy is a walk of the graph that ignores direction.
proof fn lemma_reach_joined(g0: Graph, g: Graph, s: u64, v: u64)
    requires
        forall|a: u64, b: u64| #[trigger] g.has_edge(a, b) <==> g0.linked(a, b),
        g.reachable(s, v),
    ensures
        g0.joined(s, v),
{
    let d = choose|d: nat| #[trigger] g.reachable_in(s, v, d);
    let p = choose|p: Seq<u64>| #[trigger] g.is_path(p) && p[0] == s && p.last() == v && p.len() == d + 1;
    assert forall|i: int| 0 <= i < p.len() - 1 implies #[trigger] g0.linked(p[i], p[i + 1]) by {
        assert(g.has_edge(p[i], p[i + 1]));
    }
    assert(g0.is_link_path(p));
}

proof fn lemma_joined_sym(g: Graph, u: u64, v: u64)
    requires
        g.joined(u, v),
    ensures
        g.joined(v, u),
{
    let p = choose|p: Seq<u64>| #[trigger] g.is_link_path(p) && p[0] == u && p.last() == v;
    let q = p.reverse();
    assert forall|i: int| 0 <= i < q.len() - 1 implies #[trigger] g.linked(q[i], q[i + 1]) by {
        let k = p.len() - 2 - i;
        assert(g.linked(p[k], p[k + 1]));
        assert(q[i] == p[k + 1]);
        assert(q[i + 1] == p[k]);
    }
    assert(g.is_link_path(q));
    assert(q[0] == v);
    assert(q.last() == u);
}

proof fn lemma_joined_trans(g: Graph, u: u64, s: u64, v: u64)
    requires
        g.joined(u, s),
        g.joined(s, v),
    ensures
        g.joined(u, v),
{
    let p = choose|p: Seq<u64>| #[trigger] g.is_link_path(p) && p[0] == u && p.last() == s;
    let q = choose|q: Seq<u64>| #[trigger] g.is_link_path(q) && q[0] == s && q.last() == v;
    let w = p + q.drop_first();
    assert forall|i: int| 0 <= i < w.len() - 1 implies #[trigger] g.linked(w[i], w[i + 1]) by {
        if i < p.len() - 1 {
            assert(w[i] == p[i]);
            assert(w[i + 1] == p[i + 1]);
            assert(g.linked(p[i], p[i + 1]));
        } else if i == p.len() - 1 {
            assert(w[i] == s);
            assert(w[i + 1] == q[1]);
            assert(g.linked(q[0int], q[0int + 1]));
        } else {
            let k = i - p.len() + 1;
            assert(w[i] == q[k]);
            assert(w[i + 1] == q[k + 1]);
            assert(g.linked(q[k], q[k + 1]));
        }
    }
    assert(g.is_link_path(w));
    if q.len() == 1 {
        assert(w =~= p);
    }
    assert(w.last() == v);
}

} // verus!

verus! {

/// Topological sort result
pub struct TopologicalSortResult {
    /// Topologically sorted nodes
    pub sorted_nodes: Vec<u64>,
    /// Whether the graph has cycles
    pub has_cycle: bool,
}

impl Graph {
    /// The graph holds a closed walk of at least one edge.
    pub open spec fn has_cycle_path(&self) -> bool {
        exists|p: Seq<u64>| #[trigger] self.is_path(p) && p.len() >= 2 && p[0] == p.last()
    }

    /// What topological sorting yields: a cycle is reported exactly when the
    /// graph has one; otherwise every node and everything reachable from it is
    /// listed once, and every edge between listed ids points forward.
    pub open spec fn topo_correct(&self, r: TopologicalSortResult) -> bool {
        let s = r.sorted_nodes@;
        &&& r.has_cycle == self.has_cycle_path()
        &&& !r.has_cycle ==> {
            &&& s.no_duplicates()
            &&& forall|v: u64| self.node_seq().contains(v) ==> #[trigger] s.contains(v)
            &&& forall|i: int, w: u64| 0 <= i < s.len() && #[trigger] self.has_edge(s[i], w) ==> s.contains(w)
            &&& forall|i: int, j: int| 0 <= i < s.len() && 0 <= j < s.len()
                && #[trigger] self.has_edge(s[i], s[j]) ==> i < j
        }
    }

    /// Search state of the topological sort: finished ids in finishing order,
    /// closed under edges with every edge pointing to an earlier-finished id,
    /// and the current walk of unfinished ids.
    #[verifier::opaque]
    spec fn topo_state(&self, v: Set<u64>, s: Seq<u64>, stack: Seq<u64>, t: Set<u64>) -> bool {
        &&& s.no_duplicates()
        &&& forall|x: u64| #[trigger] v.contains(x) <==> s.contains(x)
        &&& forall|k: int| 0 <= k < s.len() ==> self.universe().contains(#[trigger] s[k])
        &&& stack.no_duplicates()
        &&& forall|x: u64| #[trigger] t.contains(x) <==> stack.contains(x)
        &&& forall|k: int| 0 <= k < stack.len() ==> self.universe().contains(#[trigger] stack[k])
        &&& forall|x: u64| !(#[trigger] v.contains(x) && t.contains(x))
        &&& forall|i: int, w: u64| 0 <= i < s.len() && #[trigger] self.has_edge(s[i], w) ==> v.contains(w)
        &&& forall|i: int, j: int| 0 <= i < s.len() && 0 <= j < s.len() && #[trigger] self.has_edge(s[i], s[j]) ==> j < i
        &&& forall|i: int| 0 <= i < stack.len() - 1 ==> #[trigger] self.has_edge(stack[i], stack[i + 1])
    }

    proof fn lemma_topo_bound(&self, v: Set<u64>, s: Seq<u64>, stack: Seq<u64>, t: Set<u64>)
        requires
            self.topo_state(v, s, stack, t),
            self.universe().finite(),
        ensures
            s.len() + stack.len() <= self.universe().len(),
    {
        reveal(Graph::topo_state);
        let c = s + stack;
        assert forall|a: int, b: int| 0 <= a < b < c.len() implies c[a] != c[b] by {
            if a < s.len() && b >= s.len() {
                assert(c[a] == s[a]);
                assert(c[b] == stack[b - s.len()]);
                assert(s.contains(s[a]));
                assert(stack.contains(stack[b - s.len()]));
                assert(v.contains(s[a]));
                assert(t.contains(stack[b - s.len()]));
                assert(!(v.contains(s[a]) && t.contains(s[a])));
            } else if b < s.len() {
                assert(c[a] == s[a]);
                assert(c[b] == s[b]);
            } else {
                assert(c[a] == stack[a - s.len()]);
                assert(c[b] == stack[b - s.len()]);
            }
        }
        assert forall|k: int| 0 <= k < c.len() implies self.universe().contains(#[trigger] c[k]) by {
            if k < s.len() {
                assert(c[k] == s[k]);
            } else {
                assert(c[k] == stack[k - s.len()]);
            }
        }
        lemma_distinct_in_set_bounded(c, self.universe());
    }

    /// Perform topological sort using DFS
    pub fn topological_sort(&self) -> (r: TopologicalSortResult)
        requires
            self.wf(),
        ensures
            self.topo_correct(r),
    {
        proof {
            self.lemma_universe();
        }
        let mut visited: std::collections::HashSet<u64> = std::collections::HashSet::new();
        let mut temp_visited: std::collections::HashSet<u64> = std::collections::HashSet::new();
        let mut sorted_nodes: Vec<u64> = Vec::new();
        let mut has_cycle = false;
        proof {
            reveal(Graph::topo_state);
            assert(self.topo_state(visited@, sorted_nodes@, Seq::empty(), temp_visited@));
        }
        let mut i: usize = 0;
        while i < self.nodes.len()
            invariant
                self.wf(),
                self.universe().finite(),
                forall|n: u64| self.nodes@.contains(n) ==> #[trigger] self.universe().contains(n),
                forall|a: u64, b: u64| #[trigger] self.has_edge(a, b) ==> self.universe().contains(b),
                i <= self.nodes@.len(),
                !has_cycle,
                self.topo_state(visited@, sorted_nodes@, Seq::empty(), temp_visited@),
                forall|k: int| 0 <= k < i ==> visited@.contains(#[trigger] self.nodes@[k]),
            decreases self.nodes@.len() - i,
        {
            let node = self.nodes[i];
            if !visited.contains(&node) {
                proof {
                    assert(self.nodes@.contains(node));
                }
                let found = self.dfs_topological(
                    node,
                    &mut visited,
                    &mut temp_visited,
                    &mut sorted_nodes,
                    &mut has_cycle,
                    Ghost(Seq::empty()),
                );
                if found {
                    has_cycle = true;
                    let r = TopologicalSortResult { sorted_nodes: reverse_ids(&sorted_nodes), has_cycle };
                    return r;
                }
            }
            i = i + 1;
        }
        let ghost s = sorted_nodes@;
        let rev = reverse_ids(&sorted_nodes);
        let r = TopologicalSortResult { sorted_nodes: rev, has_cycle };
        proof {
            reveal(Graph::topo_state);
            assert(!self.has_cycle_path()) by {
                if self.has_cycle_path() {
                    let p = choose|p: Seq<u64>| #[trigger] self.is_path(p) && p.len() >= 2 && p[0] == p.last();
                    let z: int = 0;
                    assert(self.has_edge(p[z], p[z + 1]));
                    assert(self.nodes@.contains(p[0])) by {
                        if !self.nodes@.contains(p[0]) {
                            assert(self.out_edges(p[0]) == Seq::<(u64, u64)>::empty());
                            assert(targets(self.out_edges(p[0])).len() == 0);
                        }
                    }
                    let k0 = choose|k: int| 0 <= k < self.nodes@.len() && self.nodes@[k] == p[0];
                    assert(visited@.contains(self.nodes@[k0]));
                    self.lemma_topo_descends(s, visited@, p, p.len() - 1);
                }
            }
            let rs = rev@;
            assert forall|v: u64| self.node_seq().contains(v) implies #[trigger] rs.contains(v) by {
                let k = choose|k: int| 0 <= k < self.nodes@.len() && self.nodes@[k] == v;
                assert(visited@.contains(self.nodes@[k]));
                let j = choose|j: int| 0 <= j < s.len() && s[j] == v;
                assert(rs[s.len() - 1 - j] == v);
            }
            assert(rs.no_duplicates()) by {
                assert forall|a: int, b: int| 0 <= a < b < rs.len() implies rs[a] != rs[b] by {
                    assert(rs[a] == s[s.len() - 1 - a]);
                    assert(rs[b] == s[s.len() - 1 - b]);
                }
            }
            assert forall|i2: int, w: u64| 0 <= i2 < rs.len() && #[trigger] self.has_edge(rs[i2], w) implies rs.contains(w) by {
                assert(rs[i2] == s[s.len() - 1 - i2]);
                assert(self.has_edge(s[s.len() - 1 - i2], w));
                assert(visited@.contains(w));
                let j = choose|j: int| 0 <= j < s.len() && s[j] == w;
                assert(rs[s.len() - 1 - j] == w);
            }
            assert forall|a: int, b: int| 0 <= a < rs.len() && 0 <= b < rs.len()
                && #[trigger] self.has_edge(rs[a], rs[b]) implies a < b by {
                assert(rs[a] == s[s.len() - 1 - a]);
                assert(rs[b] == s[s.len() - 1 - b]);
                assert(self.has_edge(s[s.len() - 1 - a], s[s.len() - 1 - b]));
            }
        }
        r
    }

    /// Along a walk that starts at a finished id, every id is finished and
    /// finishing positions strictly decrease.
    proof fn lemma_topo_descends(&self, s: Seq<u64>, v: Set<u64>, p: Seq<u64>, k: int)
        requires
            self.is_path(p),
            0 <= k < p.len(),
            v.contains(p[0]),
            s.no_duplicates(),
            forall|x: u64| #[trigger] v.contains(x) <==> s.contains(x),
            forall|i: int, w: u64| 0 <= i < s.len() && #[trigger] self.has_edge(s[i], w) ==> v.contains(w),
            forall|i: int, j: int| 0 <= i < s.len() && 0 <= j < s.len() && #[trigger] self.has_edge(s[i], s[j]) ==> j < i,
        ensures
            v.contains(p[k]),
            k > 0 ==> s.index_of(p[k]) < s.index_of(p[0]),
            0 <= s.index_of(p[k]) < s.len(),
            s[s.index_of(p[k])] == p[k],
        decreases k,
    {
        if k > 0 {
            self.lemma_topo_descends(s, v, p, k - 1);
            let a = s.index_of(p[k - 1]);
            assert(self.has_edge(p[k - 1], p[(k - 1) + 1]));
            assert(self.has_edge(s[a], p[k]));
            assert(v.contains(p[k]));
            assert(s.contains(p[k]));
            let b = s.index_of(p[k]);
            assert(s[b] == p[k]);
            assert(self.has_edge(s[a], s[b]));
        } else {
            assert(s.contains(p[0]));
            let b = s.index_of(p[0]);
            assert(s[b] == p[0]);
        }
    }

    /// DFS helper for topological sort
    #[verifier::rlimit(40)]
    fn dfs_topological(
        &self,
        node: u64,
        visited: &mut std::collections::HashSet<u64>,
        temp_visited: &mut std::collections::HashSet<u64>,
        sorted_nodes: &mut Vec<u64>,
        has_cycle: &mut bool,
        Ghost(stack): Ghost<Seq<u64>>,
    ) -> (found: bool)
        requires
            self.wf(),
            self.universe().finite(),
            forall|a: u64, b: u64| #[trigger] self.has_edge(a, b) ==> self.universe().contains(b),
            self.universe().contains(node),
            self.topo_state(old(visited)@, old(sorted_nodes)@, stack, old(temp_visited)@),
            stack.len() > 0 ==> self.has_edge(stack.last(), node),
        ensures
            found ==> self.has_cycle_path() && *final(has_cycle),
            !found ==> {
                &&& self.topo_state(final(visited)@, final(sorted_nodes)@, stack, final(temp_visited)@)
                &&& final(visited)@.contains(node)
                &&& final(temp_visited)@ == old(temp_visited)@
                &&& *final(has_cycle) == *old(has_cycle)
                &&& old(sorted_nodes)@.len() <= final(sorted_nodes)@.len()
                &&& final(sorted_nodes)@.subrange(0, old(sorted_nodes)@.len() as int) == old(sorted_nodes)@
                &&& forall|x: u64| #[trigger] old(visited)@.contains(x) ==> final(visited)@.contains(x)
            },
        decreases self.universe().len() - old(sorted_nodes)@.len() - stack.len(),
    {
        proof {
            self.lemma_topo_bound(visited@, sorted_nodes@, stack, temp_visited@);
        }
        if temp_visited.contains(&node) {
            *has_cycle = true;
            proof {
                reveal(Graph::topo_state);
                let i = choose|i: int| 0 <= i < stack.len() && stack[i] == node;
                let p = stack.subrange(i, stack.len() as int).push(node);
                assert forall|k: int| 0 <= k < p.len() - 1 implies #[trigger] self.has_edge(p[k], p[k + 1]) by {
                    if k < p.len() - 2 {
                        assert(p[k] == stack[i + k]);
                        assert(p[k + 1] == stack[i + k + 1]);
                        assert(self.has_edge(stack[i + k], stack[(i + k) + 1]));
                    } else {
                        assert(p[k] == stack.last());
                    }
                }
                assert(self.is_path(p));
                assert(p[0] == p.last());
            }
            return true;
        }
        if visited.contains(&node) {
            proof {
                assert(sorted_nodes@.subrange(0, sorted_nodes@.len() as int) =~= sorted_nodes@);
            }
            return false;
        }
        let ghost v0 = visited@;
        let ghost s0 = sorted_nodes@;
        let ghost t0 = temp_visited@;
        let ghost st = stack.push(node);
        temp_visited.insert(node);
        proof {
            reveal(Graph::topo_state);
            lemma_push_fresh(stack, node);
            assert forall|x: u64| #[trigger] temp_visited@.contains(x) <==> st.contains(x) by {
                if x != node && st.contains(x) {
                    let k = choose|k: int| 0 <= k < st.len() && st[k] == x;
                    assert(stack[k] == x);
                }
                if x != node && temp_visited@.contains(x) {
                    let k = choose|k: int| 0 <= k < stack.len() && stack[k] == x;
                    assert(st[k] == x);
                }
                if x == node {
                    assert(st[stack.len() as int] == node);
                }
            }
            assert forall|k: int| 0 <= k < st.len() implies self.universe().contains(#[trigger] st[k]) by {
                if k < stack.len() {
                    assert(st[k] == stack[k]);
                }
            }
            assert forall|i: int| 0 <= i < st.len() - 1 implies #[trigger] self.has_edge(st[i], st[i + 1]) by {
                if i < stack.len() - 1 {
                    assert(self.has_edge(stack[i], stack[i + 1]));
                } else {
                    assert(st[i] == stack.last());
                    assert(st[i + 1] == node);
                }
            }
            assert(self.topo_state(visited@, sorted_nodes@, st, temp_visited@));
            assert(sorted_nodes@.subrange(0, sorted_nodes@.len() as int) =~= sorted_nodes@);
        }
        let nbrs = self.get_neighbors(node);
        let mut j: usize = 0;
        while j < nbrs.len()
            invariant
                self.wf(),
                self.universe().finite(),
                forall|a: u64, b: u64| #[trigger] self.has_edge(a, b) ==> self.universe().contains(b),
                nbrs@ == self.out_edges(node),
                j <= nbrs@.len(),
                st == stack.push(node),
                st.last() == node,
                s0 == old(sorted_nodes)@,
                self.topo_state(visited@, sorted_nodes@, st, temp_visited@),
                temp_visited@ == t0.insert(node),
                *has_cycle == *old(has_cycle),
                s0.len() <= sorted_nodes@.len(),
                sorted_nodes@.subrange(0, s0.len() as int) == s0,
                forall|x: u64| #[trigger] v0.contains(x) ==> visited@.contains(x),
                v0 == old(visited)@,
                forall|m: int| 0 <= m < j ==> visited@.contains(#[trigger] nbrs@[m].0),
            decreases nbrs@.len() - j,
        {
            let neighbor = nbrs[j].0;
            proof {
                assert(targets(nbrs@)[j as int] == neighbor);
                assert(self.has_edge(node, neighbor));
                self.lemma_topo_bound(visited@, sorted_nodes@, st, temp_visited@);
            }
            let ghost vm = visited@;
            let ghost sm = sorted_nodes@;
            let found = self.dfs_topological(neighbor, visited, temp_visited, sorted_nodes, has_cycle, Ghost(st));
            if found {
                return true;
            }
            proof {
                assert(sorted_nodes@.subrange(0, s0.len() as int) =~= s0) by {
                    assert forall|k: int| 0 <= k < s0.len() implies sorted_nodes@[k] == s0[k] by {
                        assert(sm.subrange(0, s0.len() as int)[k] == s0[k]);
                        assert(sorted_nodes@.subrange(0, sm.len() as int)[k] == sm[k]);
                    }
                }
                assert forall|m: int| 0 <= m < j + 1 implies visited@.contains(#[trigger] nbrs@[m].0) by {
                    if m < j {
                        assert(vm.contains(nbrs@[m].0));
                    }
                }
            }
            j = j + 1;
        }
        let ghost sl = sorted_nodes@;
        let ghost vl = visited@;
        temp_visited.remove(&node);
        visited.insert(node);
        sorted_nodes.push(node);
        proof {
            reveal(Graph::topo_state);
            assert(!vl.contains(node));
            assert(!sl.contains(node));
            lemma_push_fresh(sl, node);
            let s2 = sorted_nodes@;
            assert(temp_visited@ =~= t0);
            assert forall|x: u64| #[trigger] visited@.contains(x) <==> s2.contains(x) by {
                if x != node && s2.contains(x) {
                    let k = choose|k: int| 0 <= k < s2.len() && s2[k] == x;
                    assert(sl[k] == x);
                }
                if x != node && visited@.contains(x) {
                    let k = choose|k: int| 0 <= k < sl.len() && sl[k] == x;
                    assert(s2[k] == x);
                }
                if x == node {
                    assert(s2[sl.len() as int] == node);
                }
            }
            assert forall|k: int| 0 <= k < s2.len() implies self.universe().contains(#[trigger] s2[k]) by {
                if k < sl.len() {
                    assert(s2[k] == sl[k]);
                } else {
                    assert(st[stack.len() as int] == node);
                }
            }
            assert forall|x: u64| !(#[trigger] visited@.contains(x) && temp_visited@.contains(x)) by {
                if x == node {
                    assert(!stack.contains(node));
                } else if temp_visited@.contains(x) {
                    assert(st.contains(x));
                }
            }
            assert forall|i: int, w: u64| 0 <= i < s2.len() && #[trigger] self.has_edge(s2[i], w) implies visited@.contains(w) by {
                if i < sl.len() {
                    assert(s2[i] == sl[i]);
                } else {
                    let tg = targets(nbrs@);
                    let m = choose|m: int| 0 <= m < tg.len() && tg[m] == w;
                    assert(nbrs@[m].0 == w);
                }
            }
            assert forall|i: int, j2: int| 0 <= i < s2.len() && 0 <= j2 < s2.len()
                && #[trigger] self.has_edge(s2[i], s2[j2]) implies j2 < i by {
                if i < sl.len() {
                    assert(s2[i] == sl[i]);
                    if j2 < sl.len() {
                        assert(s2[j2] == sl[j2]);
                    } else {
                        assert(s2[j2] == node);
                        assert(vl.contains(node));
                    }
                } else {
                    if j2 == sl.len() {
                        let tg = targets(nbrs@);
                        let m = choose|m: int| 0 <= m < tg.len() && tg[m] == node;
                        assert(nbrs@[m].0 == node);
                        assert(vl.contains(node));
                    }
                }
            }
            assert forall|i: int| 0 <= i < stack.len() - 1 implies #[trigger] self.has_edge(stack[i], stack[i + 1]) by {
                assert(st[i] == stack[i]);
                assert(st[i + 1] == stack[i + 1]);
                assert(self.has_edge(st[i], st[i + 1]));
            }
            assert forall|x: u64| #[trigger] temp_visited@.contains(x) <==> stack.contains(x) by {
                if stack.contains(x) {
                    let k = choose|k: int| 0 <= k < stack.len() && stack[k] == x;
                    assert(st[k] == x);
                }
                if temp_visited@.contains(x) {
                    assert(x != node);
                    let k = choose|k: int| 0 <= k < st.len() && st[k] == x;
                    assert(k != stack.len());
                    assert(stack[k] == x);
                }
            }
            assert forall|k: int| 0 <= k < stack.len() implies self.universe().contains(#[trigger] stack[k]) by {
                assert(st[k] == stack[k]);
            }
            assert(stack.no_duplicates()) by {
                assert forall|a: int, b: int| 0 <= a < b < stack.len() implies stack[a] != stack[b] by {
                    assert(st[a] == stack[a]);
                    assert(st[b] == stack[b]);
                }
            }
            assert(sorted_nodes@.subrange(0, s0.len() as int) =~= s0) by {
                assert forall|k: int| 0 <= k < s0.len() implies s2[k] == s0[k] by {
                    assert(sl.subrange(0, s0.len() as int)[k] == s0[k]);
                }
            }
        }
        false
    }
}

fn reverse_ids(v: &Vec<u64>) -> (r: Vec<u64>)
    ensures
        r@.len() == v@.len(),
        forall|k: int| 0 <= k < v@.len() ==> #[trigger] r@[k] == v@[v@.len() - 1 - k],
{
    let mut r: Vec<u64> = Vec::new();
    let mut k: usize = v.len();
    while k > 0
        invariant
            k <= v@.len(),
            r@.len() == v@.len() - k,
            forall|i: int| 0 <= i < r@.len() ==> #[trigger] r@[i] == v@[v@.len() - 1 - i],
        decreases k,
    {
        k = k - 1;
        r.push(v[k]);
    }
    r
}

} // verus!

verus! {

/// The node `k` steps up the parent chain from `v`.
pub open spec fn ancestor(p: Map<u64, u64>, v: u64, k: nat) -> u64
    decreases k,
{
    if k == 0 {
        v
    } else {
        p[ancestor(p, v, (k - 1) as nat)]
    }
}

/// The parent chain from `v` first meets `s` after `k` steps.
pub open spec fn first_reaches(p: Map<u64, u64>, v: u64, s: u64, k: nat) -> bool {
    &&& ancestor(p, v, k) == s
    &&& forall|j: nat| j < k ==> #[trigger] ancestor(p, v, j) != s
}

/// Every node of the chain from `v` before it meets `s` has a parent.
pub open spec fn chain_has_parents(p: Map<u64, u64>, v: u64, s: u64) -> bool {
    forall|k: nat| (forall|j: nat| j <= k ==> #[trigger] ancestor(p, v, j) != s) ==> p.contains_key(
        #[trigger] ancestor(p, v, k),
    )
}

/// The path from `s` down to `v` along a chain that meets `s` after `k` steps.
pub open spec fn chain_path(p: Map<u64, u64>, v: u64, k: nat) -> Seq<u64> {
    Seq::new(k + 1, |i: int| ancestor(p, v, (k - i) as nat))
}

proof fn lemma_ancestor_shift(p: Map<u64, u64>, v: u64, a: nat, b: nat, t: nat)
    requires
        ancestor(p, v, a) == ancestor(p, v, b),
    ensures
        ancestor(p, v, a + t) == ancestor(p, v, b + t),
    decreases t,
{
    if t > 0 {
        lemma_ancestor_shift(p, v, a, b, (t - 1) as nat);
        assert(ancestor(p, v, a + t) == p[ancestor(p, v, (a + t - 1) as nat)]);
        assert(ancestor(p, v, b + t) == p[ancestor(p, v, (b + t - 1) as nat)]);
    }
}

/// Once the chain repeats a node before meeting `s`, it never meets `s`.
proof fn lemma_cycle_never_reaches(p: Map<u64, u64>, v: u64, s: u64, i: nat, k: nat, n: nat)
    requires
        i < k,
        ancestor(p, v, i) == ancestor(p, v, k),
        forall|j: nat| j < k ==> #[trigger] ancestor(p, v, j) != s,
    ensures
        ancestor(p, v, n) != s,
    decreases n,
{
    if n >= k {
        let d = (k - i) as nat;
        let m = (n - d) as nat;
        lemma_cycle_never_reaches(p, v, s, i, k, m);
        lemma_ancestor_shift(p, v, i, k, (m - i) as nat);
        assert(i + (m - i) == m);
        assert(k + (m - i) == n);
    }
}

impl Graph {
    /// The path from `source` to `target` along `parents`, or `None` when
    /// `target` has no parent or the chain from it never meets `source`.
    pub fn reconstruct_path(&self, parents: &HashMap<u64, u64>, source: u64, target: u64) -> (r: Option<Vec<u64>>)
        requires
            parents@.contains_key(target) ==> chain_has_parents(parents@, target, source),
        ensures
            !parents@.contains_key(target) ==> r is None,
            parents@.contains_key(target) ==> match r {
                Some(path) => exists|k: nat| first_reaches(parents@, target, source, k) && path@ == chain_path(
                    parents@,
                    target,
                    k,
                ),
                None => forall|k: nat| !first_reaches(parents@, target, source, k),
            },
    {
        if !parents.contains_key(&target) {
            return None;
        }
        let ghost p = parents@;
        let mut path: Vec<u64> = Vec::new();
        let mut current = target;
        let mut visited: std::collections::HashSet<u64> = std::collections::HashSet::new();
        let ghost mut k: nat = 0;
        proof {
            assert(p.dom().finite());
        }
        while current != source
            invariant
                p == parents@,
                p.dom().finite(),
                chain_has_parents(p, target, source),
                current == ancestor(p, target, k),
                path@.len() == k,
                forall|i: int| 0 <= i < k ==> path@[i] == #[trigger] ancestor(p, target, i as nat),
                forall|j: nat| j < k ==> #[trigger] ancestor(p, target, j) != source,
                forall|x: u64| #[trigger] visited@.contains(x) <==> exists|j: nat| j < k && ancestor(p, target, j) == x,
                forall|x: u64| #[trigger] visited@.contains(x) ==> p.contains_key(x),
                visited@.finite(),
                visited@.len() == k,
            decreases p.dom().len() - visited@.len(),
        {
            if visited.contains(&current) {
                proof {
                    let j = choose|j: nat| j < k && ancestor(p, target, j) == current;
                    assert forall|n: nat| !first_reaches(p, target, source, n) by {
                        lemma_cycle_never_reaches(p, target, source, j, k, n);
                    }
                }
                return None;
            }
            proof {
                assert(forall|j: nat| j <= k ==> #[trigger] ancestor(p, target, j) != source);
                assert(p.contains_key(ancestor(p, target, k)));
                assert(visited@.subset_of(p.dom()));
                vstd::set_lib::lemma_len_subset(visited@.insert(current), p.dom());
            }
            visited.insert(current);
            path.push(current);
            let next = *parents.get(&current).unwrap();
            proof {
                assert(ancestor(p, target, k + 1) == next);
                assert forall|x: u64| #[trigger] visited@.contains(x) <==> exists|j: nat| j < k + 1 && ancestor(p, target, j) == x by {
                    if x == current {
                        assert(ancestor(p, target, k) == x);
                    }
                }
                k = k + 1;
            }
            current = next;
        }
        path.push(source);
        let ghost before = path@;
        let mut out: Vec<u64> = Vec::new();
        let mut i: usize = path.len();
        while i > 0
            invariant
                i <= path@.len(),
                path@ == before,
                before.len() == k + 1,
                out@.len() == before.len() - i,
                forall|m: int| 0 <= m < out@.len() ==> out@[m] == before[before.len() - 1 - m],
            decreases i,
        {
            i = i - 1;
            out.push(path[i]);
        }
        proof {
            assert(first_reaches(p, target, source, k));
            assert(out@ =~= chain_path(p, target, k)) by {
                assert forall|m: int| 0 <= m < out@.len() implies out@[m] == chain_path(p, target, k)[m] by {
                    let idx = before.len() - 1 - m;
                    if idx < k {
                        assert(before[idx] == ancestor(p, target, idx as nat));
                    } else {
                        assert(before[idx] == source);
                    }
                }
            }
        }
        Some(out)
    }
}

} // verus!

verus! {

/// The component representative of `x` once the edges `g` are merged in
/// order: each edge merges the component of its target into that of its
/// source.
pub open spec fn rep(g: Seq<(u64, u64, u64)>, x: u64) -> u64
    decreases g.len(),
{
    if g.len() == 0 {
        x
    } else {
        let e = g.last();
        let h = g.drop_last();
        if rep(h, x) == rep(h, e.1) {
            rep(h, e.0)
        } else {
            rep(h, x)
        }
    }
}

/// The edges Kruskal's method keeps from `edges` taken in order: each edge
/// whose ends are not yet in one component of the edges kept before it.
pub open spec fn kruskal(edges: Seq<(u64, u64, u64)>) -> Seq<(u64, u64, u64)>
    decreases edges.len(),
{
    if edges.len() == 0 {
        Seq::empty()
    } else {
        let g = kruskal(edges.drop_last());
        let e = edges.last();
        if rep(g, e.0) == rep(g, e.1) {
            g
        } else {
            g.push(e)
        }
    }
}

/// The edges out of `n`, direction dropped: each as `(smaller id, larger id,
/// weight_bits)`; an edge from a node to itself joins nothing and is left out.
pub open spec fn pair_edges(n: u64, out: Seq<(u64, u64)>) -> Seq<(u64, u64, u64)>
    decreases out.len(),
{
    if out.len() == 0 {
        Seq::empty()
    } else {
        let rest = pair_edges(n, out.drop_last());
        let e = out.last();
        if n < e.0 {
            rest.push((n, e.0, e.1))
        } else if e.0 < n {
            rest.push((e.0, n, e.1))
        } else {
            rest
        }
    }
}

fn first_index(nodes: &Vec<u64>, x: u64) -> (r: usize)
    requires
        nodes@.contains(x),
    ensures
        r < nodes@.len(),
        nodes@[r as int] == x,
{
    let mut i: usize = 0;
    while i < nodes.len()
        invariant
            nodes@.contains(x),
            i <= nodes@.len(),
            forall|k: int| 0 <= k < i ==> nodes@[k] != x,
        decreases nodes@.len() - i,
    {
        if nodes[i] == x {
            return i;
        }
        i = i + 1;
    }
    proof {
        let k = choose|k: int| 0 <= k < nodes@.len() && nodes@[k] == x;
        assert(nodes@[k] != x);
    }
    0
}

/// Kruskal's selection: walk the edges in the given order (lightest first)
/// and keep each one that joins two components of the edges kept so far.
pub fn select_spanning_edges(nodes: &Vec<u64>, sorted: &Vec<(u64, u64, u64)>) -> (r: Vec<(u64, u64, u64)>)
    requires
        forall|i: int| 0 <= i < sorted@.len() ==> nodes@.contains(#[trigger] sorted@[i].0) && nodes@.contains(
            sorted@[i].1,
        ),
    ensures
        r@ == kruskal(sorted@),
{
    let mut comp: Vec<u64> = nodes.clone();
    proof {
        assert(comp@ =~= nodes@);
    }
    let mut kept: Vec<(u64, u64, u64)> = Vec::new();
    let mut i: usize = 0;
    while i < sorted.len()
        invariant
            i <= sorted@.len(),
            forall|q: int| 0 <= q < sorted@.len() ==> nodes@.contains(#[trigger] sorted@[q].0) && nodes@.contains(
                sorted@[q].1,
            ),
            comp@.len() == nodes@.len(),
            forall|j: int| 0 <= j < nodes@.len() ==> comp@[j] == #[trigger] rep(kept@, nodes@[j]),
            kept@ == kruskal(sorted@.take(i as int)),
        decreases sorted@.len() - i,
    {
        let e = sorted[i];
        let ia = first_index(nodes, e.0);
        let ib = first_index(nodes, e.1);
        let ca = comp[ia];
        let cb = comp[ib];
        proof {
            assert(sorted@.take(i as int + 1).drop_last() =~= sorted@.take(i as int));
            assert(sorted@.take(i as int + 1).last() == e);
            assert(ca == rep(kept@, e.0));
            assert(cb == rep(kept@, e.1));
        }
        if ca != cb {
            let ghost before = kept@;
            kept.push(e);
            proof {
                assert(kept@.drop_last() =~= before);
                assert(kept@.last() == e);
            }
            let mut j: usize = 0;
            while j < comp.len()
                invariant
                    j <= comp@.len(),
                    comp@.len() == nodes@.len(),
                    kept@ == before.push(e),
                    ca == rep(before, e.0),
                    cb == rep(before, e.1),
                    forall|m: int| 0 <= m < j ==> comp@[m] == #[trigger] rep(kept@, nodes@[m]),
                    forall|m: int| j <= m < nodes@.len() ==> comp@[m] == #[trigger] rep(before, nodes@[m]),
                decreases comp@.len() - j,
            {
                if comp[j] == cb {
                    comp.set(j, ca);
                }
                proof {
                    assert(kept@.drop_last() =~= before);
                    assert(kept@.last() == e);
                    let x = nodes@[j as int];
                    assert(rep(kept@, x) == if rep(before, x) == rep(before, e.1) {
                        rep(before, e.0)
                    } else {
                        rep(before, x)
                    });
                }
                j = j + 1;
            }
        }
        i = i + 1;
    }
    proof {
        assert(sorted@.take(i as int) =~= sorted@);
    }
    kept
}

impl Graph {
    /// The candidate edges of a spanning tree of the graph with edge
    /// direction ignored: every edge, as `(smaller id, larger id,
    /// weight_bits)`, nodes in order and each node's edges in order.
    pub open spec fn spanning_candidates_upto(&self, k: int) -> Seq<(u64, u64, u64)>
        decreases k,
    {
        if k <= 0 {
            Seq::empty()
        } else {
            self.spanning_candidates_upto(k - 1) + pair_edges(self.node_seq()[k - 1], self.out_edges(self.node_seq()[k - 1]))
        }
    }

    /// Every edge with its direction dropped, `(smaller id, larger id,
    /// weight_bits)`, nodes in order; edges from a node to itself are left out.
    pub fn spanning_candidates(&self) -> (r: Vec<(u64, u64, u64)>)
        requires
            self.wf(),
        ensures
            r@ == self.spanning_candidates_upto(self.node_seq().len() as int),
    {
        let mut out: Vec<(u64, u64, u64)> = Vec::new();
        let mut i: usize = 0;
        while i < self.nodes.len()
            invariant
                self.wf(),
                i <= self.nodes@.len(),
                out@ == self.spanning_candidates_upto(i as int),
            decreases self.nodes@.len() - i,
        {
            let n = self.nodes[i];
            let out_n = self.get_neighbors(n);
            let ghost base = out@;
            let mut j: usize = 0;
            while j < out_n.len()
                invariant
                    j <= out_n@.len(),
                    out@ == base + pair_edges(n, out_n@.take(j as int)),
                decreases out_n@.len() - j,
            {
                let (to, w) = out_n[j];
                proof {
                    assert(out_n@.take(j as int + 1).drop_last() =~= out_n@.take(j as int));
                    assert(out_n@.take(j as int + 1).last() == (to, w));
                }
                if n < to {
                    out.push((n, to, w));
                } else if to < n {
                    out.push((to, n, w));
                }
                j = j + 1;
            }
            proof {
                assert(out_n@.take(j as int) =~= out_n@);
                assert(self.node_seq()[i as int] == n);
            }
            i = i + 1;
        }
        out
    }
}

} // verus!
