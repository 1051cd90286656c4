//! Component search over layout graphs whose nodes are named by strings.
//!
//! The layout algorithms position nodes with floating-point coordinates and
//! are kept by the caller; this module holds the graph logic they share.

use crate::error::Error;
use vstd::prelude::*;

verus! {

/// Direction in which hierarchical layouts place their levels
#[derive(Debug, Clone, Copy, PartialEq, Eq, Structural)]
pub enum LayoutDirection {
    TopDown,
    BottomUp,
    LeftRight,
    RightLeft,
}

/// Connected components algorithm
pub struct ConnectedComponents {
    pub directed: bool,
}

impl Default for ConnectedComponents {
    fn default() -> (c: Self)
        ensures
            !c.directed,
    {
        ConnectedComponents { directed: false }
    }
}

/// `j` is a successor of `i` in an index adjacency list.
pub open spec fn adj_edge(adj: Seq<Vec<usize>>, i: int, j: int) -> bool {
    0 <= i < adj.len() && exists|w: int| 0 <= w < adj[i]@.len() && #[trigger] adj[i]@[w] as int == j
}

/// There is a walk from `i` to `j` along an index adjacency list.
pub open spec fn adj_reach(adj: Seq<Vec<usize>>, i: int, j: int) -> bool {
    exists|p: Seq<int>| #[trigger] adj_walk(adj, p) && p[0] == i && p.last() == j
}

/// `p` is a walk along an index adjacency list.
pub open spec fn adj_walk(adj: Seq<Vec<usize>>, p: Seq<int>) -> bool {
    &&& p.len() >= 1
    &&& forall|k: int| 0 <= k < p.len() - 1 ==> #[trigger] adj_edge(adj, p[k], p[k + 1])
}

/// Position of the last node named `id`, if any.
pub open spec fn last_index_of(ids: Seq<String>, id: Seq<char>) -> Option<int>
    decreases ids.len(),
{
    if ids.len() == 0 {
        None
    } else if ids.last()@ == id {
        Some(ids.len() - 1)
    } else {
        last_index_of(ids.drop_last(), id)
    }
}

/// Adjacency built from named edges: an edge joins the last nodes bearing
/// its endpoint names (edges naming an absent node are skipped), and in an
/// undirected graph it joins them both ways.
pub open spec fn joins(ids: Seq<String>, edges: Seq<(String, String)>, directed: bool, i: int, j: int) -> bool {
    exists|k: int| 0 <= k < edges.len() && {
        let s = last_index_of(ids, (#[trigger] edges[k]).0@);
        let t = last_index_of(ids, edges[k].1@);
        &&& s is Some && t is Some
        &&& ((s == Some(i) && t == Some(j)) || (!directed && s == Some(j) && t == Some(i)))
    }
}

proof fn lemma_last_index_bounds(ids: Seq<String>, id: Seq<char>)
    ensures
        match last_index_of(ids, id) {
            Some(i) => 0 <= i < ids.len() && ids[i]@ == id,
            None => true,
        },
    decreases ids.len(),
{
    if ids.len() > 0 && ids.last()@ != id {
        lemma_last_index_bounds(ids.drop_last(), id);
    }
}

fn last_index(ids: &Vec<String>, id: &String) -> (r: Option<usize>)
    ensures
        match r {
            Some(i) => last_index_of(ids@, id@) == Some(i as int),
            None => last_index_of(ids@, id@) is None,
        },
{
    let mut i: usize = ids.len();
    proof {
        assert(ids@.subrange(0, ids@.len() as int) =~= ids@);
    }
    while i > 0
        invariant
            i <= ids@.len(),
            last_index_of(ids@, id@) == last_index_of(ids@.subrange(0, i as int), id@),
        decreases i,
    {
        let ghost pre = ids@.subrange(0, i as int);
        proof {
            assert(pre.drop_last() =~= ids@.subrange(0, i as int - 1));
            assert(pre.last() == ids@[i as int - 1]);
        }
        if ids[i - 1].eq(id) {
            return Some(i - 1);
        }
        i = i - 1;
    }
    None
}

impl ConnectedComponents {
    pub fn new() -> (c: Self)
        ensures
            !c.directed,
    {
        Self::default()
    }

    pub fn with_directed(self, directed: bool) -> (c: Self)
        ensures
            c.directed == directed,
    {
        let mut s = self;
        s.directed = directed;
        s
    }

    /// Nodes `i` and `j` reach each other.
    pub open spec fn mutual(&self, ids: Seq<String>, edges: Seq<(String, String)>, i: int, j: int) -> bool {
        self.reaches(ids, edges, i, j) && self.reaches(ids, edges, j, i)
    }

    /// Component of every node, by position: in a directed graph the strongly
    /// connected components (two nodes share one exactly when each reaches
    /// the other), in an undirected one the connected components (exactly
    /// when they are joined). Components are numbered from 0 in the order in
    /// which their first node appears.
    pub fn find_components(&self, node_ids: &Vec<String>, edges: &Vec<(String, String)>) -> (r: Result<Vec<usize>, Error>)
        ensures
            r matches Ok(c) && {
                let n = node_ids@.len();
                &&& c@.len() == n
                &&& forall|i: int, j: int| #![trigger c@[i], c@[j]] 0 <= i < n && 0 <= j < n
                    ==> (c@[i] == c@[j] <==> self.mutual(node_ids@, edges@, i, j))
                &&& !self.directed ==> forall|i: int, j: int| #![trigger c@[i], c@[j]] 0 <= i < n && 0 <= j < n
                    ==> (c@[i] == c@[j] <==> self.reaches(node_ids@, edges@, i, j))
                &&& forall|i: int| 0 <= i < n ==> #[trigger] number_follows(c@, i)
                &&& forall|i: int| 0 <= i < n ==> #[trigger] number_started(c@, i, i + 1)
            },
    {
        let n = node_ids.len();
        let adjacency = self.build_adjacency_list(node_ids, edges);
        let ghost adj = adjacency@;
        let mut rows: Vec<Vec<usize>> = Vec::new();
        let mut k: usize = 0;
        while k < n
            invariant
                n == node_ids@.len(),
                adj == adjacency@,
                adj.len() == n,
                forall|a: int, b: int| #[trigger] adj_edge(adj, a, b) ==> 0 <= b < n,
                k <= n,
                rows@.len() == k,
                forall|a: int| 0 <= a < k ==> (#[trigger] rows@[a])@.len() == n,
                forall|a: int, b: int| 0 <= a < k && 0 <= b < n ==> (rows@[a]@[b] != usize::MAX <==> adj_reach(adj, a, b)),
            decreases n - k,
        {
            let marks = self.reach_marks(&adjacency, k);
            let ghost r0 = rows@;
            rows.push(marks);
            proof {
                assert forall|a: int, b: int| 0 <= a < k + 1 && 0 <= b < n implies (rows@[a]@[b] != usize::MAX <==> adj_reach(adj, a, b)) by {
                    if a < k {
                        assert(rows@[a] == r0[a]);
                    }
                }
                assert forall|a: int| 0 <= a < k + 1 implies (#[trigger] rows@[a])@.len() == n by {
                    if a < k {
                        assert(rows@[a] == r0[a]);
                    }
                }
            }
            k = k + 1;
        }
        let mut components: Vec<usize> = Vec::new();
        let mut k: usize = 0;
        while k < n
            invariant
                k <= n,
                components@.len() == k,
                forall|i: int| 0 <= i < k ==> components@[i] == usize::MAX,
            decreases n - k,
        {
            components.push(usize::MAX);
            k = k + 1;
        }
        let mut component_id: usize = 0;
        let mut i: usize = 0;
        proof {
            lemma_class_start(adj, components@, n as int);
        }
        while i < n
            invariant
                n == node_ids@.len(),
                adj.len() == n,
                forall|a: int, b: int| #[trigger] adj_edge(adj, a, b) ==> 0 <= b < n,
                rows@.len() == n,
                forall|a: int| 0 <= a < n ==> (#[trigger] rows@[a])@.len() == n,
                forall|a: int, b: int| 0 <= a < n && 0 <= b < n ==> (rows@[a]@[b] != usize::MAX <==> adj_reach(adj, a, b)),
                i <= n,
                component_id <= i,
                components@.len() == n,
                classes_ok(adj, components@, n as int, i as int, component_id as int),
            decreases n - i,
        {
            if components[i] == usize::MAX {
                let ghost before = components@;
                let cid = component_id;
                proof {
                    assert(adj_mutual(adj, i as int, i as int)) by {
                        lemma_reach_self(adj, i as int);
                    }
                }
                let mut j: usize = i;
                while j < n
                    invariant
                        n == node_ids@.len(),
                        adj.len() == n,
                        rows@.len() == n,
                        forall|a: int| 0 <= a < n ==> (#[trigger] rows@[a])@.len() == n,
                        forall|a: int, b: int| 0 <= a < n && 0 <= b < n ==> (rows@[a]@[b] != usize::MAX <==> adj_reach(adj, a, b)),
                        i < n,
                        i <= j <= n,
                        cid != usize::MAX,
                        components@.len() == n,
                        forall|a: int| 0 <= a < i ==> components@[a] == before[a],
                        forall|a: int| j <= a < n ==> components@[a] == before[a],
                        forall|a: int| i <= a < j ==> components@[a] == if before[a] == usize::MAX && adj_mutual(adj, i as int, a) {
                            cid
                        } else {
                            before[a]
                        },
                    decreases n - j,
                {
                    if components[j] == usize::MAX && rows[i][j] != usize::MAX && rows[j][i] != usize::MAX {
                        components.set(j, cid);
                    }
                    j = j + 1;
                }
                proof {
                    lemma_class_step(adj, before, components@, n as int, i as int, cid as int);
                }
                component_id = component_id + 1;
            } else {
                proof {
                    lemma_class_skip(adj, components@, n as int, i as int, component_id as int);
                }
            }
            i = i + 1;
        }
        proof {
            let c = components@;
            lemma_classes_done(adj, c, n as int, component_id as int);
            assert forall|a: int, b: int| 0 <= a < n && 0 <= b < n implies (adj_mutual(adj, a, b)
                <==> self.mutual(node_ids@, edges@, a, b)) by {
                self.lemma_reach_adj(node_ids@, edges@, adj, a, b);
                self.lemma_reach_adj(node_ids@, edges@, adj, b, a);
            }
            if !self.directed {
                assert forall|a: int, b: int| #![trigger c[a], c[b]] 0 <= a < n && 0 <= b < n
                    implies (c[a] == c[b] <==> self.reaches(node_ids@, edges@, a, b)) by {
                    if self.reaches(node_ids@, edges@, a, b) {
                        self.lemma_reaches_sym(node_ids@, edges@, a, b);
                    }
                }
            }
        }
        Ok(components)
    }

    /// There is a walk from node `i` to node `j` along joined nodes.
    pub open spec fn reaches(&self, ids: Seq<String>, edges: Seq<(String, String)>, i: int, j: int) -> bool {
        exists|p: Seq<int>| #[trigger] p.len() >= 1 && p[0] == i && p.last() == j
            && forall|k: int| 0 <= k < p.len() - 1 ==> #[trigger] joins(ids, edges, self.directed, p[k], p[k + 1])
    }

    /// In an undirected graph, reaching goes both ways.
    proof fn lemma_reaches_sym(&self, ids: Seq<String>, edges: Seq<(String, String)>, i: int, j: int)
        requires
            !self.directed,
            self.reaches(ids, edges, i, j),
        ensures
            self.reaches(ids, edges, j, i),
    {
        let p = choose|p: Seq<int>| #[trigger] p.len() >= 1 && p[0] == i && p.last() == j
            && forall|k: int| 0 <= k < p.len() - 1 ==> #[trigger] joins(ids, edges, self.directed, p[k], p[k + 1]);
        let q = p.reverse();
        assert forall|k: int| 0 <= k < q.len() - 1 implies #[trigger] joins(ids, edges, self.directed, q[k], q[k + 1]) by {
            let m = p.len() - 2 - k;
            assert(joins(ids, edges, self.directed, p[m], p[m + 1]));
            assert(q[k] == p[m + 1]);
            assert(q[k + 1] == p[m]);
            let e = choose|e: int| 0 <= e < edges.len() && {
                let s = last_index_of(ids, (#[trigger] edges[e]).0@);
                let t = last_index_of(ids, edges[e].1@);
                &&& s is Some && t is Some
                &&& ((s == Some(p[m]) && t == Some(p[m + 1])) || (!self.directed && s == Some(p[m + 1]) && t == Some(p[m])))
            };
        }
        assert(q.len() >= 1 && q[0] == j && q.last() == i);
    }

    /// Walks along the adjacency built from the edges are walks along joined
    /// nodes, and back.
    proof fn lemma_reach_adj(&self, ids: Seq<String>, edges: Seq<(String, String)>, adj: Seq<Vec<usize>>, i: int, j: int)
        requires
            0 <= i < ids.len(),
            adj.len() == ids.len(),
            forall|a: int, b: int| #[trigger] adj_edge(adj, a, b) ==> joins(ids, edges, self.directed, a, b),
            forall|a: int, b: int| 0 <= a < ids.len() && 0 <= b < ids.len()
                && #[trigger] joins(ids, edges, self.directed, a, b) ==> adj_edge(adj, a, b),
        ensures
            adj_reach(adj, i, j) <==> self.reaches(ids, edges, i, j),
    {
        if adj_reach(adj, i, j) {
            self.lemma_reach_joins(ids, edges, adj, i, j);
        }
        if self.reaches(ids, edges, i, j) {
            let p = choose|p: Seq<int>| #[trigger] p.len() >= 1 && p[0] == i && p.last() == j
                && forall|k: int| 0 <= k < p.len() - 1 ==> #[trigger] joins(ids, edges, self.directed, p[k], p[k + 1]);
            assert forall|k: int| 0 <= k < p.len() - 1 implies #[trigger] adj_edge(adj, p[k], p[k + 1]) by {
                assert(joins(ids, edges, self.directed, p[k], p[k + 1]));
                let e = choose|e: int| 0 <= e < edges.len() && {
                    let s = last_index_of(ids, (#[trigger] edges[e]).0@);
                    let t = last_index_of(ids, edges[e].1@);
                    &&& s is Some && t is Some
                    &&& ((s == Some(p[k]) && t == Some(p[k + 1])) || (!self.directed && s == Some(p[k + 1]) && t == Some(p[k])))
                };
                lemma_last_index_bounds(ids, edges[e].0@);
                lemma_last_index_bounds(ids, edges[e].1@);
            }
            assert(adj_walk(adj, p));
        }
    }

    /// Marks of the nodes reachable from `start`: exactly those are not `usize::MAX`.
    fn reach_marks(&self, adjacency: &Vec<Vec<usize>>, start: usize) -> (m: Vec<usize>)
        requires
            start < adjacency@.len(),
            forall|a: int, b: int| #[trigger] adj_edge(adjacency@, a, b) ==> 0 <= b < adjacency@.len(),
        ensures
            m@.len() == adjacency@.len(),
            forall|b: int| 0 <= b < adjacency@.len() ==> (m@[b] != usize::MAX <==> adj_reach(adjacency@, start as int, b)),
    {
        let n = adjacency.len();
        let mut marks: Vec<usize> = Vec::new();
        let mut k: usize = 0;
        while k < n
            invariant
                n == adjacency@.len(),
                k <= n,
                marks@.len() == k,
                forall|i: int| 0 <= i < k ==> marks@[i] == usize::MAX,
            decreases n - k,
        {
            marks.push(usize::MAX);
            k = k + 1;
        }
        self.dfs(adjacency, start, 0, &mut marks);
        proof {
            let adj = adjacency@;
            assert forall|b: int| 0 <= b < n && adj_reach(adj, start as int, b) implies marks@[b] != usize::MAX by {
                let p = choose|p: Seq<int>| #[trigger] adj_walk(adj, p) && p[0] == start as int && p.last() == b;
                lemma_walk_marked(adj, marks@, p, p.len() - 1);
            }
        }
        marks
    }

    proof fn lemma_reach_joins(&self, ids: Seq<String>, edges: Seq<(String, String)>, adj: Seq<Vec<usize>>, i: int, j: int)
        requires
            adj_reach(adj, i, j),
            forall|a: int, b: int| #[trigger] adj_edge(adj, a, b) ==> joins(ids, edges, self.directed, a, b),
        ensures
            self.reaches(ids, edges, i, j),
    {
        let p = choose|p: Seq<int>| #[trigger] adj_walk(adj, p) && p[0] == i && p.last() == j;
        assert forall|k: int| 0 <= k < p.len() - 1 implies #[trigger] joins(ids, edges, self.directed, p[k], p[k + 1]) by {
            assert(adj_edge(adj, p[k], p[k + 1]));
        }
    }

    fn build_adjacency_list(&self, node_ids: &Vec<String>, edges: &Vec<(String, String)>) -> (adj: Vec<Vec<usize>>)
        ensures
            adj@.len() == node_ids@.len(),
            forall|a: int, b: int| #[trigger] adj_edge(adj@, a, b) ==> 0 <= b < node_ids@.len()
                && joins(node_ids@, edges@, self.directed, a, b),
            forall|a: int, b: int| 0 <= a < node_ids@.len() && 0 <= b < node_ids@.len()
                && #[trigger] joins(node_ids@, edges@, self.directed, a, b) ==> adj_edge(adj@, a, b),
    {
        let n = node_ids.len();
        let mut adjacency: Vec<Vec<usize>> = Vec::new();
        let mut k: usize = 0;
        while k < n
            invariant
                k <= n,
                adjacency@.len() == k,
                forall|i: int| 0 <= i < k ==> adjacency@[i]@.len() == 0,
            decreases n - k,
        {
            adjacency.push(Vec::new());
            k = k + 1;
        }
        let mut e: usize = 0;
        while e < edges.len()
            invariant
                n == node_ids@.len(),
                adjacency@.len() == n,
                e <= edges@.len(),
                forall|a: int, b: int| #[trigger] adj_edge(adjacency@, a, b) ==> 0 <= b < n
                    && joins(node_ids@, edges@, self.directed, a, b),
                forall|a: int, b: int| 0 <= a < n && 0 <= b < n && (exists|q: int| 0 <= q < e && {
                    let s = last_index_of(node_ids@, (#[trigger] edges@[q]).0@);
                    let t = last_index_of(node_ids@, edges@[q].1@);
                    &&& s is Some && t is Some
                    &&& ((s == Some(a) && t == Some(b)) || (!self.directed && s == Some(b) && t == Some(a)))
                }) ==> #[trigger] adj_edge(adjacency@, a, b),
            decreases edges@.len() - e,
        {
            let (src, tgt) = (&edges[e].0, &edges[e].1);
            let si = last_index(node_ids, src);
            let ti = last_index(node_ids, tgt);
            let ghost before = adjacency@;
            proof {
                lemma_last_index_bounds(node_ids@, src@);
                lemma_last_index_bounds(node_ids@, tgt@);
            }
            match (si, ti) {
                (Some(s), Some(t)) => {
                    adjacency[s].push(t);
                    if !self.directed {
                        adjacency[t].push(s);
                    }
                    proof {
                        let after = adjacency@;
                        assert(joins(node_ids@, edges@, self.directed, s as int, t as int));
                        if !self.directed {
                            assert(joins(node_ids@, edges@, self.directed, t as int, s as int));
                        }
                        assert forall|a: int, b: int| #[trigger] adj_edge(after, a, b) implies 0 <= b < n
                            && joins(node_ids@, edges@, self.directed, a, b) by {
                            if !adj_edge(before, a, b) {
                                let w = choose|w: int| 0 <= w < after[a]@.len() && #[trigger] after[a]@[w] as int == b;
                                if a == s as int && (self.directed || a != t as int) {
                                    assert(after[a]@ == before[a]@.push(t));
                                    if w < before[a]@.len() {
                                        assert(before[a]@[w] as int == b);
                                    }
                                } else if a == t as int && !self.directed && a != s as int {
                                    assert(after[a]@ == before[a]@.push(s));
                                    if w < before[a]@.len() {
                                        assert(before[a]@[w] as int == b);
                                    }
                                } else if a == s as int && a == t as int && !self.directed {
                                    assert(after[a]@ == before[a]@.push(t).push(s));
                                    if w < before[a]@.len() {
                                        assert(before[a]@[w] as int == b);
                                    }
                                } else {
                                    assert(after[a] == before[a]);
                                }
                            }
                        }
                        assert forall|a: int, b: int| 0 <= a < n && 0 <= b < n && (exists|q: int| 0 <= q < e + 1 && {
                            let s2 = last_index_of(node_ids@, (#[trigger] edges@[q]).0@);
                            let t2 = last_index_of(node_ids@, edges@[q].1@);
                            &&& s2 is Some && t2 is Some
                            &&& ((s2 == Some(a) && t2 == Some(b)) || (!self.directed && s2 == Some(b) && t2 == Some(a)))
                        }) implies #[trigger] adj_edge(after, a, b) by {
                            if adj_edge(before, a, b) {
                                let w = choose|w: int| 0 <= w < before[a]@.len() && #[trigger] before[a]@[w] as int == b;
                                assert(after[a]@.subrange(0, before[a]@.len() as int) =~= before[a]@);
                                assert(after[a]@[w] == before[a]@[w]);
                            } else {
                                if a == s as int && b == t as int {
                                    assert(after[a]@[before[a]@.len() as int] == t);
                                } else {
                                    assert(!self.directed && a == t as int && b == s as int);
                                    assert(after[a]@[after[a]@.len() - 1] == s);
                                }
                            }
                        }
                    }
                },
                _ => {
                    proof {
                        assert forall|a: int, b: int| 0 <= a < n && 0 <= b < n && (exists|q: int| 0 <= q < e + 1 && {
                            let s2 = last_index_of(node_ids@, (#[trigger] edges@[q]).0@);
                            let t2 = last_index_of(node_ids@, edges@[q].1@);
                            &&& s2 is Some && t2 is Some
                            &&& ((s2 == Some(a) && t2 == Some(b)) || (!self.directed && s2 == Some(b) && t2 == Some(a)))
                        }) implies #[trigger] adj_edge(adjacency@, a, b) by {
                            let q = choose|q: int| 0 <= q < e + 1 && {
                                let s2 = last_index_of(node_ids@, (#[trigger] edges@[q]).0@);
                                let t2 = last_index_of(node_ids@, edges@[q].1@);
                                &&& s2 is Some && t2 is Some
                                &&& ((s2 == Some(a) && t2 == Some(b)) || (!self.directed && s2 == Some(b) && t2 == Some(a)))
                            };
                            assert(q != e as int);
                        }
                    }
                },
            }
            e = e + 1;
        }
        proof {
            assert forall|a: int, b: int| 0 <= a < n && 0 <= b < n
                && #[trigger] joins(node_ids@, edges@, self.directed, a, b) implies adj_edge(adjacency@, a, b) by {
                let q = choose|q: int| 0 <= q < edges@.len() && {
                    let s2 = last_index_of(node_ids@, (#[trigger] edges@[q]).0@);
                    let t2 = last_index_of(node_ids@, edges@[q].1@);
                    &&& s2 is Some && t2 is Some
                    &&& ((s2 == Some(a) && t2 == Some(b)) || (!self.directed && s2 == Some(b) && t2 == Some(a)))
                };
            }
        }
        adjacency
    }

    /// Number of unassigned positions.
    spec fn unassigned(c: Seq<usize>) -> nat
        decreases c.len(),
    {
        if c.len() == 0 {
            0
        } else {
            Self::unassigned(c.drop_last()) + if c.last() == usize::MAX { 1nat } else { 0nat }
        }
    }

    proof fn lemma_unassigned_update(c: Seq<usize>, i: int, v: usize)
        requires
            0 <= i < c.len(),
            c[i] == usize::MAX,
            v != usize::MAX,
        ensures
            Self::unassigned(c.update(i, v)) + 1 == Self::unassigned(c),
        decreases c.len(),
    {
        let d = c.update(i, v);
        if i == c.len() - 1 {
            assert(d.drop_last() =~= c.drop_last());
        } else {
            assert(d.drop_last() =~= c.drop_last().update(i, v));
            Self::lemma_unassigned_update(c.drop_last(), i, v);
        }
    }

    proof fn lemma_unassigned_pos(c: Seq<usize>, i: int)
        requires
            0 <= i < c.len(),
            c[i] == usize::MAX,
        ensures
            Self::unassigned(c) >= 1,
        decreases c.len(),
    {
        if i < c.len() - 1 {
            Self::lemma_unassigned_pos(c.drop_last(), i);
        }
    }

    fn dfs(&self, adjacency: &Vec<Vec<usize>>, node: usize, component_id: usize, components: &mut Vec<usize>)
        requires
            node < old(components)@.len(),
            old(components)@[node as int] == usize::MAX,
            component_id != usize::MAX,
            adjacency@.len() == old(components)@.len(),
            forall|a: int, b: int| #[trigger] adj_edge(adjacency@, a, b) ==> 0 <= b < adjacency@.len(),
        ensures
            final(components)@.len() == old(components)@.len(),
            final(components)@[node as int] == component_id,
            forall|a: int| 0 <= a < old(components)@.len() && old(components)@[a] != usize::MAX
                ==> #[trigger] final(components)@[a] == old(components)@[a],
            forall|a: int| 0 <= a < old(components)@.len() && old(components)@[a] == usize::MAX
                && #[trigger] final(components)@[a] != usize::MAX ==> final(components)@[a] == component_id
                && adj_reach(adjacency@, node as int, a),
            forall|a: int, b: int| 0 <= a < old(components)@.len() && old(components)@[a] == usize::MAX
                && final(components)@[a] != usize::MAX && #[trigger] adj_edge(adjacency@, a, b)
                ==> final(components)@[b] != usize::MAX,
        decreases Self::unassigned(old(components)@),
    {
        let ghost c0 = components@;
        components.set(node, component_id);
        proof {
            Self::lemma_unassigned_update(c0, node as int, component_id);
            let p = seq![node as int];
            assert(adj_walk(adjacency@, p));
        }
        let ghost c1 = components@;
        let nbrs = &adjacency[node];
        proof {
            assert forall|m: int| 0 <= m < nbrs@.len() implies (#[trigger] nbrs@[m]) < c0.len() by {
                assert(adjacency@[node as int]@[m] as int == nbrs@[m] as int);
                assert(adj_edge(adjacency@, node as int, nbrs@[m] as int));
            }
        }
        let mut j: usize = 0;
        while j < nbrs.len()
            invariant
                nbrs@ == adjacency@[node as int]@,
                c0 == old(components)@,
                forall|m: int| 0 <= m < nbrs@.len() ==> (#[trigger] nbrs@[m]) < c0.len(),
                j <= nbrs@.len(),
                node < c0.len(),
                component_id != usize::MAX,
                adjacency@.len() == c0.len(),
                forall|a: int, b: int| #[trigger] adj_edge(adjacency@, a, b) ==> 0 <= b < adjacency@.len(),
                components@.len() == c0.len(),
                components@[node as int] == component_id,
                Self::unassigned(components@) < Self::unassigned(c0),
                forall|a: int| 0 <= a < c0.len() && c0[a] != usize::MAX ==> #[trigger] components@[a] == c0[a],
                forall|a: int| 0 <= a < c0.len() && c0[a] == usize::MAX && #[trigger] components@[a] != usize::MAX
                    ==> components@[a] == component_id && adj_reach(adjacency@, node as int, a),
                forall|a: int, b: int| 0 <= a < c0.len() && c0[a] == usize::MAX && a != node
                    && components@[a] != usize::MAX && #[trigger] adj_edge(adjacency@, a, b)
                    ==> components@[b] != usize::MAX,
                forall|m: int| 0 <= m < j ==> components@[#[trigger] nbrs@[m] as int] != usize::MAX,
            decreases nbrs@.len() - j,
        {
            let neighbor = nbrs[j];
            proof {
                assert(adjacency@[node as int]@[j as int] as int == neighbor as int);
                assert(adj_edge(adjacency@, node as int, neighbor as int));
            }
            if components[neighbor] == usize::MAX {
                let ghost cm = components@;
                proof {
                    Self::lemma_unassigned_pos(cm, neighbor as int);
                }
                self.dfs(adjacency, neighbor, component_id, components);
                proof {
                    let ca = components@;
                    assert forall|a: int| 0 <= a < c0.len() && c0[a] == usize::MAX && #[trigger] ca[a] != usize::MAX
                        implies ca[a] == component_id && adj_reach(adjacency@, node as int, a) by {
                        if cm[a] == usize::MAX {
                            lemma_reach_prepend(adjacency@, node as int, neighbor as int, a);
                        }
                    }
                    assert forall|m: int| 0 <= m < j + 1 implies ca[#[trigger] nbrs@[m] as int] != usize::MAX by {
                        if m < j {
                            assert(cm[nbrs@[m] as int] != usize::MAX);
                        }
                    }
                    assert forall|a: int, b: int| 0 <= a < c0.len() && c0[a] == usize::MAX && a != node
                        && ca[a] != usize::MAX && #[trigger] adj_edge(adjacency@, a, b) implies ca[b] != usize::MAX by {
                        if cm[a] != usize::MAX {
                            assert(cm[b] != usize::MAX);
                        }
                    }
                    assert(Self::unassigned(ca) < Self::unassigned(c0)) by {
                        Self::lemma_unassigned_le(cm, ca);
                    }
                }
            }
            j = j + 1;
        }
        proof {
            assert forall|a: int, b: int| 0 <= a < c0.len() && c0[a] == usize::MAX
                && components@[a] != usize::MAX && #[trigger] adj_edge(adjacency@, a, b) implies components@[b] != usize::MAX by {
                if a == node {
                    let w = choose|w: int| 0 <= w < adjacency@[a]@.len() && #[trigger] adjacency@[a]@[w] as int == b;
                    assert(nbrs@[w] as int == b);
                }
            }
        }
    }

    proof fn lemma_unassigned_le(a: Seq<usize>, b: Seq<usize>)
        requires
            a.len() == b.len(),
            forall|i: int| 0 <= i < a.len() && a[i] != usize::MAX ==> #[trigger] b[i] == a[i],
        ensures
            Self::unassigned(b) <= Self::unassigned(a),
        decreases a.len(),
    {
        if a.len() > 0 {
            Self::lemma_unassigned_le(a.drop_last(), b.drop_last());
            if a.last() != usize::MAX {
                assert(b[b.len() - 1] == a[a.len() - 1]);
            }
        }
    }
}

/// The number at position `s` exceeds every number before it: it is that
/// number's first appearance.
pub open spec fn number_first(c: Seq<usize>, s: int) -> bool {
    forall|t: int| 0 <= t < s ==> c[t] < c[s]
}

/// The number at `a` is 0 or one more than a number before it.
pub open spec fn number_follows(c: Seq<usize>, a: int) -> bool {
    c[a] == 0 || exists|t: int| 0 <= t < a && #[trigger] c[t] + 1 == c[a]
}

/// The number at `a` first appears at a position before `bound` and no
/// later than `a`.
pub open spec fn number_started(c: Seq<usize>, a: int, bound: int) -> bool {
    exists|s: int| 0 <= s <= a && s < bound && #[trigger] c[s] == c[a] && number_first(c, s)
}

/// Two numbered positions share a number exactly when they reach each other,
/// and a numbered one does not reach an unnumbered one both ways.
pub open spec fn classes_match(adj: Seq<Vec<usize>>, c: Seq<usize>, n: int) -> bool {
    &&& forall|a: int, b: int| #![trigger c[a], c[b]] 0 <= a < n && 0 <= b < n && c[a] != usize::MAX
        && c[b] != usize::MAX ==> (c[a] == c[b] <==> adj_mutual(adj, a, b))
    &&& forall|a: int, b: int| #![trigger c[a], c[b]] 0 <= a < n && 0 <= b < n && c[a] != usize::MAX
        && c[b] == usize::MAX ==> !adj_mutual(adj, a, b)
}

/// Each number first appears before position `i`, and is 0 or one more
/// than a number met earlier; `cid - 1` has appeared when `cid > 0`.
pub open spec fn classes_ordered(c: Seq<usize>, n: int, i: int, cid: int) -> bool {
    &&& forall|a: int| 0 <= a < n && c[a] != usize::MAX ==> #[trigger] number_started(c, a, i)
    &&& cid > 0 ==> exists|t: int| 0 <= t < i && #[trigger] c[t] + 1 == cid
    &&& forall|a: int| 0 <= a < n && c[a] != usize::MAX ==> #[trigger] number_follows(c, a)
}

/// The class numbering after the first `i` positions: those are all
/// numbered, numbers stay below `cid`, classes match mutual reach, and
/// numbers appear in order.
#[verifier::opaque]
pub open spec fn classes_ok(adj: Seq<Vec<usize>>, c: Seq<usize>, n: int, i: int, cid: int) -> bool {
    &&& c.len() == n
    &&& forall|a: int| 0 <= a < i ==> c[a] != usize::MAX
    &&& forall|a: int| 0 <= a < n && c[a] != usize::MAX ==> c[a] < cid
    &&& classes_match(adj, c, n)
    &&& classes_ordered(c, n, i, cid)
}

proof fn lemma_class_start(adj: Seq<Vec<usize>>, c: Seq<usize>, n: int)
    requires
        c.len() == n,
        forall|a: int| 0 <= a < n ==> c[a] == usize::MAX,
    ensures
        classes_ok(adj, c, n, 0, 0),
{
    reveal(classes_ok);
}

proof fn lemma_class_skip(adj: Seq<Vec<usize>>, c: Seq<usize>, n: int, i: int, cid: int)
    requires
        0 <= i < n,
        classes_ok(adj, c, n, i, cid),
        c[i] != usize::MAX,
    ensures
        classes_ok(adj, c, n, i + 1, cid),
{
    reveal(classes_ok);
    lemma_ordered_skip(c, n, i, cid);
}

proof fn lemma_ordered_skip(c: Seq<usize>, n: int, i: int, cid: int)
    requires
        0 <= i < n,
        classes_ordered(c, n, i, cid),
    ensures
        classes_ordered(c, n, i + 1, cid),
{
    assert forall|a: int| 0 <= a < n && c[a] != usize::MAX implies #[trigger] number_started(c, a, i + 1) by {
        assert(number_started(c, a, i));
    }
    if cid > 0 {
        let t = choose|t: int| 0 <= t < i && #[trigger] c[t] + 1 == cid;
        assert(0 <= t < i + 1 && c[t] + 1 == cid);
    }
}

/// Numbering the unnumbered positions that reach position `i` both ways
/// with `cid`, when `i` itself is unnumbered, extends the numbering by `i`.
proof fn lemma_class_step(adj: Seq<Vec<usize>>, before: Seq<usize>, after: Seq<usize>, n: int, i: int, cid: int)
    requires
        0 <= i < n,
        0 <= cid <= i,
        cid < usize::MAX,
        classes_ok(adj, before, n as int, i, cid),
        before[i] == usize::MAX,
        after.len() == n,
        forall|a: int| 0 <= a < i ==> after[a] == before[a],
        forall|a: int| i <= a < n ==> after[a] == if before[a] == usize::MAX && adj_mutual(adj, i, a) {
            cid as usize
        } else {
            before[a]
        },
    ensures
        classes_ok(adj, after, n, i + 1, cid + 1),
{
    reveal(classes_ok);
    assert forall|a: int| 0 <= a < n implies after[a] == if before[a] == usize::MAX && adj_mutual(adj, i, a) {
        cid as usize
    } else {
        before[a]
    } by {
        if a < i {
            assert(before[a] != usize::MAX);
        }
    }
    lemma_reach_self(adj, i);
    assert(after[i] == cid);
    assert forall|a: int| 0 <= a < i + 1 implies after[a] != usize::MAX by {
        if a < i {
            assert(before[a] != usize::MAX);
        }
    }
    assert forall|a: int| 0 <= a < n && after[a] != usize::MAX implies after[a] < cid + 1 by {
        if before[a] != usize::MAX {
            assert(before[a] < cid);
        }
    }
    lemma_class_step_match(adj, before, after, n, i, cid);
    lemma_class_step_order(before, after, n, i, cid, adj);
}

proof fn lemma_class_step_match(adj: Seq<Vec<usize>>, before: Seq<usize>, after: Seq<usize>, n: int, i: int, cid: int)
    requires
        0 <= i < n,
        0 <= cid < usize::MAX,
        before.len() == n,
        forall|a: int| 0 <= a < n && before[a] != usize::MAX ==> before[a] < cid,
        classes_match(adj, before, n),
        before[i] == usize::MAX,
        after.len() == n,
        forall|a: int| 0 <= a < n ==> after[a] == if before[a] == usize::MAX && adj_mutual(adj, i, a) {
            cid as usize
        } else {
            before[a]
        },
    ensures
        classes_match(adj, after, n),
{
    assert forall|a: int, b: int| #![trigger after[a], after[b]] 0 <= a < n && 0 <= b < n
        && after[a] != usize::MAX && after[b] != usize::MAX
        implies (after[a] == after[b] <==> adj_mutual(adj, a, b)) by {
        let na = before[a] == usize::MAX;
        let nb = before[b] == usize::MAX;
        if na && nb {
            lemma_mutual_trans(adj, a, i, b);
        } else if na && !nb {
            assert(before[b] < cid);
            assert(!adj_mutual(adj, b, i)) by {
                assert(before[b] != usize::MAX && before[i] == usize::MAX);
            }
            if adj_mutual(adj, a, b) {
                lemma_mutual_trans(adj, i, a, b);
            }
        } else if !na && nb {
            assert(before[a] < cid);
            assert(!adj_mutual(adj, a, i)) by {
                assert(before[a] != usize::MAX && before[i] == usize::MAX);
            }
            if adj_mutual(adj, a, b) {
                lemma_mutual_trans(adj, a, b, i);
            }
        } else {
            assert(before[a] == before[b] <==> adj_mutual(adj, a, b));
        }
    }
    assert forall|a: int, b: int| #![trigger after[a], after[b]] 0 <= a < n && 0 <= b < n
        && after[a] != usize::MAX && after[b] == usize::MAX implies !adj_mutual(adj, a, b) by {
        assert(before[b] == usize::MAX && !adj_mutual(adj, i, b));
        if before[a] == usize::MAX {
            if adj_mutual(adj, a, b) {
                lemma_mutual_trans(adj, i, a, b);
            }
        } else {
            assert(before[a] != usize::MAX && before[b] == usize::MAX);
        }
    }
}

proof fn lemma_class_step_order(before: Seq<usize>, after: Seq<usize>, n: int, i: int, cid: int, adj: Seq<Vec<usize>>)
    requires
        0 <= i < n,
        0 <= cid,
        cid < usize::MAX,
        before.len() == n,
        forall|a: int| 0 <= a < i ==> before[a] != usize::MAX,
        forall|a: int| 0 <= a < n && before[a] != usize::MAX ==> before[a] < cid,
        classes_ordered(before, n, i, cid),
        before[i] == usize::MAX,
        after.len() == n,
        forall|a: int| 0 <= a < n ==> after[a] == if before[a] == usize::MAX && adj_mutual(adj, i, a) {
            cid as usize
        } else {
            before[a]
        },
        after[i] == cid,
    ensures
        classes_ordered(after, n, i + 1, cid + 1),
{
    assert(number_first(after, i)) by {
        assert forall|t: int| 0 <= t < i implies after[t] < after[i] by {
            assert(before[t] != usize::MAX);
        }
    }
    assert forall|a: int| 0 <= a < n && after[a] != usize::MAX implies #[trigger] number_started(after, a, i + 1) by {
        if before[a] == usize::MAX {
            assert(a >= i) by {
                if a < i {
                    assert(before[a] != usize::MAX);
                }
            }
            assert(after[i] == after[a]);
        } else {
            assert(number_started(before, a, i));
            let s = choose|s: int| 0 <= s <= a && s < i && #[trigger] before[s] == before[a] && number_first(before, s);
            assert(after[s] == after[a]);
            assert forall|t: int| 0 <= t < s implies after[t] < after[s] by {
                assert(before[t] != usize::MAX);
                assert(before[t] < before[s]);
            }
            assert(number_first(after, s));
        }
    }
    assert(after[i] + 1 == cid + 1);
    assert forall|a: int| 0 <= a < n && after[a] != usize::MAX implies #[trigger] number_follows(after, a) by {
        if before[a] == usize::MAX {
            if cid > 0 {
                let t = choose|t: int| 0 <= t < i && #[trigger] before[t] + 1 == cid;
                assert(before[t] != usize::MAX);
                assert(after[t] + 1 == after[a]);
                assert(a >= i) by {
                    if a < i {
                        assert(before[a] != usize::MAX);
                    }
                }
            }
        } else {
            assert(number_follows(before, a));
            if before[a] != 0 {
                let t = choose|t: int| 0 <= t < a && #[trigger] before[t] + 1 == before[a];
                assert(before[t] != usize::MAX);
                assert(after[t] + 1 == after[a]);
            }
        }
    }
}

/// Once every position is numbered, the numbering has the final shape.
proof fn lemma_classes_done(adj: Seq<Vec<usize>>, c: Seq<usize>, n: int, cid: int)
    requires
        classes_ok(adj, c, n, n, cid),
    ensures
        forall|a: int, b: int| #![trigger c[a], c[b]] 0 <= a < n && 0 <= b < n
            ==> (c[a] == c[b] <==> adj_mutual(adj, a, b)),
        forall|a: int| 0 <= a < n ==> #[trigger] number_follows(c, a),
        forall|a: int| 0 <= a < n ==> #[trigger] number_started(c, a, a + 1),
{
    reveal(classes_ok);
    assert forall|a: int, b: int| #![trigger c[a], c[b]] 0 <= a < n && 0 <= b < n
        implies (c[a] == c[b] <==> adj_mutual(adj, a, b)) by {
        assert(c[a] != usize::MAX && c[b] != usize::MAX);
    }
    assert forall|a: int| 0 <= a < n implies #[trigger] number_follows(c, a) by {
        assert(c[a] != usize::MAX);
    }
    assert forall|a: int| 0 <= a < n implies #[trigger] number_started(c, a, a + 1) by {
        assert(c[a] != usize::MAX);
        assert(number_started(c, a, n));
        let s = choose|s: int| 0 <= s <= a && s < n && #[trigger] c[s] == c[a] && number_first(c, s);
        assert(0 <= s <= a && s < a + 1 && c[s] == c[a] && number_first(c, s));
    }
}

/// Nodes `a` and `b` reach each other along an index adjacency list.
pub open spec fn adj_mutual(adj: Seq<Vec<usize>>, a: int, b: int) -> bool {
    adj_reach(adj, a, b) && adj_reach(adj, b, a)
}

proof fn lemma_reach_self(adj: Seq<Vec<usize>>, a: int)
    ensures
        adj_reach(adj, a, a),
{
    let p = seq![a];
    assert(adj_walk(adj, p));
}

proof fn lemma_reach_trans(adj: Seq<Vec<usize>>, a: int, b: int, c: int)
    requires
        adj_reach(adj, a, b),
        adj_reach(adj, b, c),
    ensures
        adj_reach(adj, a, c),
{
    let p = choose|p: Seq<int>| #[trigger] adj_walk(adj, p) && p[0] == a && p.last() == b;
    let q = choose|q: Seq<int>| #[trigger] adj_walk(adj, q) && q[0] == b && q.last() == c;
    let w = p + q.drop_first();
    assert forall|k: int| 0 <= k < w.len() - 1 implies #[trigger] adj_edge(adj, w[k], w[k + 1]) by {
        if k < p.len() - 1 {
            assert(w[k] == p[k]);
            assert(w[k + 1] == p[k + 1]);
            assert(adj_edge(adj, p[k], p[k + 1]));
        } else {
            let m = k - p.len() + 1;
            assert(w[k] == q[m]);
            assert(w[k + 1] == q[m + 1]);
            assert(adj_edge(adj, q[m], q[m + 1]));
        }
    }
    assert(adj_walk(adj, w));
    if q.len() == 1 {
        assert(w =~= p);
    }
    assert(w.last() == c);
}

proof fn lemma_mutual_trans(adj: Seq<Vec<usize>>, a: int, b: int, c: int)
    requires
        adj_mutual(adj, a, b),
        adj_mutual(adj, b, c),
    ensures
        adj_mutual(adj, a, c),
{
    lemma_reach_trans(adj, a, b, c);
    lemma_reach_trans(adj, c, b, a);
}

/// A marking closed under the adjacency that marks a walk's start marks
/// every node of the walk.
proof fn lemma_walk_marked(adj: Seq<Vec<usize>>, m: Seq<usize>, p: Seq<int>, k: int)
    requires
        adj_walk(adj, p),
        0 <= k < p.len(),
        0 <= p[0] < m.len(),
        m[p[0]] != usize::MAX,
        forall|a: int, b: int| 0 <= a < m.len() && m[a] != usize::MAX && #[trigger] adj_edge(adj, a, b)
            ==> 0 <= b < m.len() && m[b] != usize::MAX,
    ensures
        0 <= p[k] < m.len(),
        m[p[k]] != usize::MAX,
    decreases k,
{
    if k > 0 {
        lemma_walk_marked(adj, m, p, k - 1);
        assert(adj_edge(adj, p[k - 1], p[(k - 1) + 1]));
    }
}

proof fn lemma_reach_prepend(adj: Seq<Vec<usize>>, a: int, b: int, v: int)
    requires
        adj_edge(adj, a, b),
        adj_reach(adj, b, v),
    ensures
        adj_reach(adj, a, v),
{
    let p = choose|p: Seq<int>| #[trigger] adj_walk(adj, p) && p[0] == b && p.last() == v;
    let q = seq![a] + p;
    assert forall|k: int| 0 <= k < q.len() - 1 implies #[trigger] adj_edge(adj, q[k], q[k + 1]) by {
        if k == 0 {
            assert(q[1] == p[0]);
        } else {
            assert(q[k] == p[k - 1]);
            assert(q[k + 1] == p[k]);
            assert(adj_edge(adj, p[k - 1], p[(k - 1) + 1]));
        }
    }
    assert(adj_walk(adj, q));
}

} // verus!
