//! Caching and profiling for graph operations.

use super::correlation_graph::{CorrelationGraph, GraphEdge, GraphNode};
use crate::str_map::StrMap;
use crate::time::{duration_nanos, instant_elapsed, instant_now, max_span_nanos, span_div, span_divide};
use std::time::Instant;
use vstd::prelude::*;

verus! {

/// Performance metrics for graph operations
#[derive(Debug, Clone)]
pub struct PerformanceMetrics {
    /// Operation name
    pub operation: String,
    /// Duration of the operation, in nanoseconds
    pub duration_nanos: u128,
    /// Number of nodes processed
    pub nodes_processed: usize,
    /// Number of edges processed
    pub edges_processed: usize,
    /// Memory usage estimate (bytes)
    pub memory_usage: usize,
}

/// Graph operation cache for frequently accessed data
pub struct GraphCache {
    adjacency_cache: StrMap<Vec<String>>,
    degree_cache: StrMap<usize>,
    path_cache: StrMap<bool>,
    cache_hits: usize,
    cache_misses: usize,
}

/// Key under which the existence of a path from `source` to `target` is cached.
pub open spec fn path_key(source: Seq<char>, target: Seq<char>) -> Seq<char> {
    source + ":"@ + target
}

/// Sum over `keys` of the lengths of the lists they map to.
pub open spec fn list_len_sum(m: Map<Seq<char>, Vec<String>>, keys: Seq<Seq<char>>) -> int
    decreases keys.len(),
{
    if keys.len() == 0 {
        0
    } else {
        list_len_sum(m, keys.drop_last()) + m[keys.last()]@.len()
    }
}

/// Estimated bytes held by caches of the given sizes.
pub open spec fn cache_bytes(adjacency_keys: int, adjacency_items: int, degrees: int, paths: int) -> int {
    adjacency_keys * 64 + adjacency_items * 32 + degrees * 40 + paths * 48
}

/// Edges of a graph grouped by source, in edge order.
pub open spec fn adjacency_of(edges: Seq<GraphEdge>) -> Map<Seq<char>, Seq<Seq<char>>>
    decreases edges.len(),
{
    if edges.len() == 0 {
        Map::empty()
    } else {
        let m = adjacency_of(edges.drop_last());
        let e = edges.last();
        m.insert(e.source@, if m.contains_key(e.source@) { m[e.source@].push(e.target@) } else { seq![e.target@] })
    }
}

impl GraphCache {
    /// Cached adjacency lists.
    pub closed spec fn adjacency(&self) -> Map<Seq<char>, Vec<String>> {
        self.adjacency_cache.map()
    }

    /// Cached node degrees.
    pub closed spec fn degrees(&self) -> Map<Seq<char>, usize> {
        self.degree_cache.map()
    }

    /// Cached path existence, keyed by `path_key`.
    pub closed spec fn paths(&self) -> Map<Seq<char>, bool> {
        self.path_cache.map()
    }

    /// Number of lookups that found an entry.
    pub closed spec fn hits(&self) -> usize {
        self.cache_hits
    }

    /// Number of lookups that found none.
    pub closed spec fn misses(&self) -> usize {
        self.cache_misses
    }

    /// Create a new graph cache
    pub fn new() -> (c: Self)
        ensures
            c.adjacency() == Map::<Seq<char>, Vec<String>>::empty(),
            c.degrees() == Map::<Seq<char>, usize>::empty(),
            c.paths() == Map::<Seq<char>, bool>::empty(),
            c.hits() == 0,
            c.misses() == 0,
            c.adjacency_items() == 0,
    {
        GraphCache {
            adjacency_cache: StrMap::new(),
            degree_cache: StrMap::new(),
            path_cache: StrMap::new(),
            cache_hits: 0,
            cache_misses: 0,
        }
    }

    /// Build cache from a graph: adjacency lists by source in edge order, and
    /// for every node its number of outgoing edges.
    pub fn build_from_graph(&mut self, graph: &CorrelationGraph)
        ensures
            forall|k: Seq<char>| #[trigger] final(self).adjacency().contains_key(k) <==> adjacency_of(graph.edges@).contains_key(k),
            forall|k: Seq<char>| #[trigger] final(self).adjacency().contains_key(k) ==> final(self).adjacency()[k]@.map_values(|s: String| s@) == adjacency_of(graph.edges@)[k],
            forall|i: int| 0 <= i < graph.nodes@.len() ==> #[trigger] final(self).degrees().contains_key(graph.nodes@[i].id@),
            forall|k: Seq<char>| #[trigger] final(self).degrees().contains_key(k) ==> final(self).degrees()[k]
                == if adjacency_of(graph.edges@).contains_key(k) { adjacency_of(graph.edges@)[k].len() } else { 0 },
            forall|k: Seq<char>| #[trigger] final(self).degrees().contains_key(k)
                <==> exists|i: int| 0 <= i < graph.nodes@.len() && graph.nodes@[i].id@ == k,
            final(self).adjacency_items() == graph.edges@.len(),
            final(self).paths() == Map::<Seq<char>, bool>::empty(),
            final(self).hits() == 0,
            final(self).misses() == 0,
    {
        self.clear();
        let mut i: usize = 0;
        while i < graph.edges.len()
            invariant
                i <= graph.edges@.len(),
                forall|k: Seq<char>| #[trigger] self.adjacency().contains_key(k) <==> adjacency_of(graph.edges@.subrange(0, i as int)).contains_key(k),
                forall|k: Seq<char>| #[trigger] self.adjacency().contains_key(k) ==> self.adjacency()[k]@.map_values(|s: String| s@)
                    == adjacency_of(graph.edges@.subrange(0, i as int))[k],
                self.degrees() == Map::<Seq<char>, usize>::empty(),
                self.paths() == Map::<Seq<char>, bool>::empty(),
                self.hits() == 0,
                self.misses() == 0,
                self.adjacency_items() == i,
            decreases graph.edges@.len() - i,
        {
            let edge = &graph.edges[i];
            let ghost before = self.adjacency();
            let ghost keys0 = self.adjacency_cache.key_seq();
            let _ = self.adjacency_cache.len();
            self.adjacency_cache.push_to(edge.source.clone(), edge.target.clone());
            let _ = self.adjacency_cache.len();
            proof {
                let src = edge.source@;
                let after = self.adjacency_cache.map();
                if before.contains_key(src) {
                    lemma_list_len_sum_bump(before, after, keys0, src);
                } else {
                    lemma_list_len_sum_bump(before, after, keys0, src);
                    let ks = keys0.push(src);
                    assert(ks.drop_last() =~= keys0);
                }
            }
            proof {
                let pre = graph.edges@.subrange(0, i as int + 1);
                assert(pre.drop_last() =~= graph.edges@.subrange(0, i as int));
                assert(pre.last() == *edge);
                let src = edge.source@;
                assert forall|k: Seq<char>| #[trigger] self.adjacency().contains_key(k) implies self.adjacency()[k]@.map_values(|s: String| s@)
                    == adjacency_of(pre)[k] by {
                    if k == src {
                        if before.contains_key(src) {
                            assert(self.adjacency()[k]@.map_values(|s: String| s@) =~= before[src]@.map_values(|s: String| s@).push(edge.target@));
                        } else {
                            assert(self.adjacency()[k]@.map_values(|s: String| s@) =~= seq![edge.target@]);
                        }
                    }
                }
            }
            i = i + 1;
        }
        proof {
            assert(graph.edges@.subrange(0, graph.edges@.len() as int) =~= graph.edges@);
        }
        let mut j: usize = 0;
        while j < graph.nodes.len()
            invariant
                j <= graph.nodes@.len(),
                forall|k: Seq<char>| #[trigger] self.adjacency().contains_key(k) <==> adjacency_of(graph.edges@).contains_key(k),
                forall|k: Seq<char>| #[trigger] self.adjacency().contains_key(k) ==> self.adjacency()[k]@.map_values(|s: String| s@)
                    == adjacency_of(graph.edges@)[k],
                forall|t: int| 0 <= t < j ==> #[trigger] self.degrees().contains_key(graph.nodes@[t].id@),
                forall|k: Seq<char>| #[trigger] self.degrees().contains_key(k) ==> self.degrees()[k]
                    == if adjacency_of(graph.edges@).contains_key(k) { adjacency_of(graph.edges@)[k].len() } else { 0 },
                forall|k: Seq<char>| #[trigger] self.degrees().contains_key(k)
                    ==> exists|t: int| 0 <= t < j && graph.nodes@[t].id@ == k,
                self.adjacency_items() == graph.edges@.len(),
                self.paths() == Map::<Seq<char>, bool>::empty(),
                self.hits() == 0,
                self.misses() == 0,
            decreases graph.nodes@.len() - j,
        {
            let node = &graph.nodes[j];
            let degree = match self.adjacency_cache.get(node.id.as_str()) {
                Some(v) => v.len(),
                None => 0,
            };
            proof {
                if self.adjacency().contains_key(node.id@) {
                    assert(self.adjacency()[node.id@]@.map_values(|s: String| s@).len() == self.adjacency()[node.id@]@.len());
                }
            }
            let ghost before = self.degrees();
            let ghost key = node.id@;
            proof {
                assert(degree == if adjacency_of(graph.edges@).contains_key(key) { adjacency_of(graph.edges@)[key].len() } else { 0 });
            }
            self.degree_cache.insert(node.id.clone(), degree);
            proof {
                assert(self.degrees() == before.insert(key, degree));
                assert(key == graph.nodes@[j as int].id@);
                assert forall|t: int| 0 <= t < j + 1 implies #[trigger] self.degrees().contains_key(graph.nodes@[t].id@) by {
                    if t < j {
                        assert(before.contains_key(graph.nodes@[t].id@));
                    }
                }
                assert forall|k: Seq<char>| #[trigger] self.degrees().contains_key(k)
                    implies exists|t: int| 0 <= t < j + 1 && graph.nodes@[t].id@ == k by {
                    if k == key {
                        assert(graph.nodes@[j as int].id@ == k);
                    } else {
                        assert(before.contains_key(k));
                        let t = choose|t: int| 0 <= t < j && graph.nodes@[t].id@ == k;
                        assert(0 <= t < j + 1 && graph.nodes@[t].id@ == k);
                    }
                }
            }
            j = j + 1;
        }
        proof {
            assert forall|k: Seq<char>| (exists|i: int| 0 <= i < graph.nodes@.len() && graph.nodes@[i].id@ == k)
                implies #[trigger] self.degrees().contains_key(k) by {
                let i = choose|i: int| 0 <= i < graph.nodes@.len() && graph.nodes@[i].id@ == k;
                assert(self.degrees().contains_key(graph.nodes@[i].id@));
            }
        }
    }

    /// Get adjacent nodes (cached); counts a hit or a miss.
    pub fn get_adjacent_nodes(&mut self, node_id: &str) -> (r: Option<&Vec<String>>)
        requires
            old(self).hits() < usize::MAX,
            old(self).misses() < usize::MAX,
        ensures
            final(self).adjacency() == old(self).adjacency(),
            final(self).adjacency_items() == old(self).adjacency_items(),
            final(self).degrees() == old(self).degrees(),
            final(self).paths() == old(self).paths(),
            match r {
                Some(v) => old(self).adjacency().contains_key(node_id@) && *v == old(self).adjacency()[node_id@]
                    && final(self).hits() == old(self).hits() + 1 && final(self).misses() == old(self).misses(),
                None => !old(self).adjacency().contains_key(node_id@)
                    && final(self).hits() == old(self).hits() && final(self).misses() == old(self).misses() + 1,
            },
    {
        if self.adjacency_cache.contains_key(node_id) {
            self.cache_hits = self.cache_hits + 1;
            self.adjacency_cache.get(node_id)
        } else {
            self.cache_misses = self.cache_misses + 1;
            None
        }
    }

    /// Get node degree (cached); counts a hit or a miss.
    pub fn get_node_degree(&mut self, node_id: &str) -> (r: Option<usize>)
        requires
            old(self).hits() < usize::MAX,
            old(self).misses() < usize::MAX,
        ensures
            final(self).adjacency() == old(self).adjacency(),
            final(self).adjacency_items() == old(self).adjacency_items(),
            final(self).degrees() == old(self).degrees(),
            final(self).paths() == old(self).paths(),
            match r {
                Some(d) => old(self).degrees().contains_key(node_id@) && d == old(self).degrees()[node_id@]
                    && final(self).hits() == old(self).hits() + 1 && final(self).misses() == old(self).misses(),
                None => !old(self).degrees().contains_key(node_id@)
                    && final(self).hits() == old(self).hits() && final(self).misses() == old(self).misses() + 1,
            },
    {
        match self.degree_cache.get(node_id) {
            Some(d) => {
                let degree = *d;
                self.cache_hits = self.cache_hits + 1;
                Some(degree)
            },
            None => {
                self.cache_misses = self.cache_misses + 1;
                None
            },
        }
    }

    /// Check if path exists between two nodes (cached); counts a hit or a miss.
    pub fn has_path(&mut self, source: &str, target: &str) -> (r: Option<bool>)
        requires
            old(self).hits() < usize::MAX,
            old(self).misses() < usize::MAX,
        ensures
            final(self).adjacency() == old(self).adjacency(),
            final(self).adjacency_items() == old(self).adjacency_items(),
            final(self).degrees() == old(self).degrees(),
            final(self).paths() == old(self).paths(),
            match r {
                Some(b) => old(self).paths().contains_key(path_key(source@, target@))
                    && b == old(self).paths()[path_key(source@, target@)]
                    && final(self).hits() == old(self).hits() + 1 && final(self).misses() == old(self).misses(),
                None => !old(self).paths().contains_key(path_key(source@, target@))
                    && final(self).hits() == old(self).hits() && final(self).misses() == old(self).misses() + 1,
            },
    {
        let key = String::from_str(source).concat(":").concat(target);
        match self.path_cache.get(key.as_str()) {
            Some(b) => {
                let exists = *b;
                self.cache_hits = self.cache_hits + 1;
                Some(exists)
            },
            None => {
                self.cache_misses = self.cache_misses + 1;
                None
            },
        }
    }

    /// Cache path existence result
    pub fn cache_path(&mut self, source: &str, target: &str, exists: bool)
        ensures
            final(self).paths() == old(self).paths().insert(path_key(source@, target@), exists),
            final(self).adjacency() == old(self).adjacency(),
            final(self).adjacency_items() == old(self).adjacency_items(),
            final(self).degrees() == old(self).degrees(),
            final(self).hits() == old(self).hits(),
            final(self).misses() == old(self).misses(),
    {
        let key = String::from_str(source).concat(":").concat(target);
        self.path_cache.insert(key, exists);
    }

    /// Hit and miss counts.
    pub fn hit_counts(&self) -> (r: (usize, usize))
        ensures
            r == (self.hits(), self.misses()),
    {
        (self.cache_hits, self.cache_misses)
    }

    /// Clear all caches
    pub fn clear(&mut self)
        ensures
            final(self).adjacency() == Map::<Seq<char>, Vec<String>>::empty(),
            final(self).degrees() == Map::<Seq<char>, usize>::empty(),
            final(self).paths() == Map::<Seq<char>, bool>::empty(),
            final(self).hits() == 0,
            final(self).misses() == 0,
            final(self).adjacency_items() == 0,
    {
        self.adjacency_cache.clear();
        self.degree_cache.clear();
        self.path_cache.clear();
        self.cache_hits = 0;
        self.cache_misses = 0;
    }

    /// Total number of adjacency entries over all cached lists.
    pub closed spec fn adjacency_items(&self) -> int {
        list_len_sum(self.adjacency_cache.map(), self.adjacency_cache.key_seq())
    }

    /// Get memory usage estimate
    pub fn memory_usage(&self) -> (n: usize)
        requires
            cache_bytes(self.adjacency().dom().len() as int, self.adjacency_items(),
                self.degrees().dom().len() as int, self.paths().dom().len() as int) <= usize::MAX,
        ensures
            n == cache_bytes(self.adjacency().dom().len() as int, self.adjacency_items(),
                self.degrees().dom().len() as int, self.paths().dom().len() as int),
    {
        let a = self.adjacency_cache.len();
        let d = self.degree_cache.len();
        let p = self.path_cache.len();
        let ghost keys = self.adjacency_cache.key_seq();
        let ghost m = self.adjacency_cache.map();
        let mut items: usize = 0;
        let mut i: usize = 0;
        proof {
            lemma_list_len_sum_mono(m, keys, 0);
        }
        while i < a
            invariant
                a == keys.len(),
                keys == self.adjacency_cache.key_seq(),
                m == self.adjacency_cache.map(),
                i <= a,
                items == list_len_sum(m, keys.subrange(0, i as int)),
                list_len_sum(m, keys) * 32 <= usize::MAX,
                forall|j: int| 0 <= j <= a ==> #[trigger] list_len_sum(m, keys.subrange(0, j)) <= list_len_sum(m, keys),
            decreases a - i,
        {
            let (k, v) = self.adjacency_cache.entry_at(i);
            proof {
                let pre = keys.subrange(0, i as int + 1);
                assert(pre.drop_last() =~= keys.subrange(0, i as int));
                assert(pre.last() == k@);
                assert(list_len_sum(m, pre) <= list_len_sum(m, keys));
            }
            items = items + v.len();
            i = i + 1;
        }
        proof {
            assert(keys.subrange(0, a as int) =~= keys);
        }
        a * 64 + items * 32 + d * 40 + p * 48
    }
}

/// Lengthening the list at `k` by one, and adding `k` to the keys when it
/// is new, adds one to the sum of list lengths.
proof fn lemma_list_len_sum_bump(m1: Map<Seq<char>, Vec<String>>, m2: Map<Seq<char>, Vec<String>>, keys: Seq<Seq<char>>, k: Seq<char>)
    requires
        keys.no_duplicates(),
        forall|q: Seq<char>| #[trigger] m1.contains_key(q) <==> keys.contains(q),
        m2.contains_key(k),
        m2[k]@.len() == if m1.contains_key(k) { m1[k]@.len() + 1 } else { 1 },
        forall|q: Seq<char>| q != k && m1.contains_key(q) ==> #[trigger] m2[q] == m1[q],
    ensures
        m1.contains_key(k) ==> list_len_sum(m2, keys) == list_len_sum(m1, keys) + 1,
        !m1.contains_key(k) ==> list_len_sum(m2, keys.push(k)) == list_len_sum(m1, keys) + 1,
{
    lemma_list_len_sum_step(m1, m2, keys, k);
    if !m1.contains_key(k) {
        let ks = keys.push(k);
        assert(ks.drop_last() =~= keys);
    }
}

proof fn lemma_list_len_sum_step(m1: Map<Seq<char>, Vec<String>>, m2: Map<Seq<char>, Vec<String>>, keys: Seq<Seq<char>>, k: Seq<char>)
    requires
        keys.no_duplicates(),
        forall|q: Seq<char>| #[trigger] keys.contains(q) ==> m1.contains_key(q),
        forall|q: Seq<char>| q != k && m1.contains_key(q) ==> #[trigger] m2[q] == m1[q],
        keys.contains(k) ==> m2[k]@.len() == m1[k]@.len() + 1,
    ensures
        list_len_sum(m2, keys) == list_len_sum(m1, keys) + if keys.contains(k) { 1int } else { 0int },
    decreases keys.len(),
{
    if keys.len() > 0 {
        let rest = keys.drop_last();
        let last = keys.last();
        assert forall|q: Seq<char>| #[trigger] rest.contains(q) implies keys.contains(q) by {
            let t = choose|t: int| 0 <= t < rest.len() && rest[t] == q;
            assert(keys[t] == q);
        }
        assert(keys.contains(last)) by {
            assert(keys[keys.len() - 1] == last);
        }
        assert(!rest.contains(last)) by {
            if rest.contains(last) {
                let t = choose|t: int| 0 <= t < rest.len() && rest[t] == last;
                assert(keys[t] == keys[keys.len() - 1]);
            }
        }
        assert(rest.no_duplicates()) by {
            assert forall|x: int, y: int| 0 <= x < y < rest.len() implies rest[x] != rest[y] by {
                assert(keys[x] == rest[x] && keys[y] == rest[y]);
            }
        }
        assert(keys.contains(k) <==> (rest.contains(k) || last == k)) by {
            if keys.contains(k) && last != k {
                let t = choose|t: int| 0 <= t < keys.len() && keys[t] == k;
                assert(t < keys.len() - 1);
                assert(rest[t] == k);
            }
        }
        lemma_list_len_sum_step(m1, m2, rest, k);
    }
}

proof fn lemma_list_len_sum_mono(m: Map<Seq<char>, Vec<String>>, keys: Seq<Seq<char>>, dummy: int)
    ensures
        list_len_sum(m, keys) >= 0,
        forall|j: int| 0 <= j <= keys.len() ==> #[trigger] list_len_sum(m, keys.subrange(0, j)) <= list_len_sum(m, keys),
    decreases keys.len(),
{
    if keys.len() > 0 {
        lemma_list_len_sum_mono(m, keys.drop_last(), dummy);
        assert forall|j: int| 0 <= j <= keys.len() implies #[trigger] list_len_sum(m, keys.subrange(0, j)) <= list_len_sum(m, keys) by {
            if j == keys.len() {
                assert(keys.subrange(0, j) =~= keys);
            } else {
                assert(keys.subrange(0, j) =~= keys.drop_last().subrange(0, j));
            }
        }
    } else {
        assert forall|j: int| 0 <= j <= keys.len() implies #[trigger] list_len_sum(m, keys.subrange(0, j)) <= list_len_sum(m, keys) by {
            assert(keys.subrange(0, j) =~= keys);
        }
    }
}

} // verus!

verus! {

/// Performance profiler for graph operations
pub struct PerformanceProfiler {
    metrics: Vec<PerformanceMetrics>,
    current_operation: Option<(String, Instant)>,
}

/// Performance summary statistics
#[derive(Debug, Clone)]
pub struct PerformanceSummary {
    /// Total number of operations
    pub total_operations: usize,
    /// Total duration of all operations, in nanoseconds
    pub total_duration_nanos: u128,
    /// Average duration per operation, in nanoseconds
    pub avg_duration_nanos: u128,
    /// Total nodes processed
    pub total_nodes_processed: usize,
    /// Total edges processed
    pub total_edges_processed: usize,
    /// Total memory usage
    pub total_memory_usage: usize,
}

/// Sum of `f` over the metrics.
pub open spec fn metric_sum(ms: Seq<PerformanceMetrics>, f: spec_fn(PerformanceMetrics) -> int) -> int
    decreases ms.len(),
{
    if ms.len() == 0 {
        0
    } else {
        metric_sum(ms.drop_last(), f) + f(ms.last())
    }
}

/// Duration of a metric.
pub open spec fn m_duration(m: PerformanceMetrics) -> int {
    m.duration_nanos as int
}

/// Nodes processed by a metric.
pub open spec fn m_nodes(m: PerformanceMetrics) -> int {
    m.nodes_processed as int
}

/// Edges processed by a metric.
pub open spec fn m_edges(m: PerformanceMetrics) -> int {
    m.edges_processed as int
}

/// Memory estimated for a metric.
pub open spec fn m_memory(m: PerformanceMetrics) -> int {
    m.memory_usage as int
}

/// Estimated memory of an operation over `nodes` nodes and `edges` edges.
pub open spec fn operation_memory(nodes: int, edges: int) -> int {
    nodes * 128 + edges * 96
}

proof fn lemma_metric_sum_prefix(ms: Seq<PerformanceMetrics>, f: spec_fn(PerformanceMetrics) -> int, i: int)
    requires
        0 <= i < ms.len(),
    ensures
        metric_sum(ms.subrange(0, i + 1), f) == metric_sum(ms.subrange(0, i), f) + f(ms[i]),
{
    assert(ms.subrange(0, i + 1).drop_last() =~= ms.subrange(0, i));
}

proof fn lemma_metric_sum_mono(ms: Seq<PerformanceMetrics>, f: spec_fn(PerformanceMetrics) -> int, i: int)
    requires
        0 <= i <= ms.len(),
        forall|m: PerformanceMetrics| #[trigger] f(m) >= 0,
    ensures
        0 <= metric_sum(ms.subrange(0, i), f) <= metric_sum(ms, f),
    decreases ms.len() - i,
{
    if i < ms.len() {
        lemma_metric_sum_mono(ms, f, i + 1);
        lemma_metric_sum_prefix(ms, f, i);
        lemma_metric_sum_nonneg(ms.subrange(0, i), f);
        assert(f(ms[i]) >= 0);
    } else {
        assert(ms.subrange(0, i) =~= ms);
        lemma_metric_sum_nonneg(ms, f);
    }
}

proof fn lemma_metric_sum_nonneg(ms: Seq<PerformanceMetrics>, f: spec_fn(PerformanceMetrics) -> int)
    requires
        forall|m: PerformanceMetrics| #[trigger] f(m) >= 0,
    ensures
        metric_sum(ms, f) >= 0,
    decreases ms.len(),
{
    if ms.len() > 0 {
        lemma_metric_sum_nonneg(ms.drop_last(), f);
        assert(f(ms.last()) >= 0);
    }
}

impl PerformanceProfiler {
    /// Recorded metrics, in order.
    pub closed spec fn recorded(&self) -> Seq<PerformanceMetrics> {
        self.metrics@
    }

    /// Name of the operation being timed, if any.
    pub closed spec fn current_name(&self) -> Option<Seq<char>> {
        match self.current_operation {
            Some(c) => Some(c.0@),
            None => None,
        }
    }

    /// Create a new profiler
    pub fn new() -> (p: Self)
        ensures
            p.recorded() == Seq::<PerformanceMetrics>::empty(),
            p.current_name() is None,
    {
        PerformanceProfiler { metrics: Vec::new(), current_operation: None }
    }

    /// Start profiling an operation (replacing any operation being timed).
    pub fn start_operation(&mut self, operation: &str)
        ensures
            final(self).recorded() == old(self).recorded(),
            final(self).current_name() == Some(operation@),
    {
        let start = instant_now();
        self.current_operation = Some((String::from_str(operation), start));
    }

    /// End profiling the current operation, recording its metrics; without a
    /// current operation nothing changes.
    pub fn end_operation(&mut self, nodes_processed: usize, edges_processed: usize)
        requires
            old(self).current_name() is Some ==> operation_memory(nodes_processed as int, edges_processed as int) <= usize::MAX,
        ensures
            final(self).current_name() is None,
            match old(self).current_name() {
                None => final(self).recorded() == old(self).recorded(),
                Some(name) => final(self).recorded().len() == old(self).recorded().len() + 1
                    && final(self).recorded().drop_last() == old(self).recorded()
                    && final(self).recorded().last().operation@ == name
                    && final(self).recorded().last().nodes_processed == nodes_processed
                    && final(self).recorded().last().edges_processed == edges_processed
                    && final(self).recorded().last().memory_usage == operation_memory(nodes_processed as int, edges_processed as int),
            },
    {
        let current = self.current_operation.take();
        match current {
            Some((operation, start_time)) => {
                let elapsed = instant_elapsed(&start_time);
                let duration_nanos = duration_nanos(&elapsed);
                let memory_usage = (nodes_processed * 128) + (edges_processed * 96);
                self.metrics.push(PerformanceMetrics {
                    operation,
                    duration_nanos,
                    nodes_processed,
                    edges_processed,
                    memory_usage,
                });
                proof {
                    assert(self.metrics@.drop_last() =~= old(self).metrics@);
                }
            },
            None => {},
        }
    }

    /// Get all recorded metrics
    pub fn get_metrics(&self) -> (r: &[PerformanceMetrics])
        ensures
            r@ == self.recorded(),
    {
        self.metrics.as_slice()
    }

    /// Get summary statistics: totals over all metrics and the average
    /// duration, divided as `Duration / u32` divides.
    pub fn get_summary(&self) -> (s: PerformanceSummary)
        requires
            metric_sum(self.recorded(), |m: PerformanceMetrics| m_duration(m)) <= max_span_nanos(),
            metric_sum(self.recorded(), |m: PerformanceMetrics| m_nodes(m)) <= usize::MAX,
            metric_sum(self.recorded(), |m: PerformanceMetrics| m_edges(m)) <= usize::MAX,
            metric_sum(self.recorded(), |m: PerformanceMetrics| m_memory(m)) <= usize::MAX,
            self.recorded().len() > 0 ==> self.recorded().len() % 0x1_0000_0000 != 0,
        ensures
            s.total_operations == self.recorded().len(),
            s.total_duration_nanos == metric_sum(self.recorded(), |m: PerformanceMetrics| m_duration(m)),
            s.total_nodes_processed == metric_sum(self.recorded(), |m: PerformanceMetrics| m_nodes(m)),
            s.total_edges_processed == metric_sum(self.recorded(), |m: PerformanceMetrics| m_edges(m)),
            s.total_memory_usage == metric_sum(self.recorded(), |m: PerformanceMetrics| m_memory(m)),
            s.avg_duration_nanos == if self.recorded().len() == 0 { 0 } else {
                span_div(s.total_duration_nanos as int, (self.recorded().len() % 0x1_0000_0000) as int)
            },
    {
        let ghost ms = self.metrics@;
        let ghost fd = |m: PerformanceMetrics| m_duration(m);
        let ghost fnn = |m: PerformanceMetrics| m_nodes(m);
        let ghost fe = |m: PerformanceMetrics| m_edges(m);
        let ghost fm = |m: PerformanceMetrics| m_memory(m);
        let mut total_duration: u128 = 0;
        let mut total_nodes: usize = 0;
        let mut total_edges: usize = 0;
        let mut total_memory: usize = 0;
        let mut i: usize = 0;
        while i < self.metrics.len()
            invariant
                ms == self.metrics@,
                i <= ms.len(),
                total_duration == metric_sum(ms.subrange(0, i as int), fd),
                total_nodes == metric_sum(ms.subrange(0, i as int), fnn),
                total_edges == metric_sum(ms.subrange(0, i as int), fe),
                total_memory == metric_sum(ms.subrange(0, i as int), fm),
                metric_sum(ms, fd) <= max_span_nanos(),
                metric_sum(ms, fnn) <= usize::MAX,
                metric_sum(ms, fe) <= usize::MAX,
                metric_sum(ms, fm) <= usize::MAX,
                fd == |m: PerformanceMetrics| m_duration(m),
                fnn == |m: PerformanceMetrics| m_nodes(m),
                fe == |m: PerformanceMetrics| m_edges(m),
                fm == |m: PerformanceMetrics| m_memory(m),
            decreases ms.len() - i,
        {
            let m = &self.metrics[i];
            proof {
                lemma_metric_sum_prefix(ms, fd, i as int);
                lemma_metric_sum_prefix(ms, fnn, i as int);
                lemma_metric_sum_prefix(ms, fe, i as int);
                lemma_metric_sum_prefix(ms, fm, i as int);
                lemma_metric_sum_mono(ms, fd, i as int + 1);
                lemma_metric_sum_mono(ms, fnn, i as int + 1);
                lemma_metric_sum_mono(ms, fe, i as int + 1);
                lemma_metric_sum_mono(ms, fm, i as int + 1);
            }
            total_duration = total_duration + m.duration_nanos;
            total_nodes = total_nodes + m.nodes_processed;
            total_edges = total_edges + m.edges_processed;
            total_memory = total_memory + m.memory_usage;
            i = i + 1;
        }
        proof {
            assert(ms.subrange(0, ms.len() as int) =~= ms);
        }
        let n = self.metrics.len();
        let avg_duration = if n > 0 {
            let wide = n as u64;
            let divisor = (wide % 0x1_0000_0000) as u32;
            span_divide(total_duration, divisor)
        } else {
            0
        };
        PerformanceSummary {
            total_operations: n,
            total_duration_nanos: total_duration,
            avg_duration_nanos: avg_duration,
            total_nodes_processed: total_nodes,
            total_edges_processed: total_edges,
            total_memory_usage: total_memory,
        }
    }

    /// Clear all metrics
    pub fn clear(&mut self)
        ensures
            final(self).recorded() == Seq::<PerformanceMetrics>::empty(),
            final(self).current_name() is None,
    {
        self.metrics.clear();
        self.current_operation = None;
    }
}

} // verus!

verus! {

/// What makes two edges duplicates: the same ends and the same type.
pub open spec fn edge_key(e: GraphEdge) -> (Seq<char>, Seq<char>, super::EdgeType) {
    (e.source@, e.target@, e.edge_type)
}

/// Keys of a list of edges.
pub open spec fn edge_keys(edges: Seq<GraphEdge>) -> Seq<(Seq<char>, Seq<char>, super::EdgeType)> {
    edges.map_values(|e: GraphEdge| edge_key(e))
}

/// The first edge of each key, in order.
pub open spec fn first_of_each_key(edges: Seq<GraphEdge>) -> Seq<GraphEdge>
    decreases edges.len(),
{
    if edges.len() == 0 {
        Seq::empty()
    } else {
        let rest = first_of_each_key(edges.drop_last());
        if edge_keys(edges.drop_last()).contains(edge_key(edges.last())) {
            rest
        } else {
            rest.push(edges.last())
        }
    }
}

/// The edges whose two ends are nodes of `nodes`, in order.
pub open spec fn edges_between_nodes(edges: Seq<GraphEdge>, nodes: Seq<GraphNode>) -> Seq<GraphEdge>
    decreases edges.len(),
{
    if edges.len() == 0 {
        Seq::empty()
    } else {
        let rest = edges_between_nodes(edges.drop_last(), nodes);
        let e = edges.last();
        if super::correlation_graph::node_ids(nodes).contains(e.source@) && super::correlation_graph::node_ids(
            nodes,
        ).contains(e.target@) {
            rest.push(e)
        } else {
            rest
        }
    }
}

fn same_key(a: &GraphEdge, b: &GraphEdge) -> (r: bool)
    ensures
        r == (edge_key(*a) == edge_key(*b)),
{
    a.source.eq(&b.source) && a.target.eq(&b.target) && a.edge_type == b.edge_type
}

fn has_key(kept: &Vec<GraphEdge>, e: &GraphEdge) -> (r: bool)
    ensures
        r == edge_keys(kept@).contains(edge_key(*e)),
{
    let mut i: usize = 0;
    while i < kept.len()
        invariant
            i <= kept@.len(),
            forall|j: int| 0 <= j < i ==> edge_key(#[trigger] kept@[j]) != edge_key(*e),
        decreases kept@.len() - i,
    {
        if same_key(&kept[i], e) {
            proof {
                assert(edge_keys(kept@)[i as int] == edge_key(*e));
            }
            return true;
        }
        i = i + 1;
    }
    proof {
        if edge_keys(kept@).contains(edge_key(*e)) {
            let j = choose|j: int| 0 <= j < edge_keys(kept@).len() && edge_keys(kept@)[j] == edge_key(*e);
            assert(edge_key(kept@[j]) == edge_key(*e));
        }
    }
    false
}

/// Drop every edge that repeats the ends and type of an earlier edge, then
/// every edge with an end that is no node of the graph.
pub fn optimize_graph(graph: &mut CorrelationGraph) -> (r: Result<(), crate::error::Error>)
    ensures
        r is Ok,
        final(graph).nodes == old(graph).nodes,
        final(graph).graph_type == old(graph).graph_type,
        final(graph).name == old(graph).name,
        final(graph).edges@ == edges_between_nodes(first_of_each_key(old(graph).edges@), old(graph).nodes@),
{
    let ghost all = graph.edges@;
    let mut rest: Vec<GraphEdge> = Vec::new();
    std::mem::swap(&mut rest, &mut graph.edges);
    let total = rest.len();
    let mut kept: Vec<GraphEdge> = Vec::new();
    let mut i: usize = 0;
    proof {
        assert(all.take(0) =~= Seq::<GraphEdge>::empty());
    }
    while rest.len() > 0
        invariant
            total == all.len(),
            i <= all.len(),
            rest@ == all.subrange(i as int, all.len() as int),
            kept@ == first_of_each_key(all.take(i as int)),
            forall|k: (Seq<char>, Seq<char>, super::EdgeType)| #[trigger] edge_keys(kept@).contains(k) <==> edge_keys(
                all.take(i as int),
            ).contains(k),
        decreases rest@.len(),
    {
        let e = rest.remove(0);
        let ghost t0 = all.take(i as int);
        let ghost t1 = all.take(i as int + 1);
        proof {
            assert(e == all[i as int]);
            assert(t1.drop_last() =~= t0);
            assert(t1.last() == e);
            assert(edge_keys(t1) =~= edge_keys(t0).push(edge_key(e)));
        }
        let ghost kept_before = kept@;
        if !has_key(&kept, &e) {
            kept.push(e);
            proof {
                assert(edge_keys(kept@) =~= edge_keys(kept_before).push(edge_key(e)));
            }
        }
        proof {
            assert forall|k: (Seq<char>, Seq<char>, super::EdgeType)| #[trigger] edge_keys(kept@).contains(k)
                <==> edge_keys(t1).contains(k) by {
                let a = edge_keys(t0);
                let a1 = edge_keys(t1);
                assert(a1[a.len() as int] == edge_key(e));
                if a.contains(k) {
                    let q = choose|q: int| 0 <= q < a.len() && a[q] == k;
                    assert(a1[q] == k);
                }
                if a1.contains(k) && k != edge_key(e) {
                    let q = choose|q: int| 0 <= q < a1.len() && a1[q] == k;
                    assert(a[q] == k);
                }
                let b = edge_keys(kept_before);
                let b1 = edge_keys(kept@);
                if b1 != b {
                    assert(b1[b.len() as int] == edge_key(e));
                    if b.contains(k) {
                        let q = choose|q: int| 0 <= q < b.len() && b[q] == k;
                        assert(b1[q] == k);
                    }
                    if b1.contains(k) && k != edge_key(e) {
                        let q = choose|q: int| 0 <= q < b1.len() && b1[q] == k;
                        assert(b[q] == k);
                    }
                }
            }
        }
        i = i + 1;
        proof {
            assert(rest@ =~= all.subrange(i as int, all.len() as int));
        }
    }
    proof {
        assert(all.take(i as int) =~= all);
    }
    let ghost firsts = kept@;
    let mut out: Vec<GraphEdge> = Vec::new();
    let mut j: usize = 0;
    let n2 = kept.len();
    proof {
        assert(firsts.take(0) =~= Seq::<GraphEdge>::empty());
    }
    while kept.len() > 0
        invariant
            n2 == firsts.len(),
            j <= firsts.len(),
            kept@ == firsts.subrange(j as int, firsts.len() as int),
            out@ == edges_between_nodes(firsts.take(j as int), graph.nodes@),
            graph.nodes == old(graph).nodes,
            graph.graph_type == old(graph).graph_type,
            graph.name == old(graph).name,
        decreases kept@.len(),
    {
        let e = kept.remove(0);
        proof {
            assert(e == firsts[j as int]);
            assert(firsts.take(j as int + 1).drop_last() =~= firsts.take(j as int));
            assert(firsts.take(j as int + 1).last() == e);
        }
        if graph.has_node_id(&e.source) && graph.has_node_id(&e.target) {
            out.push(e);
        }
        j = j + 1;
        proof {
            assert(kept@ =~= firsts.subrange(j as int, firsts.len() as int));
        }
    }
    proof {
        assert(firsts.take(j as int) =~= firsts);
    }
    graph.edges = out;
    Ok(())
}

} // verus!
