//! Properties that hold across the operations of the library, each proved
//! from the contracts those operations state.

use crate::graph_comparison::{edge_ids_only_in, ids_only_in};
use crate::graph_correlation::builders::{
    file_ops, function_ops, keyed_pairs, plain_call_ops, run_views, view_node_ids, NodeView, EdgeView, OpView,
};
use crate::graph_correlation::extractor::{
    cache_after, dependency_plan, import_edge, import_source, import_target, module_node, search_outcome, RecordView,
};
use crate::graph_correlation::graph_export::{xml_escaped, xml_escaped_char};
use crate::index::label_index::{nodes_of, with_node, without_node};
use crate::memory::cache::NumaPartitionedCache;
use crate::memory::lockfree::LockFreeHashMap;
use crate::memory_management::{coalesced, pool_size, released, take_block, BlockType, PoolView};
use vstd::wrapping::usize_specs::{wrapping_add, wrapping_sub};
use crate::monitoring::{latest, empty_profile, profile_advanced, health_from, health_step, unhealthy_seen, HealthStatus, ProfileData};
use crate::graph_correlation::performance::{adjacency_of, path_key};
use crate::graph_correlation::correlation_graph::{edges_at, node_ids, GraphEdge, GraphNode};
use crate::graph_correlation::performance::{edges_between_nodes, first_of_each_key};
use crate::graph_algorithms::pair_edges;
use crate::index::label_index::nodes_with_all;
use crate::error::Error;
use crate::procedures::{is_builtin_name, Procedure};
use crate::time::span_div;
use crate::graph_algorithms::{kruskal, rep};
use crate::graph_simple::{edges_without, touches, Edge, Graph, NodeId};
use vstd::prelude::*;

verus! {

/// Once a node is deleted, no remaining edge has it at either end.
pub proof fn law_no_edge_touches_deleted_node(edges: Map<u64, Edge>, n: NodeId)
    ensures
        forall|k: u64| #[trigger] edges_without(edges, n).contains_key(k) ==> !touches(edges_without(edges, n)[k], n),
{
}

/// Deleting a node keeps, unchanged, every edge that does not touch it.
pub proof fn law_delete_keeps_other_edges(edges: Map<u64, Edge>, n: NodeId, k: u64)
    requires
        edges.contains_key(k),
        !touches(edges[k], n),
    ensures
        edges_without(edges, n).contains_key(k),
        edges_without(edges, n)[k] == edges[k],
{
}

/// Adding a label a node lacks and then removing it gives back the labels
/// the node had: the added label is its first occurrence.
pub proof fn law_add_then_remove_label(labels: Seq<Seq<char>>, label: Seq<char>)
    requires
        !labels.contains(label),
    ensures
        labels.push(label)[labels.len() as int] == label,
        forall|j: int| 0 <= j < labels.len() ==> #[trigger] labels.push(label)[j] != label,
        labels.push(label).remove(labels.len() as int) == labels,
{
    assert forall|j: int| 0 <= j < labels.len() implies #[trigger] labels.push(label)[j] != label by {
        assert(labels.push(label)[j] == labels[j]);
    }
    assert(labels.push(label).remove(labels.len() as int) =~= labels);
}

/// A graph compared with itself has no added or removed nodes or edges.
pub proof fn law_self_comparison_adds_and_removes_nothing(g: Graph)
    ensures
        ids_only_in(g.node_order(), g.node_map()).len() == 0,
        edge_ids_only_in(g.edge_order(), g.edge_map()).len() == 0,
{
    g.lemma_orders_are_domains();
    reveal(Seq::filter);
    let p = |k: u64| !g.node_map().contains_key(k);
    let q = |k: u64| !g.edge_map().contains_key(k);
    lemma_filter_none(g.node_order(), p);
    lemma_filter_none(g.edge_order(), q);
}

proof fn lemma_filter_none<A>(s: Seq<A>, p: spec_fn(A) -> bool)
    requires
        forall|i: int| 0 <= i < s.len() ==> !p(#[trigger] s[i]),
    ensures
        s.filter(p).len() == 0,
    decreases s.len(),
{
    reveal(Seq::filter);
    if s.len() > 0 {
        assert forall|i: int| 0 <= i < s.drop_last().len() implies !p(#[trigger] s.drop_last()[i]) by {
            assert(s.drop_last()[i] == s[i]);
        }
        lemma_filter_none(s.drop_last(), p);
    }
}

/// Escaping text that holds none of the five markup characters leaves it as it is.
pub proof fn law_escape_plain_text(s: Seq<char>)
    requires
        forall|i: int| 0 <= i < s.len() ==> {
            let c = #[trigger] s[i];
            c != '&' && c != '<' && c != '>' && c != '"' && c != '\''
        },
    ensures
        xml_escaped(s) == s,
    decreases s.len(),
{
    if s.len() > 0 {
        assert forall|i: int| 0 <= i < s.drop_last().len() implies {
            let c = #[trigger] s.drop_last()[i];
            c != '&' && c != '<' && c != '>' && c != '"' && c != '\''
        } by {
            assert(s.drop_last()[i] == s[i]);
        }
        law_escape_plain_text(s.drop_last());
        let c = s.last();
        assert(xml_escaped_char(c) == seq![c]);
        assert(s.drop_last() + seq![c] =~= s);
    }
}

/// Number of node additions among `ops`.
pub open spec fn node_additions(ops: Seq<OpView>) -> nat
    decreases ops.len(),
{
    if ops.len() == 0 {
        0
    } else {
        node_additions(ops.drop_last()) + if ops.last() is Node { 1nat } else { 0nat }
    }
}

/// Number of edge additions among `ops`.
pub open spec fn edge_additions(ops: Seq<OpView>) -> nat
    decreases ops.len(),
{
    if ops.len() == 0 {
        0
    } else {
        edge_additions(ops.drop_last()) + if ops.last() is Edge { 1nat } else { 0nat }
    }
}

proof fn lemma_additions_concat(a: Seq<OpView>, b: Seq<OpView>)
    ensures
        node_additions(a + b) == node_additions(a) + node_additions(b),
        edge_additions(a + b) == edge_additions(a) + edge_additions(b),
    decreases b.len(),
{
    if b.len() == 0 {
        assert(a + b =~= a);
    } else {
        lemma_additions_concat(a, b.drop_last());
        assert((a + b).drop_last() =~= a + b.drop_last());
        assert((a + b).last() == b.last());
    }
}

proof fn lemma_run_counts(n: Seq<NodeView>, e: Seq<EdgeView>, ops: Seq<OpView>)
    ensures
        run_views(n, e, ops) matches Ok(st) ==> st.0.len() == n.len() + node_additions(ops) && st.1.len() == e.len()
            + edge_additions(ops),
    decreases ops.len(),
{
    if ops.len() > 0 {
        lemma_run_counts(n, e, ops.drop_last());
    }
}

proof fn lemma_file_ops_counts(style: crate::graph_correlation::builders::FileStyle, files: Seq<Seq<char>>)
    ensures
        node_additions(file_ops(style, files)) == files.len(),
        edge_additions(file_ops(style, files)) == 0,
    decreases files.len(),
{
    if files.len() > 0 {
        lemma_file_ops_counts(style, files.drop_last());
        assert(file_ops(style, files).drop_last() =~= file_ops(style, files.drop_last()));
    }
}

proof fn lemma_function_ops_counts(style: crate::graph_correlation::builders::CallStyle, pairs: Seq<(Seq<char>, Seq<char>)>)
    ensures
        node_additions(function_ops(style, pairs)) == pairs.len(),
        edge_additions(function_ops(style, pairs)) == pairs.len(),
    decreases pairs.len(),
{
    if pairs.len() > 0 {
        lemma_function_ops_counts(style, pairs.drop_last());
        let base = function_ops(style, pairs.drop_last());
        let pr = pairs.last();
        let nv = OpView::Node(crate::graph_correlation::builders::function_node_view(style, pr.0, pr.1));
        let ev = OpView::Edge(crate::graph_correlation::builders::contains_edge_view(style, pr.0, pr.1));
        let mid = base.push(nv);
        let full = mid.push(ev);
        assert(function_ops(style, pairs) == full);
        assert(full.drop_last() =~= mid);
        assert(mid.drop_last() =~= base);
        assert(node_additions(mid) == node_additions(base) + 1);
        assert(edge_additions(mid) == edge_additions(base));
        assert(node_additions(full) == node_additions(mid));
        assert(edge_additions(full) == edge_additions(mid) + 1);
    }
}

/// A call graph built without a refusal has one node per file and one per
/// listed function, and one edge per listed function.
pub proof fn law_call_graph_counts(data: crate::graph_correlation::builders::GraphSourceData)
    ensures
        run_views(Seq::empty(), Seq::empty(), plain_call_ops(data)) matches Ok(st) ==> {
            &&& st.0.len() == data.files.key_seq().len() + keyed_pairs(data.functions.key_seq(), data.functions.map()).len()
            &&& st.1.len() == keyed_pairs(data.functions.key_seq(), data.functions.map()).len()
        },
{
    let a = file_ops(crate::graph_correlation::builders::plain_file_style(), data.files.key_seq());
    let pairs = keyed_pairs(data.functions.key_seq(), data.functions.map());
    let b = function_ops(crate::graph_correlation::builders::plain_call_style(), pairs);
    lemma_additions_concat(a, b);
    lemma_file_ops_counts(crate::graph_correlation::builders::plain_file_style(), data.files.key_seq());
    lemma_function_ops_counts(crate::graph_correlation::builders::plain_call_style(), pairs);
    lemma_run_counts(Seq::empty(), Seq::empty(), plain_call_ops(data));
}

proof fn lemma_rep_merge_keeps_joined(g: Seq<(u64, u64, u64)>, e: (u64, u64, u64), a: u64, b: u64)
    requires
        rep(g, a) == rep(g, b),
    ensures
        rep(g.push(e), a) == rep(g.push(e), b),
{
    assert(g.push(e).drop_last() =~= g);
}

/// The edges Kruskal's method keeps join the two ends of every edge it was
/// given into one component: the kept edges span each component.
pub proof fn law_kruskal_spans(edges: Seq<(u64, u64, u64)>)
    ensures
        forall|i: int| 0 <= i < edges.len() ==> rep(kruskal(edges), (#[trigger] edges[i]).0) == rep(
            kruskal(edges),
            edges[i].1,
        ),
    decreases edges.len(),
{
    if edges.len() > 0 {
        let h = edges.drop_last();
        law_kruskal_spans(h);
        let g = kruskal(h);
        let e = edges.last();
        assert forall|i: int| 0 <= i < edges.len() implies rep(kruskal(edges), (#[trigger] edges[i]).0) == rep(
            kruskal(edges),
            edges[i].1,
        ) by {
            if i < edges.len() - 1 {
                assert(edges[i] == h[i]);
                if rep(g, e.0) != rep(g, e.1) {
                    lemma_rep_merge_keeps_joined(g, e, edges[i].0, edges[i].1);
                }
            } else {
                if rep(g, e.0) != rep(g, e.1) {
                    assert(g.push(e).drop_last() =~= g);
                    assert(g.push(e).last() == e);
                }
            }
        }
    }
}

/// The components of `nodes` once the edges `g` are merged: the distinct
/// representatives.
pub open spec fn rep_classes(g: Seq<(u64, u64, u64)>, nodes: Set<u64>) -> Set<u64> {
    nodes.map(|x: u64| rep(g, x))
}

/// Both ends of edge `e` are among `nodes`.
pub open spec fn edge_within(e: (u64, u64, u64), nodes: Set<u64>) -> bool {
    nodes.contains(e.0) && nodes.contains(e.1)
}

/// Kruskal's method keeps a forest: each kept edge joins two components, so
/// the kept edges and the components they leave add up to the number of
/// nodes (edges between given nodes).
pub proof fn law_kruskal_forest(edges: Seq<(u64, u64, u64)>, nodes: Set<u64>)
    requires
        nodes.finite(),
        forall|i: int| 0 <= i < edges.len() ==> #[trigger] edge_within(edges[i], nodes),
    ensures
        kruskal(edges).len() + rep_classes(kruskal(edges), nodes).len() == nodes.len(),
        rep_classes(kruskal(edges), nodes).finite(),
    decreases edges.len(),
{
    if edges.len() == 0 {
        assert(rep_classes(Seq::empty(), nodes) =~= nodes) by {
            assert forall|y: u64| nodes.contains(y) implies rep_classes(Seq::empty(), nodes).contains(y) by {
                assert(rep(Seq::<(u64, u64, u64)>::empty(), y) == y);
            }
        }
    } else {
        let k = edges.len() - 1;
        let ek = edges[k];
        assert(edge_within(edges[k], nodes));
        let h = edges.drop_last();
        assert forall|i: int| 0 <= i < h.len() implies #[trigger] edge_within(h[i], nodes) by {
            assert(h[i] == edges[i]);
        }
        law_kruskal_forest(h, nodes);
        let g = kruskal(h);
        let e = edges.last();
        assert(ek == e);
        if rep(g, e.0) != rep(g, e.1) {
            let g2 = g.push(e);
            assert(g2.drop_last() =~= g);
            assert(g2.last() == e);
            let old_c = rep_classes(g, nodes);
            let new_c = rep_classes(g2, nodes);
            let r1 = rep(g, e.1);
            assert(old_c.contains(r1));
            assert(old_c.contains(rep(g, e.0)));
            assert(new_c =~= old_c.remove(r1)) by {
                assert forall|y: u64| new_c.contains(y) implies old_c.remove(r1).contains(y) by {
                    let x = choose|x: u64| nodes.contains(x) && rep(g2, x) == y;
                    assert(old_c.contains(rep(g, x)));
                }
                assert forall|y: u64| old_c.remove(r1).contains(y) implies new_c.contains(y) by {
                    let x = choose|x: u64| nodes.contains(x) && rep(g, x) == y;
                    assert(rep(g2, x) == y);
                }
            }
            nodes.lemma_map_finite(|x: u64| rep(g2, x));
        }
    }
}

/// A node added under some labels is found under each of them, and every
/// other label keeps its nodes.
pub proof fn law_added_node_found_under_its_labels(m: Map<u32, Set<u32>>, ls: Seq<u32>, v: u32)
    ensures
        forall|l: u32| #[trigger] ls.contains(l) ==> nodes_of(with_node(m, ls, v), l).contains(v),
        forall|l: u32| !ls.contains(l) ==> #[trigger] nodes_of(with_node(m, ls, v), l) == nodes_of(m, l),
{
}

/// A removed node is found under no label, and every other node keeps its labels.
pub proof fn law_removed_node_found_nowhere(m: Map<u32, Set<u32>>, v: u32)
    ensures
        forall|l: u32| !(#[trigger] nodes_of(without_node(m, v), l)).contains(v),
        forall|l: u32, w: u32| w != v ==> (#[trigger] nodes_of(without_node(m, v), l).contains(w)
            <==> nodes_of(m, l).contains(w)),
{
}

/// Removing a node that was just added, when it carried no label before,
/// leaves every label with the nodes it had.
pub proof fn law_add_then_remove_node(m: Map<u32, Set<u32>>, ls: Seq<u32>, v: u32)
    requires
        forall|l: u32| #[trigger] m.contains_key(l) ==> !m[l].contains(v),
    ensures
        forall|l: u32| #[trigger] nodes_of(without_node(with_node(m, ls, v), v), l) == nodes_of(m, l),
{
    assert forall|l: u32| #[trigger] nodes_of(without_node(with_node(m, ls, v), v), l) == nodes_of(m, l) by {
        let after = with_node(m, ls, v);
        if after.contains_key(l) {
            assert(nodes_of(without_node(after, v), l) =~= nodes_of(m, l));
        } else {
            assert(nodes_of(without_node(after, v), l) =~= nodes_of(m, l));
        }
    }
}

/// A search repeated with nothing in between returns what the first returned
/// and leaves the cache as the first left it.
pub proof fn law_repeated_search_is_cached(cache: Map<Seq<char>, Seq<RecordView>>, caching: bool, key: Seq<char>)
    ensures
        search_outcome(cache_after(cache, caching, key), caching, key) == search_outcome(cache, caching, key),
        cache_after(cache_after(cache, caching, key), caching, key) == cache_after(cache, caching, key),
{
}

/// The metric history never holds more than its bound, and after a sample is
/// recorded the history ends with that sample (for a bound of at least one),
/// the samples before it kept in order.
pub proof fn law_history_is_bounded<A>(history: Seq<A>, sample: A, max: nat)
    ensures
        latest(history.push(sample), max).len() <= max,
        latest(history.push(sample), max).len() == if history.len() + 1 > max { max } else { history.len() + 1 },
        max > 0 ==> latest(history.push(sample), max).last() == sample,
        latest(history.push(sample), max) == history.push(sample).subrange(
            history.len() + 1 - latest(history.push(sample), max).len(),
            history.len() + 1 as int,
        ),
{
    let full = history.push(sample);
    if full.len() <= max {
        assert(full.subrange(0, full.len() as int) =~= full);
    }
}

/// What `get` answers once `insert(key, value)` has been made on a
/// partitioned cache: a clone of that value.
pub proof fn law_cache_get_after_insert<V: Clone>(
    before: NumaPartitionedCache<V>,
    after: NumaPartitionedCache<V>,
    key: Seq<char>,
    value: V,
    answer: Option<V>,
)
    requires
        after.entries() == before.entries().insert(key, value),
        match answer {
            Some(x) => after.entries().contains_key(key) && cloned(after.entries()[key], x),
            None => !after.entries().contains_key(key),
        },
    ensures
        answer matches Some(x) && cloned(value, x),
{
}

/// What `get` answers once `remove(key)` has been made on a partitioned
/// cache: nothing.
pub proof fn law_cache_get_after_remove<V: Clone>(
    before: NumaPartitionedCache<V>,
    after: NumaPartitionedCache<V>,
    key: Seq<char>,
    answer: Option<V>,
)
    requires
        after.entries() == before.entries().remove(key),
        match answer {
            Some(x) => after.entries().contains_key(key) && cloned(after.entries()[key], x),
            None => !after.entries().contains_key(key),
        },
    ensures
        answer is None,
{
}

/// What `get` answers once `insert(key, value)` has been made on the hash
/// map: a clone of that value.
pub proof fn law_map_get_after_insert<V: Clone>(
    before: LockFreeHashMap<V>,
    after: LockFreeHashMap<V>,
    key: Seq<char>,
    value: V,
    answer: Option<V>,
)
    requires
        after.entries() == before.entries().insert(key, value),
        match answer {
            Some(x) => after.entries().contains_key(key) && cloned(after.entries()[key], x),
            None => !after.entries().contains_key(key),
        },
    ensures
        answer matches Some(x) && cloned(value, x),
{
}

/// What `get` answers once `remove(key)` has been made on the hash map:
/// nothing.
pub proof fn law_map_get_after_remove<V: Clone>(
    before: LockFreeHashMap<V>,
    after: LockFreeHashMap<V>,
    key: Seq<char>,
    answer: Option<V>,
)
    requires
        after.entries() == before.entries().remove(key),
        match answer {
            Some(x) => after.entries().contains_key(key) && cloned(after.entries()[key], x),
            None => !after.entries().contains_key(key),
        },
    ensures
        answer is None,
{
}

/// A stack gives back the value pushed last, and popping it restores the
/// stack as it was.
pub proof fn law_stack_last_in_first_out<T>(items: Seq<T>, value: T)
    ensures
        items.push(value).len() > 0,
        items.push(value).last() == value,
        items.push(value).drop_last() == items,
{
    assert(items.push(value).drop_last() =~= items);
}

/// The pool's size (its allocated plus its free bytes, as the counters add
/// up) is what allocation, release and merging leave it.
pub proof fn law_pool_size_is_kept(p: PoolView, i: int, need: usize, t: BlockType, a: u64, idx: usize)
    ensures
        pool_size(take_block(p, i, need, t).counts) == pool_size(p.counts),
        pool_size(released(p, a, idx).counts) == pool_size(p.counts),
        coalesced(p, idx).counts.total_allocated == p.counts.total_allocated,
        coalesced(p, idx).counts.total_free == p.counts.total_free,
{
    let ta = p.counts.total_allocated;
    let tf = p.counts.total_free;
    let s = p.blocks[idx as int].size;
    assert(wrapping_add(wrapping_add(ta, need), wrapping_sub(tf, need)) == wrapping_add(ta, tf));
    assert(wrapping_add(wrapping_sub(ta, s), wrapping_add(tf, s)) == wrapping_add(ta, tf));
}

/// Extracting a dependency graph adds each module once: the additions that
/// import records make are refused, if at all, only for an import edge met
/// twice, and once accepted the graph's modules are the sources and targets
/// named so far.
pub proof fn law_dependency_modules_added_once(imports: Seq<RecordView>)
    ensures
        run_views(Seq::empty(), Seq::empty(), dependency_plan(imports).0) matches Err(m) ==> exists|id: Seq<char>|
            m == "Duplicate edge ID: "@ + id,
        run_views(Seq::empty(), Seq::empty(), dependency_plan(imports).0) matches Ok(st) ==> forall|x: Seq<char>|
            #[trigger] view_node_ids(st.0).contains(x) <==> dependency_plan(imports).1.contains(x),
    decreases imports.len(),
{
    if imports.len() > 0 {
        let prev = imports.drop_last();
        law_dependency_modules_added_once(prev);
        let (ops, known) = dependency_plan(prev);
        let rec = imports.last();
        let s = import_source(rec);
        let t = import_target(rec);
        let ops1 = if known.contains(s) { ops } else { ops.push(OpView::Node(module_node(s))) };
        let known1 = known.insert(s);
        let ops2 = if known1.contains(t) { ops1 } else { ops1.push(OpView::Node(module_node(t))) };
        let ops3 = ops2.push(OpView::Edge(import_edge(rec)));
        let e = Seq::<NodeView>::empty();
        let f = Seq::<EdgeView>::empty();
        assert(ops3.drop_last() =~= ops2);
        match run_views(e, f, ops) {
            Err(m) => {
                lemma_refusal_kept(e, f, ops, OpView::Node(module_node(s)));
                lemma_refusal_kept(e, f, ops1, OpView::Node(module_node(t)));
                assert(run_views(e, f, ops2) == Err::<(Seq<NodeView>, Seq<EdgeView>), Seq<char>>(m));
            },
            Ok(st0) => {
                lemma_module_added(e, f, ops, known, s);
                lemma_module_added(e, f, ops1, known1, t);
                let st2 = run_views(e, f, ops2)->Ok_0;
                assert(known1.insert(t).contains(s));
                assert(view_node_ids(st2.0).contains(s));
                assert(view_node_ids(st2.0).contains(t));
            },
        }
    }
}

/// The additions with a module appended unless it is already known.
spec fn with_module(ops: Seq<OpView>, known: Set<Seq<char>>, s: Seq<char>) -> Seq<OpView> {
    if known.contains(s) { ops } else { ops.push(OpView::Node(module_node(s))) }
}

/// A refused addition stays refused, whatever is added after it.
proof fn lemma_refusal_kept(e: Seq<NodeView>, f: Seq<EdgeView>, ops: Seq<OpView>, op: OpView)
    requires
        run_views(e, f, ops) is Err,
    ensures
        run_views(e, f, ops.push(op)) == run_views(e, f, ops),
{
    assert(ops.push(op).drop_last() =~= ops);
}

/// Adding a module that is not yet among the nodes is accepted and extends
/// them by that module; one already there adds nothing.
proof fn lemma_module_added(e: Seq<NodeView>, f: Seq<EdgeView>, ops: Seq<OpView>, known: Set<Seq<char>>, s: Seq<char>)
    requires
        run_views(e, f, ops) is Ok,
        forall|x: Seq<char>| #[trigger] view_node_ids(run_views(e, f, ops)->Ok_0.0).contains(x) <==> known.contains(x),
    ensures
        run_views(e, f, with_module(ops, known, s)) is Ok,
        forall|x: Seq<char>| #[trigger]
            view_node_ids(run_views(e, f, with_module(ops, known, s))->Ok_0.0).contains(x) <==> known.insert(s).contains(x),
{
    let st = run_views(e, f, ops)->Ok_0;
    if !known.contains(s) {
        let ops1 = ops.push(OpView::Node(module_node(s)));
        assert(ops1.drop_last() =~= ops);
        let ids = view_node_ids(st.0);
        let ids1 = view_node_ids(st.0.push(module_node(s)));
        assert(ids1 =~= ids.push(s));
        assert forall|x: Seq<char>| #[trigger] ids1.contains(x) <==> known.insert(s).contains(x) by {
            if ids1.contains(x) {
                let i = choose|i: int| 0 <= i < ids1.len() && ids1[i] == x;
                if i < ids.len() {
                    assert(ids[i] == x);
                }
            }
            if ids.contains(x) {
                let j = choose|j: int| 0 <= j < ids.len() && ids[j] == x;
                assert(ids1[j] == x);
            }
            if x == s {
                assert(ids1[ids.len() as int] == x);
            }
        }
    }
}


/// A profile's extremes bound its total: the shortest run times the count is
/// at most the total, which is at most the longest run times the count.
pub open spec fn profile_bounded(p: ProfileData) -> bool {
    &&& p.min_time_nanos <= p.max_time_nanos
    &&& p.min_time_nanos * p.execution_count <= p.total_time_nanos
    &&& p.total_time_nanos <= p.max_time_nanos * p.execution_count
}

/// Every profile recorded by ending a timed run stays bounded by its
/// extremes: the first run from an empty profile, and each further run from
/// a bounded one.
pub proof fn law_profile_stays_bounded(prev: ProfileData, d: int, p: ProfileData)
    requires
        d >= 0,
        empty_profile(prev) || (prev.execution_count > 0 && profile_bounded(prev)),
        profile_advanced(prev, d, p),
    ensures
        profile_bounded(p),
{
    if prev.execution_count > 0 {
        let c = prev.execution_count as int;
        let mn = prev.min_time_nanos as int;
        let mx = prev.max_time_nanos as int;
        let t = prev.total_time_nanos as int;
        let mn1 = p.min_time_nanos as int;
        let mx1 = p.max_time_nanos as int;
        assert(mn1 <= mn && mn1 <= d);
        assert(mx1 >= mx && mx1 >= d);
        assert(mn1 * (c + 1) <= t + d) by (nonlinear_arith)
            requires
                mn1 <= mn,
                mn1 <= d,
                mn * c <= t,
                c > 0,
                mn1 >= 0,
        ;
        assert(t + d <= mx1 * (c + 1)) by (nonlinear_arith)
            requires
                mx1 >= mx,
                mx1 >= d,
                t <= mx * c,
                c > 0,
        ;
    }
}

/// The average of a bounded profile, the total divided by the count as
/// `Duration / u32` divides, is at most the longest run and at least the
/// shortest run less one nanosecond (that division can fall a nanosecond
/// short of the true quotient).
pub proof fn law_profile_average_within_extremes(p: ProfileData)
    requires
        profile_bounded(p),
        0 < p.execution_count < 0x1_0000_0000,
        p.average_time_nanos == span_div(p.total_time_nanos as int, p.execution_count as int),
    ensures
        p.average_time_nanos <= p.max_time_nanos,
        p.min_time_nanos <= p.average_time_nanos + 1,
{
    let t = p.total_time_nanos as int;
    let n = p.execution_count as int;
    lemma_span_div_near(t, n);
    let f = t / n;
    vstd::arithmetic::div_mod::lemma_fundamental_div_mod(t, n);
    assert(f <= p.max_time_nanos) by (nonlinear_arith)
        requires
            t == n * f + t % n,
            0 <= t % n,
            t <= p.max_time_nanos * n,
            n > 0,
    ;
    assert(p.min_time_nanos <= f) by (nonlinear_arith)
        requires
            t == n * f + t % n,
            t % n < n,
            p.min_time_nanos * n <= t,
            n > 0,
    ;
}

/// Dividing as `Duration / u32` does gives the quotient or one less.
proof fn lemma_span_div_near(t: int, n: int)
    requires
        t >= 0,
        n > 0,
    ensures
        t / n - 1 <= span_div(t, n) <= t / n,
{
    let g = 1_000_000_000int;
    let s = t / g;
    let nn = t % g;
    vstd::arithmetic::div_mod::lemma_fundamental_div_mod(t, g);
    let q = s / n;
    let c = s - q * n;
    vstd::arithmetic::div_mod::lemma_fundamental_div_mod(s, n);
    assert(0 <= c < n) by {
        assert(c == s % n) by (nonlinear_arith)
            requires
                s == n * (s / n) + s % n,
                q == s / n,
                c == s - q * n,
        ;
    }
    let a1 = nn / n;
    let r1 = nn % n;
    let b1 = (c * g) / n;
    let r2 = (c * g) % n;
    vstd::arithmetic::div_mod::lemma_fundamental_div_mod(nn, n);
    vstd::arithmetic::div_mod::lemma_fundamental_div_mod(c * g, n);
    assert(span_div(t, n) == q * g + a1 + b1);
    assert(t == (q * g + a1 + b1) * n + (r1 + r2)) by (nonlinear_arith)
        requires
            t == g * s + nn,
            s == q * n + c,
            nn == n * a1 + r1,
            c * g == n * b1 + r2,
    ;
    let base = q * g + a1 + b1;
    if r1 + r2 < n {
        vstd::arithmetic::div_mod::lemma_fundamental_div_mod_converse(t, n, base, r1 + r2);
    } else {
        assert(t == (base + 1) * n + (r1 + r2 - n)) by (nonlinear_arith)
            requires
                t == base * n + (r1 + r2),
        ;
        vstd::arithmetic::div_mod::lemma_fundamental_div_mod_converse(t, n, base + 1, r1 + r2 - n);
    }
}


/// Whether every result reports healthy.
pub open spec fn all_healthy(rs: Seq<Result<HealthStatus, Error>>) -> bool {
    forall|i: int| 0 <= i < rs.len() ==> #[trigger] rs[i] == Ok::<HealthStatus, Error>(HealthStatus::Healthy)
}

/// Combined check results are unhealthy exactly when some check reports
/// unhealthy, and healthy exactly when every check reports healthy (no
/// checks at all included).
pub proof fn law_health_verdict(rs: Seq<Result<HealthStatus, Error>>)
    ensures
        health_from(HealthStatus::Healthy, rs) == HealthStatus::Unhealthy <==> unhealthy_seen(rs),
        health_from(HealthStatus::Healthy, rs) == HealthStatus::Healthy <==> all_healthy(rs),
{
    lemma_health_verdict(HealthStatus::Healthy, rs);
}

proof fn lemma_health_verdict(acc: HealthStatus, rs: Seq<Result<HealthStatus, Error>>)
    requires
        acc != HealthStatus::Unhealthy,
    ensures
        health_from(acc, rs) == HealthStatus::Unhealthy <==> unhealthy_seen(rs),
        health_from(acc, rs) == HealthStatus::Healthy <==> (acc == HealthStatus::Healthy && all_healthy(rs)),
    decreases rs.len(),
{
    if rs.len() > 0 {
        let rest = rs.subrange(1, rs.len() as int);
        assert forall|i: int| 0 <= i < rest.len() implies #[trigger] rest[i] == rs[i + 1] by {}
        if rs[0] == Ok::<HealthStatus, Error>(HealthStatus::Unhealthy) {
            assert(unhealthy_seen(rs)) by {
                assert(rs[0] == Ok::<HealthStatus, Error>(HealthStatus::Unhealthy));
            }
            assert(!all_healthy(rs)) by {
                assert(rs[0] != Ok::<HealthStatus, Error>(HealthStatus::Healthy));
            }
        } else {
            let acc2 = health_step(acc, rs[0]);
            assert(acc2 != HealthStatus::Unhealthy);
            lemma_health_verdict(acc2, rest);
            assert(unhealthy_seen(rs) <==> unhealthy_seen(rest)) by {
                if unhealthy_seen(rs) {
                    let i = choose|i: int| 0 <= i < rs.len() && rs[i] == Ok::<HealthStatus, Error>(HealthStatus::Unhealthy);
                    assert(i > 0);
                    assert(rest[i - 1] == rs[i]);
                }
                if unhealthy_seen(rest) {
                    let i = choose|i: int| 0 <= i < rest.len() && rest[i] == Ok::<HealthStatus, Error>(HealthStatus::Unhealthy);
                    assert(rs[i + 1] == rest[i]);
                }
            }
            assert((acc2 == HealthStatus::Healthy && all_healthy(rest)) <==> (acc == HealthStatus::Healthy && all_healthy(rs))) by {
                if acc == HealthStatus::Healthy && all_healthy(rs) {
                    assert(rs[0] == Ok::<HealthStatus, Error>(HealthStatus::Healthy));
                    assert forall|i: int| 0 <= i < rest.len() implies #[trigger] rest[i] == Ok::<HealthStatus, Error>(HealthStatus::Healthy) by {
                        assert(rs[i + 1] == Ok::<HealthStatus, Error>(HealthStatus::Healthy));
                    }
                }
                if acc2 == HealthStatus::Healthy && all_healthy(rest) {
                    assert forall|i: int| 0 <= i < rs.len() implies #[trigger] rs[i] == Ok::<HealthStatus, Error>(HealthStatus::Healthy) by {
                        if i > 0 {
                            assert(rest[i - 1] == Ok::<HealthStatus, Error>(HealthStatus::Healthy));
                        }
                    }
                }
            }
        }
    }
}

/// Path answers cached in order, as `(source, target, exists)`.
pub open spec fn paths_after(m: Map<Seq<char>, bool>, cached: Seq<(Seq<char>, Seq<char>, bool)>) -> Map<Seq<char>, bool>
    decreases cached.len(),
{
    if cached.len() == 0 {
        m
    } else {
        let c = cached.last();
        paths_after(m, cached.drop_last()).insert(path_key(c.0, c.1), c.2)
    }
}

/// A cached path answer stays until the same key is cached again: after
/// caching `(s, t, b)` and then other answers whose keys differ, the cache
/// answers `b` for `(s, t)`.
pub proof fn law_cached_path_answered(
    m: Map<Seq<char>, bool>,
    s: Seq<char>,
    t: Seq<char>,
    b: bool,
    later: Seq<(Seq<char>, Seq<char>, bool)>,
)
    requires
        forall|i: int| 0 <= i < later.len() ==> path_key((#[trigger] later[i]).0, later[i].1) != path_key(s, t),
    ensures
        paths_after(m.insert(path_key(s, t), b), later).contains_key(path_key(s, t)),
        paths_after(m.insert(path_key(s, t), b), later)[path_key(s, t)] == b,
    decreases later.len(),
{
    if later.len() > 0 {
        let h = later.drop_last();
        assert forall|i: int| 0 <= i < h.len() implies path_key((#[trigger] h[i]).0, h[i].1) != path_key(s, t) by {
            assert(h[i] == later[i]);
        }
        law_cached_path_answered(m, s, t, b, h);
        let k = later.len() - 1;
        assert(path_key(later[k].0, later[k].1) != path_key(s, t));
    }
}

/// Number of edges leaving `id`.
pub open spec fn out_count(edges: Seq<GraphEdge>, id: Seq<char>) -> nat
    decreases edges.len(),
{
    if edges.len() == 0 {
        0
    } else {
        out_count(edges.drop_last(), id) + if edges.last().source@ == id { 1nat } else { 0nat }
    }
}

/// The degree a built graph cache gives a node, the length of its adjacency
/// list (none counting as empty), is the number of edges leaving it.
pub proof fn law_degree_counts_out_edges(edges: Seq<GraphEdge>, id: Seq<char>)
    ensures
        (if adjacency_of(edges).contains_key(id) { adjacency_of(edges)[id].len() } else { 0 }) == out_count(edges, id),
    decreases edges.len(),
{
    if edges.len() > 0 {
        law_degree_counts_out_edges(edges.drop_last(), id);
    }
}

/// Registering a custom procedure under a name that is neither registered
/// nor built-in, then unregistering that name, leaves the registered
/// procedures as they were; in between the name is registered.
pub proof fn law_register_then_unregister<P>(m: Map<Seq<char>, Procedure<P>>, name: Seq<char>, p: P)
    requires
        !m.contains_key(name),
        !is_builtin_name(name),
    ensures
        m.insert(name, Procedure::Custom(p)).contains_key(name),
        m.insert(name, Procedure::Custom(p)).remove(name) == m,
{
    assert(m.insert(name, Procedure::Custom(p)).remove(name) =~= m);
}

/// The spanning candidates of a node's edges are those edges with their
/// direction dropped, each as `(smaller end, larger end, weight)`, in order:
/// every edge to another node is a candidate, and an edge to the node
/// itself is not.
pub proof fn law_spanning_candidates_keep_every_edge(n: u64, out: Seq<(u64, u64)>)
    ensures
        pair_edges(n, out) == out.filter(|e: (u64, u64)| e.0 != n).map_values(
            |e: (u64, u64)| if n < e.0 { (n, e.0, e.1) } else { (e.0, n, e.1) },
        ),
    decreases out.len(),
{
    reveal(Seq::filter);
    if out.len() > 0 {
        law_spanning_candidates_keep_every_edge(n, out.drop_last());
        let f = |e: (u64, u64)| if n < e.0 { (n, e.0, e.1) } else { (e.0, n, e.1) };
        let rest = out.drop_last().filter(|e: (u64, u64)| e.0 != n);
        let x = out.last();
        if x.0 != n {
            assert(rest.push(x).map_values(f) =~= rest.map_values(f).push(f(x)));
        }
    }
}

/// Every edge `u -> v` of a graph with `u != v` is among the graph's
/// spanning candidates as `(min(u, v), max(u, v), weight)`.
pub proof fn law_every_edge_is_a_spanning_candidate(g: crate::graph_algorithms::Graph, k: int, a: int, b: int)
    requires
        0 <= a < k <= g.node_seq().len(),
        0 <= b < g.out_edges(g.node_seq()[a]).len(),
        g.out_edges(g.node_seq()[a])[b].0 != g.node_seq()[a],
    ensures
        ({
            let u = g.node_seq()[a];
            let v = g.out_edges(u)[b].0;
            let w = g.out_edges(u)[b].1;
            g.spanning_candidates_upto(k).contains(if u < v { (u, v, w) } else { (v, u, w) })
        }),
    decreases k,
{
    let u = g.node_seq()[a];
    let out = g.out_edges(u);
    let v = out[b].0;
    let w = out[b].1;
    let c = if u < v { (u, v, w) } else { (v, u, w) };
    if a < k - 1 {
        law_every_edge_is_a_spanning_candidate(g, k - 1, a, b);
        let left = g.spanning_candidates_upto(k - 1);
        let j = left.index_of(c);
        assert((left + pair_edges(g.node_seq()[k - 1], g.out_edges(g.node_seq()[k - 1])))[j] == c);
    } else {
        law_spanning_candidates_keep_every_edge(u, out);
        let p = |e: (u64, u64)| e.0 != u;
        let fl = out.filter(p);
        out.filter_lemma(p);
        assert(fl.contains(out[b]));
        let i = fl.index_of(out[b]);
        let pe = pair_edges(u, out);
        assert(pe[i] == c);
        let left = g.spanning_candidates_upto(k - 1);
        assert((left + pe)[left.len() + i] == c);
    }
}

/// Whether two edges repeat each other: the same source, the same target
/// and the same type.
pub open spec fn repeats(a: GraphEdge, b: GraphEdge) -> bool {
    a.source@ == b.source@ && a.target@ == b.target@ && a.edge_type == b.edge_type
}

proof fn lemma_first_of_each(es: Seq<GraphEdge>, e: GraphEdge)
    ensures
        first_of_each_key(es).contains(e) <==> exists|i: int| 0 <= i < es.len() && es[i] == e
            && forall|j: int| 0 <= j < i ==> !repeats(#[trigger] es[j], e),
    decreases es.len(),
{
    if es.len() > 0 {
        let d = es.drop_last();
        lemma_first_of_each(d, e);
        let keys = crate::graph_correlation::performance::edge_keys(d);
        let last = es.last();
        let rest = first_of_each_key(d);
        if first_of_each_key(es).contains(e) {
            if rest.contains(e) {
                let i = choose|i: int| 0 <= i < d.len() && d[i] == e && forall|j: int| 0 <= j < i ==> !repeats(#[trigger] d[j], e);
                assert(es[i] == e);
                assert forall|j: int| 0 <= j < i implies !repeats(#[trigger] es[j], e) by {
                    assert(es[j] == d[j]);
                }
            } else {
                assert(!keys.contains(crate::graph_correlation::performance::edge_key(last)));
                let r = rest.push(last);
                assert(first_of_each_key(es) == r);
                let idx = r.index_of(e);
                assert(r[idx] == e);
                assert(e == last);
                let i = es.len() - 1;
                assert forall|j: int| 0 <= j < i implies !repeats(#[trigger] es[j], e) by {
                    assert(es[j] == d[j]);
                    assert(keys[j] == crate::graph_correlation::performance::edge_key(d[j]));
                }
                assert(es[i] == e);
            }
        } else {
            assert forall|i: int| 0 <= i < es.len() && es[i] == e implies !(forall|j: int| 0 <= j < i ==> !repeats(#[trigger] es[j], e)) by {
                if i < d.len() {
                    assert(d[i] == e);
                    if forall|j: int| 0 <= j < i ==> !repeats(#[trigger] es[j], e) {
                        assert forall|j: int| 0 <= j < i implies !repeats(#[trigger] d[j], e) by {
                            assert(es[j] == d[j]);
                        }
                        assert(rest.contains(e));
                        if !keys.contains(crate::graph_correlation::performance::edge_key(last)) {
                            let r = rest.push(last);
                            let q = rest.index_of(e);
                            assert(r[q] == e);
                        }
                    }
                } else {
                    assert(e == last);
                    if forall|j: int| 0 <= j < i ==> !repeats(#[trigger] es[j], e) {
                        if keys.contains(crate::graph_correlation::performance::edge_key(last)) {
                            let j = keys.index_of(crate::graph_correlation::performance::edge_key(last));
                            assert(keys[j] == crate::graph_correlation::performance::edge_key(d[j]));
                            assert(es[j] == d[j]);
                            assert(repeats(es[j], e));
                        } else {
                            let r = rest.push(last);
                            assert(r[rest.len() as int] == e);
                        }
                    }
                }
            }
        }
    }
}

proof fn lemma_between_nodes(es: Seq<GraphEdge>, nodes: Seq<GraphNode>, e: GraphEdge)
    ensures
        edges_between_nodes(es, nodes).contains(e) <==> es.contains(e) && node_ids(nodes).contains(e.source@)
            && node_ids(nodes).contains(e.target@),
    decreases es.len(),
{
    if es.len() > 0 {
        let d = es.drop_last();
        lemma_between_nodes(d, nodes, e);
        let rest = edges_between_nodes(d, nodes);
        let last = es.last();
        if rest.contains(e) {
            let q = rest.index_of(e);
            assert(rest.push(last)[q] == e);
            let i = d.index_of(e);
            assert(es[i] == e);
        }
        if es.contains(e) && e != last {
            let i = es.index_of(e);
            assert(i < d.len());
            assert(d[i] == e);
        }
        if node_ids(nodes).contains(last.source@) && node_ids(nodes).contains(last.target@) {
            assert(rest.push(last)[rest.len() as int] == last);
        }
        if edges_between_nodes(es, nodes).contains(e) && !rest.contains(e) {
            let r = rest.push(last);
            let q = r.index_of(e);
            assert(r[q] == e);
        }
    }
}

/// Optimizing a graph keeps an edge exactly when both its ends are nodes of
/// the graph and no earlier edge repeats it (same source, same target, same
/// type): two edges that differ in their target are both kept.
pub proof fn law_optimize_keeps_all_but_repeats(edges: Seq<GraphEdge>, nodes: Seq<GraphNode>, e: GraphEdge)
    ensures
        edges_between_nodes(first_of_each_key(edges), nodes).contains(e) <==> {
            &&& node_ids(nodes).contains(e.source@)
            &&& node_ids(nodes).contains(e.target@)
            &&& exists|i: int| 0 <= i < edges.len() && edges[i] == e
                && forall|j: int| 0 <= j < i ==> !repeats(#[trigger] edges[j], e)
        },
{
    lemma_between_nodes(first_of_each_key(edges), nodes, e);
    lemma_first_of_each(edges, e);
}

/// The edges of a node are the edges that leave it or reach it, in edge
/// order: an edge `a -> b` is among the edges of `a` and of `b`.
pub proof fn law_node_edges_are_incident_edges(edges: Seq<GraphEdge>, id: Seq<char>)
    ensures
        edges_at(edges, id) == edges.filter(|e: GraphEdge| e.source@ == id || e.target@ == id),
        forall|i: int| 0 <= i < edges.len() && (edges[i].source@ == id || edges[i].target@ == id)
            ==> edges_at(edges, id).contains(#[trigger] edges[i]),
    decreases edges.len(),
{
    reveal(Seq::filter);
    if edges.len() > 0 {
        law_node_edges_are_incident_edges(edges.drop_last(), id);
    }
    let p = |e: GraphEdge| e.source@ == id || e.target@ == id;
    edges.filter_lemma(p);
}

/// The nodes found for a non-empty list of labels are exactly the nodes
/// that carry every label of the list.
pub proof fn law_nodes_with_all_labels(m: Map<u32, Set<u32>>, ls: Seq<u32>, v: u32)
    requires
        ls.len() > 0,
    ensures
        nodes_with_all(m, ls).contains(v) <==> forall|i: int| 0 <= i < ls.len() ==> nodes_of(m, #[trigger] ls[i]).contains(v),
    decreases ls.len(),
{
    if ls.len() > 1 {
        let d = ls.drop_last();
        law_nodes_with_all_labels(m, d, v);
        if forall|i: int| 0 <= i < ls.len() ==> nodes_of(m, #[trigger] ls[i]).contains(v) {
            assert forall|i: int| 0 <= i < d.len() implies nodes_of(m, #[trigger] d[i]).contains(v) by {
                assert(d[i] == ls[i]);
            }
            assert(nodes_of(m, ls[ls.len() - 1]).contains(v));
        }
        if nodes_with_all(m, ls).contains(v) {
            assert forall|i: int| 0 <= i < ls.len() implies nodes_of(m, #[trigger] ls[i]).contains(v) by {
                if i < d.len() {
                    assert(d[i] == ls[i]);
                }
            }
        }
    }
}

/// The adjacency list a graph cache builds for `s` is the targets of the
/// edges leaving `s`, in edge order (none when no edge leaves `s`).
pub proof fn law_adjacency_lists_targets(edges: Seq<GraphEdge>, s: Seq<char>)
    ensures
        (if adjacency_of(edges).contains_key(s) { adjacency_of(edges)[s] } else { Seq::empty() })
            == edges.filter(|e: GraphEdge| e.source@ == s).map_values(|e: GraphEdge| e.target@),
        adjacency_of(edges).contains_key(s) <==> exists|i: int| 0 <= i < edges.len() && (#[trigger] edges[i]).source@ == s,
    decreases edges.len(),
{
    reveal(Seq::filter);
    if edges.len() > 0 {
        let d = edges.drop_last();
        law_adjacency_lists_targets(d, s);
        let f = |e: GraphEdge| e.target@;
        let rest = d.filter(|e: GraphEdge| e.source@ == s);
        let x = edges.last();
        if x.source@ == s {
            assert(rest.push(x).map_values(f) =~= rest.map_values(f).push(x.target@));
            assert(edges[edges.len() - 1] == x);
        }
        if exists|i: int| 0 <= i < d.len() && (#[trigger] d[i]).source@ == s {
            let i = choose|i: int| 0 <= i < d.len() && (#[trigger] d[i]).source@ == s;
            assert(edges[i] == d[i]);
        }
        if exists|i: int| 0 <= i < edges.len() && (#[trigger] edges[i]).source@ == s {
            let i = choose|i: int| 0 <= i < edges.len() && (#[trigger] edges[i]).source@ == s;
            if i < d.len() {
                assert(d[i] == edges[i]);
            }
        }
    }
}

} // verus!
