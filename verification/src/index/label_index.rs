//! Label index: for each label, the set of nodes carrying it.

use super::bitmap::{
    bitmap_and_assign, bitmap_clone, bitmap_insert, bitmap_len, bitmap_new, bitmap_or_assign, bitmap_remove,
    bitmap_values,
};
use crate::error::Error;
use roaring::RoaringBitmap;
use vstd::prelude::*;

verus! {

/// Counts kept by a label index.
#[derive(Debug, Clone, Copy, Default)]
pub struct LabelIndexStats {
    /// Nodes added, less nodes removed (never below zero)
    pub total_nodes: u64,
    /// Number of labels seen
    pub label_count: u32,
}

/// The nodes of a label, none when the label is unknown.
pub open spec fn nodes_of(m: Map<u32, Set<u32>>, l: u32) -> Set<u32> {
    if m.contains_key(l) {
        m[l]
    } else {
        Set::empty()
    }
}

/// The label sets once node `v` is added under the labels `ls`.
pub open spec fn with_node(m: Map<u32, Set<u32>>, ls: Seq<u32>, v: u32) -> Map<u32, Set<u32>> {
    Map::new(
        |l: u32| m.contains_key(l) || ls.contains(l),
        |l: u32| if ls.contains(l) { nodes_of(m, l).insert(v) } else { m[l] },
    )
}

/// The label sets once node `v` is removed from every label.
pub open spec fn without_node(m: Map<u32, Set<u32>>, v: u32) -> Map<u32, Set<u32>> {
    m.map_values(|s: Set<u32>| s.remove(v))
}

/// The nodes carrying every label of `ls` (none for no labels).
pub open spec fn nodes_with_all(m: Map<u32, Set<u32>>, ls: Seq<u32>) -> Set<u32>
    decreases ls.len(),
{
    if ls.len() == 0 {
        Set::empty()
    } else if ls.len() == 1 {
        nodes_of(m, ls[0])
    } else {
        nodes_with_all(m, ls.drop_last()).intersect(nodes_of(m, ls.last()))
    }
}

/// The nodes carrying some label of `ls`.
pub open spec fn nodes_with_any(m: Map<u32, Set<u32>>, ls: Seq<u32>) -> Set<u32>
    decreases ls.len(),
{
    if ls.len() == 0 {
        Set::empty()
    } else {
        nodes_with_any(m, ls.drop_last()).union(nodes_of(m, ls.last()))
    }
}

/// Label bitmap index: label id to the set of node ids carrying it.
pub struct LabelIndex {
    labels: Vec<u32>,
    bitmaps: Vec<RoaringBitmap>,
    stats: LabelIndexStats,
}

impl LabelIndex {
    /// Each label once, with its bitmap.
    pub closed spec fn wf(&self) -> bool {
        &&& self.labels@.no_duplicates()
        &&& self.labels@.len() == self.bitmaps@.len()
    }

    /// The nodes of each label.
    pub closed spec fn label_map(&self) -> Map<u32, Set<u32>> {
        Map::new(
            |l: u32| self.labels@.contains(l),
            |l: u32| bitmap_values(self.bitmaps@[self.labels@.index_of(l)]),
        )
    }

    /// The labels in the order they were first seen.
    pub closed spec fn label_order(&self) -> Seq<u32> {
        self.labels@
    }

    /// The counts kept.
    pub closed spec fn stats_view(&self) -> LabelIndexStats {
        self.stats
    }

    /// An empty index.
    pub fn new() -> (r: Self)
        ensures
            r.wf(),
            r.label_map() == Map::<u32, Set<u32>>::empty(),
            r.label_order() == Seq::<u32>::empty(),
            r.stats_view().total_nodes == 0,
            r.stats_view().label_count == 0,
    {
        let r = LabelIndex { labels: Vec::new(), bitmaps: Vec::new(), stats: LabelIndexStats { total_nodes: 0, label_count: 0 } };
        proof {
            assert(r.label_map() =~= Map::<u32, Set<u32>>::empty());
        }
        r
    }

    fn position(&self, l: u32) -> (r: Option<usize>)
        requires
            self.wf(),
        ensures
            match r {
                Some(i) => i < self.labels@.len() && self.labels@[i as int] == l && self.labels@.contains(l)
                    && self.labels@.index_of(l) == i as int,
                None => !self.labels@.contains(l),
            },
    {
        let mut i: usize = 0;
        while i < self.labels.len()
            invariant
                self.wf(),
                i <= self.labels@.len(),
                forall|k: int| 0 <= k < i ==> self.labels@[k] != l,
            decreases self.labels@.len() - i,
        {
            if self.labels[i] == l {
                proof {
                    assert(self.labels@.contains(l));
                    let j = self.labels@.index_of(l);
                    assert(self.labels@[j] == l);
                }
                return Some(i);
            }
            i = i + 1;
        }
        None
    }

    /// Add node `node_id` (as a 32-bit id) under each of `label_ids`.
    pub fn add_node(&mut self, node_id: u64, label_ids: &[u32]) -> (r: Result<(), Error>)
        requires
            old(self).wf(),
            old(self).stats_view().total_nodes < u64::MAX,
        ensures
            r is Ok,
            final(self).wf(),
            final(self).label_map() == with_node(old(self).label_map(), label_ids@, node_id as u32),
            final(self).stats_view().total_nodes == old(self).stats_view().total_nodes + 1,
            final(self).stats_view().label_count == final(self).label_order().len() as u32,
    {
        let v = node_id as u32;
        let ghost m0 = self.label_map();
        let mut j: usize = 0;
        proof {
            assert(self.label_map() =~= with_node(m0, label_ids@.take(0), v));
        }
        while j < label_ids.len()
            invariant
                self.wf(),
                j <= label_ids@.len(),
                self.label_map() == with_node(m0, label_ids@.take(j as int), v),
                self.stats == old(self).stats,
            decreases label_ids@.len() - j,
        {
            let l = label_ids[j];
            let ghost before = self.label_map();
            match self.position(l) {
                Some(i) => {
                    let mut b = bitmap_clone(&self.bitmaps[i]);
                    bitmap_insert(&mut b, v);
                    self.bitmaps.set(i, b);
                    proof {
                        assert forall|x: u32| #[trigger] self.labels@.contains(x) implies self.label_map()[x] == (if x == l {
                            before[x].insert(v)
                        } else {
                            before[x]
                        }) by {
                            let k = self.labels@.index_of(x);
                            assert(self.labels@[k] == x);
                        }
                        assert(self.label_map() =~= before.insert(l, before[l].insert(v)));
                    }
                },
                None => {
                    let mut b = bitmap_new();
                    bitmap_insert(&mut b, v);
                    let ghost labels_before = self.labels@;
                    self.labels.push(l);
                    self.bitmaps.push(b);
                    proof {
                        assert forall|a: int, c: int| 0 <= a < c < self.labels@.len() implies self.labels@[a] != self.labels@[c] by {
                            if c == labels_before.len() {
                                assert(labels_before.contains(labels_before[a]));
                            }
                        }
                        assert forall|x: u32| #[trigger] self.labels@.contains(x) implies self.label_map()[x] == (if x == l {
                            Set::<u32>::empty().insert(v)
                        } else {
                            before[x]
                        }) by {
                            let k = self.labels@.index_of(x);
                            assert(self.labels@[k] == x);
                            if x != l {
                                assert(labels_before.contains(x)) by {
                                    assert(k < labels_before.len());
                                    assert(labels_before[k] == x);
                                }
                                let k0 = labels_before.index_of(x);
                                assert(labels_before[k0] == x);
                                assert(self.labels@[k0] == x);
                            } else {
                                assert(self.labels@[labels_before.len() as int] == l);
                            }
                        }
                        assert forall|x: u32| #[trigger] self.labels@.contains(x) <==> (labels_before.contains(x) || x == l) by {
                            assert(self.labels@[labels_before.len() as int] == l);
                            if labels_before.contains(x) {
                                let k = labels_before.index_of(x);
                                assert(self.labels@[k] == x);
                            }
                            if self.labels@.contains(x) && x != l {
                                let k = self.labels@.index_of(x);
                                assert(labels_before[k] == x);
                            }
                        }
                        assert(self.label_map() =~= before.insert(l, Set::<u32>::empty().insert(v)));
                    }
                },
            }
            proof {
                let t0 = label_ids@.take(j as int);
                let t1 = label_ids@.take(j as int + 1);
                assert forall|x: u32| #[trigger] t1.contains(x) <==> (t0.contains(x) || x == l) by {
                    assert(t1[j as int] == l);
                    if t0.contains(x) {
                        let q = choose|q: int| 0 <= q < t0.len() && t0[q] == x;
                        assert(t1[q] == x);
                    }
                    if t1.contains(x) && x != l {
                        let q = choose|q: int| 0 <= q < t1.len() && t1[q] == x;
                        assert(t0[q] == x);
                    }
                }
                assert(self.label_map() == before.insert(l, nodes_of(before, l).insert(v))) by {
                    if before.contains_key(l) {
                        assert(nodes_of(before, l) == before[l]);
                    } else {
                        assert(nodes_of(before, l) == Set::<u32>::empty());
                    }
                }
                let target = with_node(m0, t1, v);
                assert forall|x: u32| #[trigger] target.contains_key(x) implies target[x] == self.label_map()[x] by {
                    if x == l {
                        if before.contains_key(l) && t0.contains(l) {
                            assert(nodes_of(m0, l).insert(v).insert(v) =~= nodes_of(m0, l).insert(v));
                        }
                        if before.contains_key(l) && !t0.contains(l) {
                            assert(nodes_of(m0, l) == m0[l]);
                        }
                    }
                }
                assert forall|x: u32| #[trigger] self.label_map().contains_key(x) <==> target.contains_key(x) by {
                    if x == l {
                        assert(t1.contains(l));
                    }
                }
                assert(self.label_map() =~= target);
            }
            j = j + 1;
        }
        proof {
            assert(label_ids@.take(j as int) =~= label_ids@);
        }
        self.stats.total_nodes = self.stats.total_nodes + 1;
        self.stats.label_count = self.labels.len() as u32;
        Ok(())
    }

    /// Remove node `node_id` (as a 32-bit id) from every label.
    pub fn remove_node(&mut self, node_id: u64) -> (r: Result<(), Error>)
        requires
            old(self).wf(),
        ensures
            r is Ok,
            final(self).wf(),
            final(self).label_order() == old(self).label_order(),
            final(self).label_map() == without_node(old(self).label_map(), node_id as u32),
            final(self).stats_view().total_nodes == (if old(self).stats_view().total_nodes == 0 {
                0
            } else {
                old(self).stats_view().total_nodes - 1
            }),
            final(self).stats_view().label_count == final(self).label_order().len() as u32,
    {
        let v = node_id as u32;
        let ghost old_bitmaps = self.bitmaps@;
        let mut i: usize = 0;
        while i < self.bitmaps.len()
            invariant
                self.wf(),
                self.labels == old(self).labels,
                self.bitmaps@.len() == old_bitmaps.len(),
                old_bitmaps == old(self).bitmaps@,
                i <= self.bitmaps@.len(),
                forall|k: int| 0 <= k < i ==> bitmap_values(#[trigger] self.bitmaps@[k]) == bitmap_values(old_bitmaps[k]).remove(v),
                forall|k: int| i <= k < self.bitmaps@.len() ==> #[trigger] self.bitmaps@[k] == old_bitmaps[k],
                self.stats == old(self).stats,
            decreases self.bitmaps@.len() - i,
        {
            let mut b = bitmap_clone(&self.bitmaps[i]);
            bitmap_remove(&mut b, v);
            self.bitmaps.set(i, b);
            i = i + 1;
        }
        proof {
            assert forall|x: u32| #[trigger] self.label_map().contains_key(x) implies self.label_map()[x] == old(self).label_map()[x].remove(v) by {
                let k = self.labels@.index_of(x);
                assert(self.labels@[k] == x);
            }
            assert(self.label_map() =~= old(self).label_map().map_values(|s: Set<u32>| s.remove(v)));
        }
        self.stats.total_nodes = self.stats.total_nodes.saturating_sub(1);
        self.stats.label_count = self.labels.len() as u32;
        Ok(())
    }

    /// The nodes carrying `label_id` (none for an unknown label).
    pub fn get_nodes(&self, label_id: u32) -> (r: Result<RoaringBitmap, Error>)
        requires
            self.wf(),
        ensures
            r matches Ok(b) && bitmap_values(b) == nodes_of(self.label_map(), label_id),
    {
        match self.position(label_id) {
            Some(i) => Ok(bitmap_clone(&self.bitmaps[i])),
            None => Ok(bitmap_new()),
        }
    }

    /// The nodes carrying every label of `label_ids` (none for no labels).
    pub fn get_nodes_with_labels(&self, label_ids: &[u32]) -> (r: Result<RoaringBitmap, Error>)
        requires
            self.wf(),
        ensures
            r matches Ok(b) && bitmap_values(b) == nodes_with_all(self.label_map(), label_ids@),
    {
        if label_ids.len() == 0 {
            return Ok(bitmap_new());
        }
        let mut result = match self.get_nodes(label_ids[0]) {
            Ok(b) => b,
            Err(_) => bitmap_new(),
        };
        proof {
            assert(label_ids@.take(1) =~= seq![label_ids@[0]]);
        }
        let mut j: usize = 1;
        while j < label_ids.len()
            invariant
                self.wf(),
                1 <= j <= label_ids@.len(),
                bitmap_values(result) == nodes_with_all(self.label_map(), label_ids@.take(j as int)),
            decreases label_ids@.len() - j,
        {
            let l = label_ids[j];
            match self.position(l) {
                Some(i) => {
                    bitmap_and_assign(&mut result, &self.bitmaps[i]);
                },
                None => {
                    proof {
                        assert(label_ids@.take(j as int + 1).drop_last() =~= label_ids@.take(j as int));
                        assert(nodes_with_all(self.label_map(), label_ids@.take(j as int + 1)) =~= Set::<u32>::empty());
                        lemma_all_of_empty_stays(self.label_map(), label_ids@, j as int + 1);
                    }
                    return Ok(bitmap_new());
                },
            }
            proof {
                assert(label_ids@.take(j as int + 1).drop_last() =~= label_ids@.take(j as int));
                assert(label_ids@.take(j as int + 1).last() == l);
            }
            j = j + 1;
        }
        proof {
            assert(label_ids@.take(j as int) =~= label_ids@);
        }
        Ok(result)
    }

    /// The nodes carrying some label of `label_ids`.
    pub fn get_nodes_with_any_labels(&self, label_ids: &[u32]) -> (r: Result<RoaringBitmap, Error>)
        requires
            self.wf(),
        ensures
            r matches Ok(b) && bitmap_values(b) == nodes_with_any(self.label_map(), label_ids@),
    {
        let mut result = bitmap_new();
        let mut j: usize = 0;
        proof {
            assert(label_ids@.take(0) =~= Seq::<u32>::empty());
        }
        while j < label_ids.len()
            invariant
                self.wf(),
                j <= label_ids@.len(),
                bitmap_values(result) == nodes_with_any(self.label_map(), label_ids@.take(j as int)),
            decreases label_ids@.len() - j,
        {
            let l = label_ids[j];
            proof {
                assert(label_ids@.take(j as int + 1).drop_last() =~= label_ids@.take(j as int));
                assert(label_ids@.take(j as int + 1).last() == l);
            }
            match self.position(l) {
                Some(i) => {
                    bitmap_or_assign(&mut result, &self.bitmaps[i]);
                },
                None => {
                    proof {
                        assert(bitmap_values(result).union(Set::<u32>::empty()) =~= bitmap_values(result));
                    }
                },
            }
            j = j + 1;
        }
        proof {
            assert(label_ids@.take(j as int) =~= label_ids@);
        }
        Ok(result)
    }

    /// Number of nodes carrying `label_id`.
    pub fn estimate_cardinality(&self, label_id: u32) -> (r: u64)
        requires
            self.wf(),
        ensures
            r == nodes_of(self.label_map(), label_id).len(),
    {
        match self.position(label_id) {
            Some(i) => bitmap_len(&self.bitmaps[i]),
            None => 0,
        }
    }

    /// The counts kept.
    pub fn get_stats(&self) -> (r: LabelIndexStats)
        ensures
            r == self.stats_view(),
    {
        self.stats
    }

    /// Whether `label_id` has been seen.
    pub fn has_label(&self, label_id: u32) -> (r: bool)
        requires
            self.wf(),
        ensures
            r == self.label_map().contains_key(label_id),
    {
        self.position(label_id).is_some()
    }

    /// Every label seen, in the order first seen.
    pub fn get_all_labels(&self) -> (r: Vec<u32>)
        ensures
            r@ == self.label_order(),
    {
        self.labels.clone()
    }

    /// Forget every label and node.
    pub fn clear(&mut self) -> (r: Result<(), Error>)
        ensures
            r is Ok,
            final(self).wf(),
            final(self).label_map() == Map::<u32, Set<u32>>::empty(),
            final(self).label_order() == Seq::<u32>::empty(),
            final(self).stats_view().total_nodes == 0,
            final(self).stats_view().label_count == 0,
    {
        self.labels = Vec::new();
        self.bitmaps = Vec::new();
        self.stats = LabelIndexStats { total_nodes: 0, label_count: 0 };
        proof {
            assert(self.label_map() =~= Map::<u32, Set<u32>>::empty());
        }
        Ok(())
    }
}

proof fn lemma_all_of_empty_stays(m: Map<u32, Set<u32>>, ls: Seq<u32>, j: int)
    requires
        1 <= j <= ls.len(),
        nodes_with_all(m, ls.take(j)) == Set::<u32>::empty(),
    ensures
        nodes_with_all(m, ls) == Set::<u32>::empty(),
    decreases ls.len() - j,
{
    if j < ls.len() {
        assert(ls.take(j + 1).drop_last() =~= ls.take(j));
        assert(nodes_with_all(m, ls.take(j + 1)) =~= Set::<u32>::empty());
        lemma_all_of_empty_stays(m, ls, j + 1);
    } else {
        assert(ls.take(j) =~= ls);
    }
}

} // verus!
