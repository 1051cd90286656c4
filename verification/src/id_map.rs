//! Integer-keyed map kept in insertion order, the store behind graphs whose
//! elements are found by id.

use vstd::prelude::*;

verus! {

/// Map from integer ids to values; keys are distinct and kept in the order
/// of their first insertion.
pub struct IdMap<V> {
    entries: Vec<(u64, V)>,
}

/// Keys of an entry list.
pub open spec fn id_keys<V>(s: Seq<(u64, V)>) -> Seq<u64> {
    s.map_values(|e: (u64, V)| e.0)
}

impl<V> IdMap<V> {
    #[verifier::type_invariant]
    spec fn keys_distinct(self) -> bool {
        id_keys(self.entries@).no_duplicates()
    }

    /// Keys in insertion order.
    pub closed spec fn key_seq(&self) -> Seq<u64> {
        id_keys(self.entries@)
    }

    /// The map's contents.
    pub closed spec fn map(&self) -> Map<u64, V> {
        Map::new(
            |k: u64| id_keys(self.entries@).contains(k),
            |k: u64| self.entries@[id_keys(self.entries@).index_of(k)].1,
        )
    }

    /// The keys in order are exactly the keys of the map.
    pub proof fn lemma_keys_are_domain(&self)
        ensures
            forall|k: u64| #[trigger] self.map().contains_key(k) <==> self.key_seq().contains(k),
    {
    }

    /// An empty map.
    pub fn new() -> (m: Self)
        ensures
            m.map() == Map::<u64, V>::empty(),
            m.key_seq() == Seq::<u64>::empty(),
    {
        let m = IdMap { entries: Vec::new() };
        assert(m.map() =~= Map::<u64, V>::empty());
        m
    }

    /// Number of keys.
    pub fn len(&self) -> (n: usize)
        ensures
            n == self.map().dom().len(),
            n == self.key_seq().len(),
            self.key_seq().no_duplicates(),
            forall|k: u64| #[trigger] self.map().contains_key(k) <==> self.key_seq().contains(k),
            self.map().dom().finite(),
    {
        proof {
            use_type_invariant(self);
            let ks = self.key_seq();
            assert(self.map().dom() =~= ks.to_set());
            ks.unique_seq_to_set();
        }
        self.entries.len()
    }

    fn find(&self, k: u64) -> (r: Option<usize>)
        ensures
            match r {
                Some(i) => i < self.entries@.len() && self.entries@[i as int].0 == k
                    && id_keys(self.entries@).index_of(k) == i as int
                    && id_keys(self.entries@).contains(k),
                None => !id_keys(self.entries@).contains(k),
            },
    {
        proof {
            use_type_invariant(self);
        }
        let ghost ks = id_keys(self.entries@);
        let mut i: usize = 0;
        while i < self.entries.len()
            invariant
                i <= self.entries@.len(),
                ks == id_keys(self.entries@),
                ks.no_duplicates(),
                forall|j: int| 0 <= j < i ==> #[trigger] ks[j] != k,
            decreases self.entries@.len() - i,
        {
            if self.entries[i].0 == k {
                proof {
                    assert(ks[i as int] == k);
                    assert(ks.contains(k));
                    let j = ks.index_of(k);
                    assert(ks[j] == k);
                }
                return Some(i);
            }
            i = i + 1;
        }
        None
    }

    /// Whether `k` is a key.
    pub fn contains_key(&self, k: u64) -> (b: bool)
        ensures
            b == self.map().contains_key(k),
    {
        self.find(k).is_some()
    }

    /// The value at `k`.
    pub fn get(&self, k: u64) -> (r: Option<&V>)
        ensures
            match r {
                Some(v) => self.map().contains_key(k) && self.map()[k] == *v,
                None => !self.map().contains_key(k),
            },
    {
        match self.find(k) {
            Some(i) => Some(&self.entries[i].1),
            None => None,
        }
    }

    /// Set the value at `k`; a new key goes last.
    pub fn insert(&mut self, k: u64, v: V)
        ensures
            final(self).map() == old(self).map().insert(k, v),
            old(self).map().contains_key(k) ==> final(self).key_seq() == old(self).key_seq(),
            !old(self).map().contains_key(k) ==> final(self).key_seq() == old(self).key_seq().push(k),
    {
        proof {
            use_type_invariant(&*self);
        }
        let ghost ks = id_keys(self.entries@);
        let ghost kv = k;
        match self.find(k) {
            Some(i) => {
                let ghost old_entries = self.entries@;
                let mut entries: Vec<(u64, V)> = Vec::new();
                std::mem::swap(&mut entries, &mut self.entries);
                entries.set(i, (k, v));
                proof {
                    assert(id_keys(entries@) =~= ks);
                }
                self.entries = entries;
                proof {
                    assert(id_keys(self.entries@) =~= ks);
                    assert forall|q: u64| #[trigger] self.map().contains_key(q) == old(self).map().insert(kv, v).contains_key(q) by {}
                    assert forall|q: u64| self.map().contains_key(q) implies #[trigger] self.map()[q] == old(self).map().insert(kv, v)[q] by {
                        if q != kv {
                            let j = ks.index_of(q);
                            assert(ks[j] == q);
                            assert(j != i as int);
                        }
                    }
                    assert(self.map() =~= old(self).map().insert(kv, v));
                }
            },
            None => {
                let mut entries: Vec<(u64, V)> = Vec::new();
                std::mem::swap(&mut entries, &mut self.entries);
                entries.push((k, v));
                proof {
                    let ks2 = id_keys(entries@);
                    assert(ks2 =~= ks.push(kv));
                    assert forall|a: int, b: int| 0 <= a < b < ks2.len() implies ks2[a] != ks2[b] by {
                        if b == ks.len() {
                            assert(ks2[a] == ks[a]);
                            assert(ks.contains(ks[a]));
                        } else {
                            assert(ks2[a] == ks[a]);
                            assert(ks2[b] == ks[b]);
                        }
                    }
                }
                self.entries = entries;
                proof {
                    let ks2 = id_keys(self.entries@);
                    assert(ks2 =~= ks.push(kv));
                    assert(ks2.no_duplicates()) by {
                        assert forall|a: int, b: int| 0 <= a < b < ks2.len() implies ks2[a] != ks2[b] by {
                            if b == ks.len() {
                                assert(ks2[a] == ks[a]);
                                assert(ks.contains(ks[a]));
                            } else {
                                assert(ks2[a] == ks[a]);
                                assert(ks2[b] == ks[b]);
                            }
                        }
                    }
                    assert(ks2[ks.len() as int] == kv);
                    assert forall|q: u64| #[trigger] self.map().contains_key(q) == old(self).map().insert(kv, v).contains_key(q) by {
                        if ks.contains(q) {
                            let j = ks.index_of(q);
                            assert(ks[j] == q);
                            assert(ks2[j] == q);
                        }
                        if ks2.contains(q) && q != kv {
                            let j = ks2.index_of(q);
                            assert(ks2[j] == q);
                            assert(j < ks.len());
                            assert(ks[j] == q);
                        }
                    }
                    assert forall|q: u64| self.map().contains_key(q) implies #[trigger] self.map()[q] == old(self).map().insert(kv, v)[q] by {
                        let j2 = ks2.index_of(q);
                        assert(ks2[j2] == q);
                        if q == kv {
                            assert(j2 == ks.len());
                        } else {
                            let j = ks.index_of(q);
                            assert(ks.contains(q)) by {
                                assert(j2 < ks.len());
                                assert(ks[j2] == q);
                            }
                            assert(ks[j] == q);
                            assert(ks2[j] == q);
                            assert(j == j2);
                        }
                    }
                    assert(self.map() =~= old(self).map().insert(kv, v));
                }
            },
        }
    }

    /// Remove `k`, returning its value; the other keys keep their order.
    pub fn remove(&mut self, k: u64) -> (r: Option<V>)
        ensures
            final(self).map() == old(self).map().remove(k),
            old(self).key_seq().contains(k) ==> final(self).key_seq() == old(self).key_seq().remove(
                old(self).key_seq().index_of(k),
            ),
            !old(self).key_seq().contains(k) ==> final(self).key_seq() == old(self).key_seq(),
            match r {
                Some(v) => old(self).map().contains_key(k) && old(self).map()[k] == v,
                None => !old(self).map().contains_key(k),
            },
    {
        proof {
            use_type_invariant(&*self);
        }
        let ghost ks = id_keys(self.entries@);
        match self.find(k) {
            Some(i) => {
                let mut entries: Vec<(u64, V)> = Vec::new();
                std::mem::swap(&mut entries, &mut self.entries);
                let ghost before = entries@;
                let (_key, value) = entries.remove(i);
                proof {
                    let ks2 = id_keys(entries@);
                    assert(entries@ =~= before.subrange(0, i as int) + before.subrange(i as int + 1, before.len() as int));
                    assert forall|j: int| 0 <= j < ks2.len() implies #[trigger] ks2[j] == (if j < i { ks[j] } else { ks[j + 1] }) by {
                        if j < i {
                            assert(entries@[j] == before[j]);
                        } else {
                            assert(entries@[j] == before[j + 1]);
                        }
                    }
                    assert forall|a: int, b: int| 0 <= a < b < ks2.len() implies ks2[a] != ks2[b] by {
                        let a2 = if a < i { a } else { a + 1 };
                        let b2 = if b < i { b } else { b + 1 };
                        assert(ks2[a] == ks[a2]);
                        assert(ks2[b] == ks[b2]);
                    }
                }
                self.entries = entries;
                proof {
                    let ks2 = id_keys(self.entries@);
                    assert forall|q: u64| #[trigger] self.map().contains_key(q) == old(self).map().remove(k).contains_key(q) by {
                        if ks2.contains(q) {
                            let j = choose|j: int| 0 <= j < ks2.len() && ks2[j] == q;
                            let j2 = if j < i { j } else { j + 1 };
                            assert(ks[j2] == q);
                            assert(j2 != i as int);
                        }
                        if ks.contains(q) && q != k {
                            let j = ks.index_of(q);
                            assert(ks[j] == q);
                            assert(j != i as int);
                            let j2 = if j < i { j } else { j - 1 };
                            assert(ks2[j2] == q);
                        }
                    }
                    assert forall|q: u64| self.map().contains_key(q) implies #[trigger] self.map()[q] == old(self).map().remove(k)[q] by {
                        let j = ks2.index_of(q);
                        assert(ks2[j] == q);
                        let j2 = if j < i { j } else { j + 1 };
                        assert(ks[j2] == q);
                        let jo = ks.index_of(q);
                        assert(ks.contains(q));
                        assert(ks[jo] == q);
                        assert(jo == j2);
                        assert(self.entries@[j] == before[j2]);
                    }
                    assert(self.map() =~= old(self).map().remove(k));
                    assert(ks2 =~= ks.remove(i as int));
                }
                Some(value)
            },
            None => {
                proof {
                    assert(self.map() =~= old(self).map().remove(k));
                }
                None
            },
        }
    }

    /// Remove every key.
    pub fn clear(&mut self)
        ensures
            final(self).map() == Map::<u64, V>::empty(),
            final(self).key_seq() == Seq::<u64>::empty(),
    {
        self.entries = Vec::new();
        proof {
            assert(self.map() =~= Map::<u64, V>::empty());
            assert(self.key_seq() =~= Seq::<u64>::empty());
        }
    }

    /// The `i`-th key in insertion order and its value.
    pub fn entry_at(&self, i: usize) -> (r: (u64, &V))
        requires
            i < self.key_seq().len(),
        ensures
            r.0 == self.key_seq()[i as int],
            self.map().contains_key(r.0),
            self.map()[r.0] == *r.1,
    {
        proof {
            use_type_invariant(self);
            let ks = id_keys(self.entries@);
            assert(ks[i as int] == self.entries@[i as int].0);
            assert(ks.contains(ks[i as int]));
            let j = ks.index_of(ks[i as int]);
            assert(ks[j] == ks[i as int]);
        }
        (self.entries[i].0, &self.entries[i].1)
    }
}

impl<T> IdMap<Vec<T>> {
    /// Append `item` to the list at `k`, starting an empty list for a new key.
    pub fn push_to(&mut self, k: u64, item: T)
        ensures
            final(self).map().contains_key(k),
            final(self).map()[k]@ == if old(self).map().contains_key(k) { old(self).map()[k]@.push(item) } else { seq![item] },
            forall|q: u64| q != k ==> #[trigger] final(self).map().contains_key(q) == old(self).map().contains_key(q),
            forall|q: u64| q != k && old(self).map().contains_key(q) ==> #[trigger] final(self).map()[q] == old(self).map()[q],
            old(self).map().contains_key(k) ==> final(self).key_seq() == old(self).key_seq(),
            !old(self).map().contains_key(k) ==> final(self).key_seq() == old(self).key_seq().push(k),
    {
        proof {
            use_type_invariant(&*self);
        }
        match self.find(k) {
            Some(i) => {
                let mut entries: Vec<(u64, Vec<T>)> = Vec::new();
                std::mem::swap(&mut entries, &mut self.entries);
                entries[i].1.push(item);
                proof {
                    assert(id_keys(entries@) =~= id_keys(old(self).entries@));
                }
                self.entries = entries;
                proof {
                    let ks = id_keys(old(self).entries@);
                    assert(id_keys(self.entries@) =~= ks);
                    assert forall|q: u64| q != k && old(self).map().contains_key(q) implies #[trigger] self.map()[q] == old(self).map()[q] by {
                        let j = ks.index_of(q);
                        assert(ks[j] == q);
                        assert(j != i as int);
                    }
                }
            },
            None => {
                let mut v: Vec<T> = Vec::new();
                v.push(item);
                self.insert(k, v);
            },
        }
    }
}

} // verus!
