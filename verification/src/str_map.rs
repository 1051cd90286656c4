//! String-keyed map kept in insertion order, the keyed store behind caches
//! and profiles.

use vstd::prelude::*;

verus! {

/// Map from strings to values; keys are distinct and kept in the order of
/// their first insertion.
#[derive(Debug)]
pub struct StrMap<V> {
    entries: Vec<(String, V)>,
}

/// Keys of an entry list.
pub open spec fn entry_keys<V>(s: Seq<(String, V)>) -> Seq<Seq<char>> {
    s.map_values(|e: (String, V)| e.0@)
}

impl<V> StrMap<V> {
    #[verifier::type_invariant]
    spec fn keys_distinct(self) -> bool {
        entry_keys(self.entries@).no_duplicates()
    }

    /// Keys in insertion order.
    pub closed spec fn key_seq(&self) -> Seq<Seq<char>> {
        entry_keys(self.entries@)
    }

    /// The map's contents.
    pub closed spec fn map(&self) -> Map<Seq<char>, V> {
        Map::new(
            |k: Seq<char>| entry_keys(self.entries@).contains(k),
            |k: Seq<char>| self.entries@[entry_keys(self.entries@).index_of(k)].1,
        )
    }

    /// An empty map.
    pub fn new() -> (m: Self)
        ensures
            m.map() == Map::<Seq<char>, V>::empty(),
            m.key_seq() == Seq::<Seq<char>>::empty(),
    {
        let m = StrMap { entries: Vec::new() };
        assert(m.map() =~= Map::<Seq<char>, V>::empty());
        m
    }

    /// Number of keys.
    pub fn len(&self) -> (n: usize)
        ensures
            n == self.map().dom().len(),
            n == self.key_seq().len(),
            self.key_seq().no_duplicates(),
            forall|k: Seq<char>| #[trigger] self.map().contains_key(k) <==> self.key_seq().contains(k),
            self.map().dom().finite(),
    {
        proof {
            use_type_invariant(self);
            let ks = self.key_seq();
            assert(self.map().dom() =~= ks.to_set());
            ks.unique_seq_to_set();
        }
        self.entries.len()
    }

    fn find(&self, k: &str) -> (r: Option<usize>)
        ensures
            match r {
                Some(i) => i < self.entries@.len() && self.entries@[i as int].0@ == k@
                    && entry_keys(self.entries@).index_of(k@) == i as int
                    && entry_keys(self.entries@).contains(k@),
                None => !entry_keys(self.entries@).contains(k@),
            },
    {
        proof {
            use_type_invariant(self);
        }
        let ghost ks = entry_keys(self.entries@);
        let key = String::from_str(k);
        let mut i: usize = 0;
        while i < self.entries.len()
            invariant
                key@ == k@,
                i <= self.entries@.len(),
                ks == entry_keys(self.entries@),
                ks.no_duplicates(),
                forall|j: int| 0 <= j < i ==> #[trigger] ks[j] != k@,
            decreases self.entries@.len() - i,
        {
            if self.entries[i].0.eq(&key) {
                proof {
                    assert(ks[i as int] == k@);
                    assert(ks.contains(k@));
                    let j = ks.index_of(k@);
                    assert(ks[j] == k@);
                }
                return Some(i);
            }
            i = i + 1;
        }
        None
    }

    /// Whether `k` is a key.
    pub fn contains_key(&self, k: &str) -> (b: bool)
        ensures
            b == self.map().contains_key(k@),
    {
        self.find(k).is_some()
    }

    /// The value at `k`.
    pub fn get(&self, k: &str) -> (r: Option<&V>)
        ensures
            match r {
                Some(v) => self.map().contains_key(k@) && self.map()[k@] == *v,
                None => !self.map().contains_key(k@),
            },
    {
        match self.find(k) {
            Some(i) => Some(&self.entries[i].1),
            None => None,
        }
    }

    /// Set the value at `k`; a new key goes last.
    pub fn insert(&mut self, k: String, v: V)
        ensures
            final(self).map() == old(self).map().insert(k@, v),
            old(self).map().contains_key(k@) ==> final(self).key_seq() == old(self).key_seq(),
            !old(self).map().contains_key(k@) ==> final(self).key_seq() == old(self).key_seq().push(k@),
    {
        proof {
            use_type_invariant(&*self);
        }
        let ghost ks = entry_keys(self.entries@);
        let ghost kv = k@;
        match self.find(k.as_str()) {
            Some(i) => {
                let ghost old_entries = self.entries@;
                let mut entries: Vec<(String, V)> = Vec::new();
                std::mem::swap(&mut entries, &mut self.entries);
                entries.set(i, (k, v));
                proof {
                    assert(entry_keys(entries@) =~= ks);
                }
                self.entries = entries;
                proof {
                    assert(entry_keys(self.entries@) =~= ks);
                    assert forall|q: Seq<char>| #[trigger] self.map().contains_key(q) == old(self).map().insert(kv, v).contains_key(q) by {}
                    assert forall|q: Seq<char>| self.map().contains_key(q) implies #[trigger] self.map()[q] == old(self).map().insert(kv, v)[q] by {
                        if q != kv {
                            let j = ks.index_of(q);
                            assert(ks[j] == q);
                            assert(j != i as int);
                        }
                    }
                    assert(self.map() =~= old(self).map().insert(kv, v));
                }
            },
            None => {
                let mut entries: Vec<(String, V)> = Vec::new();
                std::mem::swap(&mut entries, &mut self.entries);
                entries.push((k, v));
                proof {
                    let ks2 = entry_keys(entries@);
                    assert(ks2 =~= ks.push(kv));
                    assert forall|a: int, b: int| 0 <= a < b < ks2.len() implies ks2[a] != ks2[b] by {
                        if b == ks.len() {
                            assert(ks2[a] == ks[a]);
                            assert(ks.contains(ks[a]));
                        } else {
                            assert(ks2[a] == ks[a]);
                            assert(ks2[b] == ks[b]);
                        }
                    }
                }
                self.entries = entries;
                proof {
                    let ks2 = entry_keys(self.entries@);
                    assert(ks2 =~= ks.push(kv));
                    assert(ks2.no_duplicates()) by {
                        assert forall|a: int, b: int| 0 <= a < b < ks2.len() implies ks2[a] != ks2[b] by {
                            if b == ks.len() {
                                assert(ks2[a] == ks[a]);
                                assert(ks.contains(ks[a]));
                            } else {
                                assert(ks2[a] == ks[a]);
                                assert(ks2[b] == ks[b]);
                            }
                        }
                    }
                    assert(ks2[ks.len() as int] == kv);
                    assert forall|q: Seq<char>| #[trigger] self.map().contains_key(q) == old(self).map().insert(kv, v).contains_key(q) by {
                        if ks.contains(q) {
                            let j = ks.index_of(q);
                            assert(ks[j] == q);
                            assert(ks2[j] == q);
                        }
                        if ks2.contains(q) && q != kv {
                            let j = ks2.index_of(q);
                            assert(ks2[j] == q);
                            assert(j < ks.len());
                            assert(ks[j] == q);
                        }
                    }
                    assert forall|q: Seq<char>| self.map().contains_key(q) implies #[trigger] self.map()[q] == old(self).map().insert(kv, v)[q] by {
                        let j2 = ks2.index_of(q);
                        assert(ks2[j2] == q);
                        if q == kv {
                            assert(j2 == ks.len());
                        } else {
                            let j = ks.index_of(q);
                            assert(ks.contains(q)) by {
                                assert(j2 < ks.len());
                                assert(ks[j2] == q);
                            }
                            assert(ks[j] == q);
                            assert(ks2[j] == q);
                            assert(j == j2);
                        }
                    }
                    assert(self.map() =~= old(self).map().insert(kv, v));
                }
            },
        }
    }

    /// Remove `k`, returning its value; the other keys keep their order.
    pub fn remove(&mut self, k: &str) -> (r: Option<V>)
        ensures
            final(self).map() == old(self).map().remove(k@),
            match r {
                Some(v) => old(self).map().contains_key(k@) && old(self).map()[k@] == v,
                None => !old(self).map().contains_key(k@),
            },
    {
        proof {
            use_type_invariant(&*self);
        }
        let ghost ks = entry_keys(self.entries@);
        match self.find(k) {
            Some(i) => {
                let mut entries: Vec<(String, V)> = Vec::new();
                std::mem::swap(&mut entries, &mut self.entries);
                let ghost before = entries@;
                let (_key, value) = entries.remove(i);
                proof {
                    let ks2 = entry_keys(entries@);
                    assert(entries@ =~= before.subrange(0, i as int) + before.subrange(i as int + 1, before.len() as int));
                    assert forall|j: int| 0 <= j < ks2.len() implies #[trigger] ks2[j] == (if j < i { ks[j] } else { ks[j + 1] }) by {
                        if j < i {
                            assert(entries@[j] == before[j]);
                        } else {
                            assert(entries@[j] == before[j + 1]);
                        }
                    }
                    assert forall|a: int, b: int| 0 <= a < b < ks2.len() implies ks2[a] != ks2[b] by {
                        let a2 = if a < i { a } else { a + 1 };
                        let b2 = if b < i { b } else { b + 1 };
                        assert(ks2[a] == ks[a2]);
                        assert(ks2[b] == ks[b2]);
                    }
                }
                self.entries = entries;
                proof {
                    let ks2 = entry_keys(self.entries@);
                    assert forall|q: Seq<char>| #[trigger] self.map().contains_key(q) == old(self).map().remove(k@).contains_key(q) by {
                        if ks2.contains(q) {
                            let j = choose|j: int| 0 <= j < ks2.len() && ks2[j] == q;
                            let j2 = if j < i { j } else { j + 1 };
                            assert(ks[j2] == q);
                            assert(j2 != i as int);
                        }
                        if ks.contains(q) && q != k@ {
                            let j = ks.index_of(q);
                            assert(ks[j] == q);
                            assert(j != i as int);
                            let j2 = if j < i { j } else { j - 1 };
                            assert(ks2[j2] == q);
                        }
                    }
                    assert forall|q: Seq<char>| self.map().contains_key(q) implies #[trigger] self.map()[q] == old(self).map().remove(k@)[q] by {
                        let j = ks2.index_of(q);
                        assert(ks2[j] == q);
                        let j2 = if j < i { j } else { j + 1 };
                        assert(ks[j2] == q);
                        let jo = ks.index_of(q);
                        assert(ks.contains(q));
                        assert(ks[jo] == q);
                        assert(jo == j2);
                        assert(self.entries@[j] == before[j2]);
                    }
                    assert(self.map() =~= old(self).map().remove(k@));
                }
                Some(value)
            },
            None => {
                proof {
                    assert(self.map() =~= old(self).map().remove(k@));
                }
                None
            },
        }
    }

    /// Remove every key.
    pub fn clear(&mut self)
        ensures
            final(self).map() == Map::<Seq<char>, V>::empty(),
            final(self).key_seq() == Seq::<Seq<char>>::empty(),
    {
        self.entries = Vec::new();
        proof {
            assert(self.map() =~= Map::<Seq<char>, V>::empty());
            assert(self.key_seq() =~= Seq::<Seq<char>>::empty());
        }
    }

    /// The `i`-th key in insertion order and its value.
    pub fn entry_at(&self, i: usize) -> (r: (&String, &V))
        requires
            i < self.key_seq().len(),
        ensures
            r.0@ == self.key_seq()[i as int],
            self.map().contains_key(r.0@),
            self.map()[r.0@] == *r.1,
    {
        proof {
            use_type_invariant(self);
            let ks = entry_keys(self.entries@);
            assert(ks[i as int] == self.entries@[i as int].0@);
            assert(ks.contains(ks[i as int]));
            let j = ks.index_of(ks[i as int]);
            assert(ks[j] == ks[i as int]);
        }
        (&self.entries[i].0, &self.entries[i].1)
    }
}

impl<V: Clone> Clone for StrMap<V> {
    /// A copy with the same keys in the same order, each value cloned.
    fn clone(&self) -> (r: Self)
        ensures
            r.key_seq() == self.key_seq(),
            r.map().dom() == self.map().dom(),
    {
        proof {
            use_type_invariant(self);
        }
        let ghost ks = entry_keys(self.entries@);
        let mut out: Vec<(String, V)> = Vec::new();
        let mut i: usize = 0;
        while i < self.entries.len()
            invariant
                i <= self.entries@.len(),
                ks == entry_keys(self.entries@),
                ks.no_duplicates(),
                entry_keys(out@) =~= ks.take(i as int),
            decreases self.entries@.len() - i,
        {
            let k = self.entries[i].0.clone();
            let v = self.entries[i].1.clone();
            out.push((k, v));
            proof {
                assert(ks.take(i as int + 1) =~= ks.take(i as int).push(ks[i as int]));
            }
            i = i + 1;
        }
        proof {
            assert(ks.take(i as int) =~= ks);
        }
        let r = StrMap { entries: out };
        proof {
            assert(r.map().dom() =~= self.map().dom());
        }
        r
    }
}

impl StrMap<String> {
    /// A copy with the same keys in the same order and the same texts.
    pub fn copy(&self) -> (r: Self)
        ensures
            r.key_seq() == self.key_seq(),
            r.map() == self.map(),
    {
        proof {
            use_type_invariant(self);
        }
        let mut out: Vec<(String, String)> = Vec::new();
        let mut i: usize = 0;
        while i < self.entries.len()
            invariant
                i <= self.entries@.len(),
                out@ =~= self.entries@.take(i as int),
            decreases self.entries@.len() - i,
        {
            let k = self.entries[i].0.clone();
            let v = self.entries[i].1.clone();
            out.push((k, v));
            proof {
                assert(self.entries@.take(i as int + 1) =~= self.entries@.take(i as int).push(self.entries@[i as int]));
            }
            i = i + 1;
        }
        proof {
            assert(self.entries@.take(i as int) =~= self.entries@);
        }
        let r = StrMap { entries: out };
        proof {
            assert(r.map() =~= self.map());
        }
        r
    }
}

impl<T> StrMap<Vec<T>> {
    /// Append `item` to the list at `k`, starting an empty list for a new key.
    pub fn push_to(&mut self, k: String, item: T)
        ensures
            final(self).map().contains_key(k@),
            final(self).map()[k@]@ == if old(self).map().contains_key(k@) { old(self).map()[k@]@.push(item) } else { seq![item] },
            forall|q: Seq<char>| q != k@ ==> #[trigger] final(self).map().contains_key(q) == old(self).map().contains_key(q),
            forall|q: Seq<char>| q != k@ && old(self).map().contains_key(q) ==> #[trigger] final(self).map()[q] == old(self).map()[q],
            old(self).map().contains_key(k@) ==> final(self).key_seq() == old(self).key_seq(),
            !old(self).map().contains_key(k@) ==> final(self).key_seq() == old(self).key_seq().push(k@),
    {
        proof {
            use_type_invariant(&*self);
        }
        match self.find(k.as_str()) {
            Some(i) => {
                let mut entries: Vec<(String, Vec<T>)> = Vec::new();
                std::mem::swap(&mut entries, &mut self.entries);
                entries[i].1.push(item);
                proof {
                    assert(entry_keys(entries@) =~= entry_keys(old(self).entries@));
                }
                self.entries = entries;
                proof {
                    let ks = entry_keys(old(self).entries@);
                    assert(entry_keys(self.entries@) =~= ks);
                    assert forall|q: Seq<char>| q != k@ && old(self).map().contains_key(q) implies #[trigger] self.map()[q] == old(self).map()[q] by {
                        let j = ks.index_of(q);
                        assert(ks[j] == q);
                        assert(j != i as int);
                    }
                }
            },
            None => {
                let mut v: Vec<T> = Vec::new();
                v.push(item);
                self.insert(k, v);
            },
        }
    }
}

} // verus!
