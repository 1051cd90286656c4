//! A cache split into one partition per NUMA node, and a prefetcher that
//! keeps the recent access times of each key.

use super::numa::NumaConfig;
use crate::str_map::StrMap;
use crate::time::unix_seconds;
use vstd::prelude::*;

verus! {

/// Cache statistics
#[derive(Debug, Clone)]
pub struct CacheStats {
    /// Total number of entries across all partitions
    pub total_size: usize,
    /// Size of each partition
    pub partition_sizes: Vec<usize>,
    /// Number of partitions
    pub num_partitions: usize,
}

/// Prefetcher statistics
#[derive(Debug, Clone)]
pub struct PrefetcherStats {
    /// Number of keys being tracked
    pub tracked_keys: usize,
    /// Total number of accesses recorded
    pub total_accesses: usize,
}

/// Sum of the partition sizes.
pub open spec fn size_sum(sizes: Seq<usize>) -> int
    decreases sizes.len(),
{
    if sizes.len() == 0 {
        0
    } else {
        size_sum(sizes.drop_last()) + sizes.last()
    }
}

impl CacheStats {
    /// Statistics of partitions with the given sizes: their total, each
    /// size, and how many there are.
    pub fn from_partition_sizes(partition_sizes: Vec<usize>) -> (s: CacheStats)
        requires
            size_sum(partition_sizes@) <= usize::MAX,
        ensures
            s.total_size == size_sum(partition_sizes@),
            s.partition_sizes@ == partition_sizes@,
            s.num_partitions == partition_sizes@.len(),
    {
        let mut total: usize = 0;
        let mut i: usize = 0;
        while i < partition_sizes.len()
            invariant
                i <= partition_sizes@.len(),
                size_sum(partition_sizes@) <= usize::MAX,
                total == size_sum(partition_sizes@.take(i as int)),
            decreases partition_sizes@.len() - i,
        {
            proof {
                assert(partition_sizes@.take(i as int + 1).drop_last() =~= partition_sizes@.take(i as int));
                lemma_size_sum_prefix(partition_sizes@, i as int + 1);
            }
            total = total + partition_sizes[i];
            i = i + 1;
        }
        proof {
            assert(partition_sizes@.take(i as int) =~= partition_sizes@);
        }
        let n = partition_sizes.len();
        CacheStats { total_size: total, partition_sizes, num_partitions: n }
    }
}

proof fn lemma_size_sum_prefix(sizes: Seq<usize>, j: int)
    requires
        0 <= j <= sizes.len(),
    ensures
        size_sum(sizes.take(j)) <= size_sum(sizes),
    decreases sizes.len() - j,
{
    if j < sizes.len() {
        lemma_size_sum_prefix(sizes, j + 1);
        assert(sizes.take(j + 1).drop_last() =~= sizes.take(j));
    } else {
        assert(sizes.take(j) =~= sizes);
    }
}

} // verus!

verus! {

/// The hash of a string key under `DefaultHasher::new()`.
pub uninterp spec fn key_hash(s: Seq<char>) -> u64;

/// Hashes `key` with a `DefaultHasher` made by `new` (`BuildHasher::hash_one`
/// on `BuildHasherDefault<DefaultHasher>`). Its keys are fixed, so the hash
/// is a function of the key, named `key_hash`.
#[verifier::external_body]
pub(crate) fn hash_key(key: &String) -> (h: u64)
    ensures
        h == key_hash(key@),
{
    std::hash::BuildHasher::hash_one(&std::hash::BuildHasherDefault::<std::collections::hash_map::DefaultHasher>::default(), key)
}

/// The partition a key belongs to among `n`.
pub open spec fn partition_of(k: Seq<char>, n: usize) -> int {
    ((key_hash(k) as usize) % n) as int
}

/// A string-keyed cache split into partitions, one per NUMA node; a key
/// lives in the partition its hash picks.
pub struct NumaPartitionedCache<V> {
    partitions: Vec<StrMap<V>>,
    config: NumaConfig,
    num_partitions: usize,
}

impl<V> NumaPartitionedCache<V> {
    /// Every partition holds only the keys that hash to it.
    pub closed spec fn wf(&self) -> bool {
        &&& self.partitions@.len() == self.num_partitions
        &&& forall|p: int, k: Seq<char>|
            0 <= p < self.partitions@.len() && #[trigger] self.partitions@[p].map().contains_key(k) ==> partition_of(
                k,
                self.num_partitions,
            ) == p
    }

    /// Number of partitions.
    pub closed spec fn partition_count(&self) -> nat {
        self.num_partitions as nat
    }

    /// The cached entries.
    pub closed spec fn entries(&self) -> Map<Seq<char>, V> {
        Map::new(
            |k: Seq<char>| self.num_partitions > 0 && self.partitions@[partition_of(k, self.num_partitions)].map().contains_key(k),
            |k: Seq<char>| self.partitions@[partition_of(k, self.num_partitions)].map()[k],
        )
    }

    /// A cache with one empty partition per NUMA node of `config`.
    pub fn new(config: NumaConfig) -> (c: Self)
        ensures
            c.wf(),
            c.partition_count() == config.num_nodes,
            c.entries() == Map::<Seq<char>, V>::empty(),
    {
        let num_partitions = config.num_nodes as usize;
        let mut partitions: Vec<StrMap<V>> = Vec::new();
        let mut i: usize = 0;
        while i < num_partitions
            invariant
                i <= num_partitions,
                partitions@.len() == i,
                forall|p: int| 0 <= p < i ==> #[trigger] partitions@[p].map() == Map::<Seq<char>, V>::empty(),
            decreases num_partitions - i,
        {
            partitions.push(StrMap::new());
            i = i + 1;
        }
        let c = NumaPartitionedCache { partitions, config, num_partitions };
        proof {
            assert(c.entries() =~= Map::<Seq<char>, V>::empty());
        }
        c
    }

    fn partition_index(&self, key: &String) -> (i: usize)
        requires
            self.num_partitions > 0,
        ensures
            i == partition_of(key@, self.num_partitions),
            i < self.num_partitions,
    {
        (hash_key(key) as usize) % self.num_partitions
    }

    /// The value cached under `key`, cloned.
    pub fn get(&self, key: &String) -> (r: Option<V>)
        where V: Clone,
        requires
            self.wf(),
            self.partition_count() > 0,
        ensures
            match r {
                Some(v) => self.entries().contains_key(key@) && cloned(self.entries()[key@], v),
                None => !self.entries().contains_key(key@),
            },
    {
        let i = self.partition_index(key);
        match self.partitions[i].get(key.as_str()) {
            Some(v) => Some(v.clone()),
            None => None,
        }
    }

    /// Cache `value` under `key`, returning the value it replaces.
    pub fn insert(&mut self, key: String, value: V) -> (r: Option<V>)
        requires
            old(self).wf(),
            old(self).partition_count() > 0,
        ensures
            final(self).wf(),
            final(self).partition_count() == old(self).partition_count(),
            final(self).entries() == old(self).entries().insert(key@, value),
            match r {
                Some(v) => old(self).entries().contains_key(key@) && old(self).entries()[key@] == v,
                None => !old(self).entries().contains_key(key@),
            },
    {
        let i = self.partition_index(&key);
        let ghost n = self.num_partitions;
        let ghost k = key@;
        let mut parts: Vec<StrMap<V>> = Vec::new();
        std::mem::swap(&mut parts, &mut self.partitions);
        let ghost before = parts@;
        let mut part = parts.remove(i);
        let previous = part.remove(key.as_str());
        part.insert(key, value);
        parts.insert(i, part);
        proof {
            assert forall|p: int| 0 <= p < parts@.len() && p != i implies #[trigger] parts@[p] == before[p] by {
                if p < i {
                } else {
                }
            }
        }
        std::mem::swap(&mut parts, &mut self.partitions);
        proof {
            assert(self.partitions@[i as int].map() =~= before[i as int].map().insert(k, value));
            assert forall|p: int, q: Seq<char>|
                0 <= p < self.partitions@.len() && #[trigger] self.partitions@[p].map().contains_key(q) implies partition_of(
                q,
                n,
            ) == p by {
                if p != i {
                    assert(self.partitions@[p] == before[p]);
                } else if q != k {
                    assert(before[p].map().contains_key(q));
                }
            }
            assert forall|q: Seq<char>| #[trigger] self.entries().contains_key(q) == old(self).entries().insert(k, value).contains_key(q) by {
                if partition_of(q, n) != i {
                    assert(self.partitions@[partition_of(q, n)] == before[partition_of(q, n)]);
                }
            }
            assert forall|q: Seq<char>| #[trigger] self.entries().contains_key(q) implies self.entries()[q] == old(self).entries().insert(k, value)[q] by {
                if partition_of(q, n) != i {
                    assert(self.partitions@[partition_of(q, n)] == before[partition_of(q, n)]);
                }
            }
            assert(self.entries() =~= old(self).entries().insert(k, value));
        }
        previous
    }

    /// Remove `key`, returning its value.
    pub fn remove(&mut self, key: &String) -> (r: Option<V>)
        requires
            old(self).wf(),
            old(self).partition_count() > 0,
        ensures
            final(self).wf(),
            final(self).partition_count() == old(self).partition_count(),
            final(self).entries() == old(self).entries().remove(key@),
            match r {
                Some(v) => old(self).entries().contains_key(key@) && old(self).entries()[key@] == v,
                None => !old(self).entries().contains_key(key@),
            },
    {
        let i = self.partition_index(key);
        let ghost n = self.num_partitions;
        let ghost k = key@;
        let mut parts: Vec<StrMap<V>> = Vec::new();
        std::mem::swap(&mut parts, &mut self.partitions);
        let ghost before = parts@;
        let mut part = parts.remove(i);
        let previous = part.remove(key.as_str());
        parts.insert(i, part);
        proof {
            assert forall|p: int| 0 <= p < parts@.len() && p != i implies #[trigger] parts@[p] == before[p] by {
                if p < i {
                } else {
                }
            }
        }
        std::mem::swap(&mut parts, &mut self.partitions);
        proof {
            assert(self.partitions@[i as int].map() =~= before[i as int].map().remove(k));
            assert forall|p: int, q: Seq<char>|
                0 <= p < self.partitions@.len() && #[trigger] self.partitions@[p].map().contains_key(q) implies partition_of(
                q,
                n,
            ) == p by {
                if p != i {
                    assert(self.partitions@[p] == before[p]);
                } else {
                    assert(before[p].map().contains_key(q));
                }
            }
            assert forall|q: Seq<char>| #[trigger] self.entries().contains_key(q) == old(self).entries().remove(k).contains_key(q) by {
                if partition_of(q, n) != i {
                    assert(self.partitions@[partition_of(q, n)] == before[partition_of(q, n)]);
                }
            }
            assert forall|q: Seq<char>| #[trigger] self.entries().contains_key(q) implies self.entries()[q] == old(self).entries().remove(k)[q] by {
                if partition_of(q, n) != i {
                    assert(self.partitions@[partition_of(q, n)] == before[partition_of(q, n)]);
                }
            }
            assert(self.entries() =~= old(self).entries().remove(k));
        }
        previous
    }

    /// The size of each partition.
    pub closed spec fn sizes(&self) -> Seq<usize> {
        self.partitions@.map_values(|m: StrMap<V>| m.map().dom().len() as usize)
    }

    /// Statistics: the size of each partition and their total.
    pub fn stats(&self) -> (s: CacheStats)
        requires
            self.wf(),
            size_sum(self.sizes()) <= usize::MAX,
        ensures
            s.partition_sizes@ == self.sizes(),
            s.total_size == size_sum(self.sizes()),
            s.num_partitions == self.partition_count(),
    {
        let mut sizes: Vec<usize> = Vec::new();
        let mut i: usize = 0;
        while i < self.partitions.len()
            invariant
                i <= self.partitions@.len(),
                sizes@ =~= self.sizes().take(i as int),
            decreases self.partitions@.len() - i,
        {
            let n = self.partitions[i].len();
            sizes.push(n);
            proof {
                assert(self.sizes().take(i as int + 1) =~= self.sizes().take(i as int).push(n));
            }
            i = i + 1;
        }
        proof {
            assert(self.sizes().take(i as int) =~= self.sizes());
        }
        CacheStats::from_partition_sizes(sizes)
    }

    /// Empty every partition.
    pub fn clear(&mut self)
        requires
            old(self).wf(),
        ensures
            final(self).wf(),
            final(self).partition_count() == old(self).partition_count(),
            final(self).entries() == Map::<Seq<char>, V>::empty(),
    {
        let n = self.partitions.len();
        let mut parts: Vec<StrMap<V>> = Vec::new();
        let mut i: usize = 0;
        while i < n
            invariant
                i <= n,
                parts@.len() == i,
                forall|p: int| 0 <= p < i ==> #[trigger] parts@[p].map() == Map::<Seq<char>, V>::empty(),
            decreases n - i,
        {
            parts.push(StrMap::new());
            i = i + 1;
        }
        self.partitions = parts;
        proof {
            assert(self.entries() =~= Map::<Seq<char>, V>::empty());
        }
    }
}

} // verus!

verus! {

/// A key's access times once `t` is recorded: the oldest time is dropped
/// when there are more than `max`.
pub open spec fn with_access(times: Seq<u64>, t: u64, max: nat) -> Seq<u64> {
    let all = times.push(t);
    if all.len() > max {
        all.subrange(1, all.len() as int)
    } else {
        all
    }
}

/// The access times of `k`, none when it is not tracked.
pub open spec fn times_of(m: Map<Seq<char>, Seq<u64>>, k: Seq<char>) -> Seq<u64> {
    if m.contains_key(k) {
        m[k]
    } else {
        Seq::empty()
    }
}

/// Total number of recorded accesses in these histories.
pub open spec fn access_total(hs: Seq<Seq<u64>>) -> nat
    decreases hs.len(),
{
    if hs.len() == 0 {
        0
    } else {
        access_total(hs.drop_last()) + hs.last().len()
    }
}

fn copy_times(v: &Vec<u64>) -> (r: Vec<u64>)
    ensures
        r@ == v@,
{
    let mut out: Vec<u64> = Vec::new();
    let mut i: usize = 0;
    while i < v.len()
        invariant
            i <= v@.len(),
            out@ =~= v@.take(i as int),
        decreases v@.len() - i,
    {
        out.push(v[i]);
        proof {
            assert(v@.take(i as int + 1) =~= v@.take(i as int).push(v@[i as int]));
        }
        i = i + 1;
    }
    proof {
        assert(v@.take(i as int) =~= v@);
    }
    out
}

/// Keeps, for each key, the times of its latest accesses.
pub struct PredictivePrefetcher {
    access_patterns: StrMap<Vec<u64>>,
    max_history: usize,
}

impl PredictivePrefetcher {
    /// The access times of each tracked key, oldest first.
    pub closed spec fn patterns(&self) -> Map<Seq<char>, Seq<u64>> {
        self.access_patterns.map().map_values(|v: Vec<u64>| v@)
    }

    /// Tracked keys in the order they were first accessed.
    pub closed spec fn key_order(&self) -> Seq<Seq<char>> {
        self.access_patterns.key_seq()
    }

    /// How many access times are kept per key.
    pub closed spec fn history_limit(&self) -> nat {
        self.max_history as nat
    }

    /// The histories in key order.
    pub open spec fn histories(&self) -> Seq<Seq<u64>> {
        self.key_order().map_values(|k: Seq<char>| self.patterns()[k])
    }

    /// A prefetcher that keeps up to `max_history` access times per key.
    pub fn new(max_history: usize) -> (p: Self)
        ensures
            p.patterns() == Map::<Seq<char>, Seq<u64>>::empty(),
            p.key_order() == Seq::<Seq<char>>::empty(),
            p.history_limit() == max_history,
    {
        let p = PredictivePrefetcher { access_patterns: StrMap::new(), max_history };
        proof {
            assert(p.patterns() =~= Map::<Seq<char>, Seq<u64>>::empty());
        }
        p
    }

    /// Record an access to `key` at the present time (seconds since the
    /// Unix epoch; 0 for a clock set before the epoch).
    pub fn record_access(&mut self, key: String)
        ensures
            final(self).history_limit() == old(self).history_limit(),
            exists|t: u64| final(self).patterns() == old(self).patterns().insert(
                key@,
                #[trigger] with_access(
                    times_of(old(self).patterns(), key@),
                    t,
                    old(self).history_limit(),
                ),
            ),
            old(self).patterns().contains_key(key@) ==> final(self).key_order() == old(self).key_order(),
            !old(self).patterns().contains_key(key@) ==> final(self).key_order() == old(self).key_order().push(key@),
    {
        let now = match unix_seconds() {
            Some(s) => s,
            None => 0,
        };
        let ghost k = key@;
        let ghost before = self.access_patterns.map();
        let mut times = match self.access_patterns.get(key.as_str()) {
            Some(v) => copy_times(v),
            None => Vec::new(),
        };
        let ghost prior = times@;
        proof {
            assert(prior == times_of(old(self).patterns(), k));
        }
        times.push(now);
        if times.len() > self.max_history {
            times.remove(0);
        }
        proof {
            assert(times@ =~= with_access(prior, now, self.max_history as nat));
        }
        self.access_patterns.insert(key, times);
        proof {
            assert(self.patterns() =~= old(self).patterns().insert(
                k,
                with_access(times_of(old(self).patterns(), k), now, old(self).history_limit()),
            ));
        }
    }

    /// Keys to fetch along with `key`: up to five other tracked keys, in the
    /// order they were first accessed; none for a key never accessed.
    pub fn predict_next(&self, key: &String) -> (r: Vec<String>)
        ensures
            r@.map_values(|s: String| s@) == if self.patterns().contains_key(key@) {
                let others = self.key_order().filter(|k: Seq<char>| k != key@);
                if others.len() > 5 { others.take(5) } else { others }
            } else {
                Seq::empty()
            },
    {
        let mut out: Vec<String> = Vec::new();
        if !self.access_patterns.contains_key(key.as_str()) {
            proof {
                assert(out@.map_values(|s: String| s@) =~= Seq::<Seq<char>>::empty());
            }
            return out;
        }
        let n = self.access_patterns.len();
        let ghost ks = self.key_order();
        let ghost other = |k: Seq<char>| k != key@;
        let mut i: usize = 0;
        while i < n && out.len() < 5
            invariant
                i <= n,
                n == ks.len(),
                ks == self.key_order(),
                other == (|k: Seq<char>| k != key@),
                out@.len() <= 5,
                out@.map_values(|s: String| s@) =~= ks.take(i as int).filter(other),
            decreases n - i,
        {
            let (k, _) = self.access_patterns.entry_at(i);
            proof {
                assert(ks.take(i as int + 1).drop_last() =~= ks.take(i as int));
                assert(ks.take(i as int + 1).last() == k@);
                reveal(Seq::filter);
            }
            if !k.eq(key) {
                let ghost before = out@;
                out.push(k.clone());
                proof {
                    assert(out@.map_values(|s: String| s@) =~= before.map_values(|s: String| s@).push(k@));
                }
            }
            i = i + 1;
        }
        proof {
            lemma_filter_prefix_take(ks, other, i as int);
            if out@.len() < 5 {
                assert(ks.take(i as int) =~= ks);
            }
        }
        out
    }

    /// Statistics: how many keys are tracked and how many accesses are kept.
    pub fn stats(&self) -> (s: PrefetcherStats)
        requires
            access_total(self.histories()) <= usize::MAX,
        ensures
            s.tracked_keys == self.key_order().len(),
            s.total_accesses == access_total(self.histories()),
    {
        let n = self.access_patterns.len();
        let ghost hs = self.histories();
        let mut total: usize = 0;
        let mut i: usize = 0;
        while i < n
            invariant
                i <= n,
                n == self.key_order().len(),
                hs == self.histories(),
                hs.len() == n,
                total == access_total(hs.take(i as int)),
                access_total(hs) <= usize::MAX,
            decreases n - i,
        {
            let (_, times) = self.access_patterns.entry_at(i);
            proof {
                assert(hs.take(i as int + 1).drop_last() =~= hs.take(i as int));
                assert(hs[i as int] == times@);
                lemma_access_total_prefix(hs, i as int + 1);
            }
            total = total + times.len();
            i = i + 1;
        }
        proof {
            assert(hs.take(i as int) =~= hs);
        }
        PrefetcherStats { tracked_keys: n, total_accesses: total }
    }
}

proof fn lemma_access_total_prefix(hs: Seq<Seq<u64>>, j: int)
    requires
        0 <= j <= hs.len(),
    ensures
        access_total(hs.take(j)) <= access_total(hs),
    decreases hs.len() - j,
{
    if j < hs.len() {
        lemma_access_total_prefix(hs, j + 1);
        assert(hs.take(j + 1).drop_last() =~= hs.take(j));
    } else {
        assert(hs.take(j) =~= hs);
    }
}

/// Once the items of a prefix that pass `p` number `m`, they are the first
/// `m` items of the whole sequence that pass it.
proof fn lemma_filter_prefix_take(s: Seq<Seq<char>>, p: spec_fn(Seq<char>) -> bool, i: int)
    requires
        0 <= i <= s.len(),
    ensures
        s.filter(p).take(s.take(i).filter(p).len() as int) == s.take(i).filter(p),
        s.take(i).filter(p).len() <= s.filter(p).len(),
    decreases s.len() - i,
{
    reveal(Seq::filter);
    if i < s.len() {
        lemma_filter_prefix_take(s, p, i + 1);
        assert(s.take(i + 1).drop_last() =~= s.take(i));
        let a = s.take(i).filter(p);
        let b = s.take(i + 1).filter(p);
        if p(s[i]) {
            assert(b == a.push(s[i]));
            assert(s.filter(p).take(a.len() as int) =~= b.take(a.len() as int));
            assert(b.take(a.len() as int) =~= a);
        } else {
            assert(b == a);
        }
    } else {
        assert(s.take(i) =~= s);
        assert(s.filter(p).take(s.filter(p).len() as int) =~= s.filter(p));
    }
}

} // verus!
