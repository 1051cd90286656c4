//! Counter, stack and hash map with the operations of their atomic
//! counterparts.
//!
//! Updates take `&mut self`: exclusive access is what makes each operation
//! observe and produce exactly the values stated in its contract.

use super::cache::{hash_key, partition_of};
use crate::error::{error_message, Error};
use crate::str_map::StrMap;
use crate::text::{decimal, u64_to_decimal};
use vstd::prelude::*;

verus! {

/// Counter offering the operations of an atomic counter
#[derive(Debug)]
pub struct LockFreeCounter {
    value: u64,
}

/// Message of a failed compare-and-swap.
pub open spec fn cas_failure_message(expected: u64, current: u64) -> Seq<char> {
    "Compare and swap failed: expected "@ + decimal(expected as nat) + ", got "@ + decimal(current as nat)
}

impl View for LockFreeCounter {
    type V = u64;

    closed spec fn view(&self) -> u64 {
        self.value
    }
}

impl LockFreeCounter {
    /// Create a new lock-free counter
    pub fn new(initial: u64) -> (c: Self)
        ensures
            c@ == initial,
    {
        LockFreeCounter { value: initial }
    }

    /// Increment the counter and return the new value
    pub fn increment(&mut self) -> (r: u64)
        requires
            old(self)@ < u64::MAX,
        ensures
            final(self)@ == old(self)@ + 1,
            r == final(self)@,
    {
        self.value = self.value + 1;
        self.value
    }

    /// Decrement the counter and return the new value
    pub fn decrement(&mut self) -> (r: u64)
        requires
            old(self)@ > 0,
        ensures
            final(self)@ == old(self)@ - 1,
            r == final(self)@,
    {
        self.value = self.value - 1;
        self.value
    }

    /// Get the current value
    pub fn get(&self) -> (r: u64)
        ensures
            r == self@,
    {
        self.value
    }

    /// Add a value (wrapping around on overflow) and return the previous value
    pub fn add(&mut self, delta: u64) -> (r: u64)
        ensures
            r == old(self)@,
            final(self)@ == (old(self)@ + delta) % 0x1_0000_0000_0000_0000,
    {
        let previous = self.value;
        self.value = self.value.wrapping_add(delta);
        previous
    }

    /// Compare and swap operation: store `new` when the value is `expected`.
    pub fn compare_and_swap(&mut self, expected: u64, new: u64) -> (r: Result<u64, Error>)
        ensures
            old(self)@ == expected ==> r == Ok::<u64, Error>(expected) && final(self)@ == new,
            old(self)@ != expected ==> final(self)@ == old(self)@ && (r matches Err(e)
                && e is Internal && error_message(e) == "Internal error: "@ + cas_failure_message(expected, old(self)@)),
    {
        if self.value == expected {
            self.value = new;
            Ok(expected)
        } else {
            let current = self.value;
            let msg = String::from_str("Compare and swap failed: expected ")
                .concat(u64_to_decimal(expected).as_str())
                .concat(", got ")
                .concat(u64_to_decimal(current).as_str());
            Err(Error::Internal(msg))
        }
    }
}

impl Default for LockFreeCounter {
    fn default() -> (c: Self)
        ensures
            c@ == 0,
    {
        Self::new(0)
    }
}

} // verus!

verus! {

/// Stack with the operations of a lock-free stack: last in, first out.
pub struct LockFreeStack<T> {
    items: Vec<T>,
}

impl<T> View for LockFreeStack<T> {
    type V = Seq<T>;

    /// The items, bottom first.
    closed spec fn view(&self) -> Seq<T> {
        self.items@
    }
}

impl<T> LockFreeStack<T> {
    /// Create a new lock-free stack
    pub fn new() -> (s: Self)
        ensures
            s@ == Seq::<T>::empty(),
    {
        LockFreeStack { items: Vec::new() }
    }

    /// Push a value onto the stack
    pub fn push(&mut self, value: T)
        ensures
            final(self)@ == old(self)@.push(value),
    {
        self.items.push(value);
    }

    /// Pop the value pushed last
    pub fn pop(&mut self) -> (r: Option<T>)
        ensures
            old(self)@.len() == 0 ==> r is None && final(self)@ == old(self)@,
            old(self)@.len() > 0 ==> r == Some(old(self)@.last()) && final(self)@ == old(self)@.drop_last(),
    {
        self.items.pop()
    }

    /// Check if the stack is empty
    pub fn is_empty(&self) -> (b: bool)
        ensures
            b == (self@.len() == 0),
    {
        self.items.len() == 0
    }
}

impl<T> Default for LockFreeStack<T> {
    fn default() -> (s: Self)
        ensures
            s@ == Seq::<T>::empty(),
    {
        Self::new()
    }
}

/// String-keyed hash map split into buckets by key hash, counting its
/// entries the way an atomic counter would.
pub struct LockFreeHashMap<V> {
    buckets: Vec<StrMap<V>>,
    size: u64,
    capacity: usize,
}

impl<V> LockFreeHashMap<V> {
    /// Every bucket holds only the keys that hash to it.
    pub closed spec fn wf(&self) -> bool {
        &&& self.buckets@.len() == self.capacity
        &&& forall|p: int, k: Seq<char>|
            0 <= p < self.buckets@.len() && #[trigger] self.buckets@[p].map().contains_key(k) ==> partition_of(k, self.capacity) == p
    }

    /// Number of buckets.
    pub closed spec fn bucket_count(&self) -> nat {
        self.capacity as nat
    }

    /// The entry count kept alongside the buckets.
    pub closed spec fn count(&self) -> u64 {
        self.size
    }

    /// The map's entries.
    pub closed spec fn entries(&self) -> Map<Seq<char>, V> {
        Map::new(
            |k: Seq<char>| self.capacity > 0 && self.buckets@[partition_of(k, self.capacity)].map().contains_key(k),
            |k: Seq<char>| self.buckets@[partition_of(k, self.capacity)].map()[k],
        )
    }

    /// Create a new lock-free hash map with `capacity` buckets
    pub fn new(capacity: usize) -> (m: Self)
        ensures
            m.wf(),
            m.bucket_count() == capacity,
            m.count() == 0,
            m.entries() == Map::<Seq<char>, V>::empty(),
    {
        let mut buckets: Vec<StrMap<V>> = Vec::new();
        let mut i: usize = 0;
        while i < capacity
            invariant
                i <= capacity,
                buckets@.len() == i,
                forall|p: int| 0 <= p < i ==> #[trigger] buckets@[p].map() == Map::<Seq<char>, V>::empty(),
            decreases capacity - i,
        {
            buckets.push(StrMap::new());
            i = i + 1;
        }
        let m = LockFreeHashMap { buckets, size: 0, capacity };
        proof {
            assert(m.entries() =~= Map::<Seq<char>, V>::empty());
        }
        m
    }

    fn bucket_index(&self, key: &String) -> (i: usize)
        requires
            self.capacity > 0,
        ensures
            i == partition_of(key@, self.capacity),
            i < self.capacity,
    {
        (hash_key(key) as usize) % self.capacity
    }

    /// Get a value by key, cloned
    pub fn get(&self, key: &String) -> (r: Option<V>)
        where V: Clone,
        requires
            self.wf(),
            self.bucket_count() > 0,
        ensures
            match r {
                Some(v) => self.entries().contains_key(key@) && cloned(self.entries()[key@], v),
                None => !self.entries().contains_key(key@),
            },
    {
        let i = self.bucket_index(key);
        match self.buckets[i].get(key.as_str()) {
            Some(v) => Some(v.clone()),
            None => None,
        }
    }

    /// Insert a key-value pair, returning the value it replaces; a new key
    /// adds one to the count.
    pub fn insert(&mut self, key: String, value: V) -> (r: Option<V>)
        requires
            old(self).wf(),
            old(self).bucket_count() > 0,
        ensures
            final(self).wf(),
            final(self).bucket_count() == old(self).bucket_count(),
            final(self).entries() == old(self).entries().insert(key@, value),
            match r {
                Some(v) => old(self).entries().contains_key(key@) && old(self).entries()[key@] == v
                    && final(self).count() == old(self).count(),
                None => !old(self).entries().contains_key(key@) && final(self).count() == (if old(self).count() == u64::MAX { 0int } else { old(self).count() + 1 }),
            },
    {
        let i = self.bucket_index(&key);
        let ghost n = self.capacity;
        let ghost k = key@;
        let mut parts: Vec<StrMap<V>> = Vec::new();
        std::mem::swap(&mut parts, &mut self.buckets);
        let ghost before = parts@;
        let mut part = parts.remove(i);
        let previous = part.remove(key.as_str());
        part.insert(key, value);
        parts.insert(i, part);
        proof {
            assert forall|p: int| 0 <= p < parts@.len() && p != i implies #[trigger] parts@[p] == before[p] by {
                if p < i {
                } else {
                }
            }
        }
        std::mem::swap(&mut parts, &mut self.buckets);
        if previous.is_none() {
            self.size = self.size.wrapping_add(1);
        }
        proof {
            assert(self.buckets@[i as int].map() =~= before[i as int].map().insert(k, value));
            assert forall|p: int, q: Seq<char>|
                0 <= p < self.buckets@.len() && #[trigger] self.buckets@[p].map().contains_key(q) implies partition_of(
                q,
                n,
            ) == p by {
                if p != i {
                    assert(self.buckets@[p] == before[p]);
                } else if q != k {
                    assert(before[p].map().contains_key(q));
                }
            }
            assert forall|q: Seq<char>| #[trigger] self.entries().contains_key(q) == old(self).entries().insert(k, value).contains_key(q) by {
                if partition_of(q, n) != i {
                    assert(self.buckets@[partition_of(q, n)] == before[partition_of(q, n)]);
                }
            }
            assert forall|q: Seq<char>| #[trigger] self.entries().contains_key(q) implies self.entries()[q] == old(self).entries().insert(k, value)[q] by {
                if partition_of(q, n) != i {
                    assert(self.buckets@[partition_of(q, n)] == before[partition_of(q, n)]);
                }
            }
            assert(self.entries() =~= old(self).entries().insert(k, value));
        }
        previous
    }

    /// Remove a key-value pair, returning its value; removing a key takes one
    /// from the count.
    pub fn remove(&mut self, key: &String) -> (r: Option<V>)
        requires
            old(self).wf(),
            old(self).bucket_count() > 0,
        ensures
            final(self).wf(),
            final(self).bucket_count() == old(self).bucket_count(),
            final(self).entries() == old(self).entries().remove(key@),
            match r {
                Some(v) => old(self).entries().contains_key(key@) && old(self).entries()[key@] == v
                    && final(self).count() == (if old(self).count() == 0 { u64::MAX as int } else { old(self).count() - 1 }),
                None => !old(self).entries().contains_key(key@) && final(self).count() == old(self).count(),
            },
    {
        let i = self.bucket_index(key);
        let ghost n = self.capacity;
        let ghost k = key@;
        let mut parts: Vec<StrMap<V>> = Vec::new();
        std::mem::swap(&mut parts, &mut self.buckets);
        let ghost before = parts@;
        let mut part = parts.remove(i);
        let previous = part.remove(key.as_str());
        parts.insert(i, part);
        proof {
            assert forall|p: int| 0 <= p < parts@.len() && p != i implies #[trigger] parts@[p] == before[p] by {
                if p < i {
                } else {
                }
            }
        }
        std::mem::swap(&mut parts, &mut self.buckets);
        if previous.is_some() {
            self.size = self.size.wrapping_sub(1);
        }
        proof {
            assert(self.buckets@[i as int].map() =~= before[i as int].map().remove(k));
            assert forall|p: int, q: Seq<char>|
                0 <= p < self.buckets@.len() && #[trigger] self.buckets@[p].map().contains_key(q) implies partition_of(
                q,
                n,
            ) == p by {
                if p != i {
                    assert(self.buckets@[p] == before[p]);
                } else {
                    assert(before[p].map().contains_key(q));
                }
            }
            assert forall|q: Seq<char>| #[trigger] self.entries().contains_key(q) == old(self).entries().remove(k).contains_key(q) by {
                if partition_of(q, n) != i {
                    assert(self.buckets@[partition_of(q, n)] == before[partition_of(q, n)]);
                }
            }
            assert forall|q: Seq<char>| #[trigger] self.entries().contains_key(q) implies self.entries()[q] == old(self).entries().remove(k)[q] by {
                if partition_of(q, n) != i {
                    assert(self.buckets@[partition_of(q, n)] == before[partition_of(q, n)]);
                }
            }
            assert(self.entries() =~= old(self).entries().remove(k));
        }
        previous
    }

    /// Get the size of the map: the entry count, as a `usize`
    pub fn len(&self) -> (n: usize)
        ensures
            n == self.count() as usize,
    {
        self.size as usize
    }

    /// Check if the map is empty
    pub fn is_empty(&self) -> (b: bool)
        ensures
            b == (self.count() as usize == 0),
    {
        self.len() == 0
    }
}

} // verus!
