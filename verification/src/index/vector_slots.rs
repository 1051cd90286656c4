//! The bookkeeping of a vector index: which slot of the vector store holds
//! each node's vector, which node each slot belongs to, and the checks on
//! vector dimensions.

use crate::error::Error;
use crate::id_map::IdMap;
use crate::text::{decimal, u64_to_decimal};
use vstd::prelude::*;

verus! {

/// Largest vector dimension an index accepts.
pub const MAX_DIMENSION: usize = 4096;

/// Slots of a vector store and the nodes whose vectors they hold.
pub struct VectorSlots {
    node_to_index: IdMap<usize>,
    index_to_node: IdMap<u64>,
    dimension: usize,
    next_index: usize,
    total_vectors: u64,
}

/// The message of a dimension mismatch.
pub open spec fn mismatch_message(what: Seq<char>, expected: usize, got: usize) -> Seq<char> {
    what + " dimension mismatch: expected "@ + decimal(expected as nat) + ", got "@ + decimal(got as nat)
}

impl VectorSlots {
    /// The slot of each node that has a vector.
    pub closed spec fn node_slots(&self) -> Map<u64, usize> {
        self.node_to_index.map()
    }

    /// The node of each slot still in use, slots taken as integers.
    pub closed spec fn slot_nodes(&self) -> Map<u64, u64> {
        self.index_to_node.map()
    }

    /// Nodes with a vector, in the order their vectors were first added.
    pub closed spec fn node_order(&self) -> Seq<u64> {
        self.node_to_index.key_seq()
    }

    /// The slot the next vector goes to.
    pub closed spec fn next_slot(&self) -> usize {
        self.next_index
    }

    /// Number of vectors counted as indexed.
    pub closed spec fn total(&self) -> u64 {
        self.total_vectors
    }

    /// Vector dimension.
    pub closed spec fn dim(&self) -> usize {
        self.dimension
    }

    /// Slots for vectors of `dimension` entries; a dimension of zero or above
    /// [`MAX_DIMENSION`] is refused.
    pub fn new(dimension: usize) -> (r: Result<Self, Error>)
        ensures
            (dimension == 0 || dimension > MAX_DIMENSION) <==> r is Err,
            r matches Err(e) ==> (e matches Error::InvalidId(m) && m@ == "Invalid vector dimension: "@ + decimal(
                dimension as nat,
            )),
            r matches Ok(s) ==> s.dim() == dimension && s.node_slots() == Map::<u64, usize>::empty()
                && s.slot_nodes() == Map::<u64, u64>::empty() && s.node_order() == Seq::<u64>::empty()
                && s.next_slot() == 0 && s.total() == 0,
    {
        if dimension == 0 || dimension > MAX_DIMENSION {
            let msg = String::from_str("Invalid vector dimension: ").concat(u64_to_decimal(dimension as u64).as_str());
            return Err(Error::InvalidId(msg));
        }
        Ok(VectorSlots {
            node_to_index: IdMap::new(),
            index_to_node: IdMap::new(),
            dimension,
            next_index: 0,
            total_vectors: 0,
        })
    }

    fn mismatch(what: &str, expected: usize, got: usize) -> (e: Error)
        ensures
            e matches Error::InvalidId(m) && m@ == mismatch_message(what@, expected, got),
    {
        let msg = String::from_str(what).concat(" dimension mismatch: expected ").concat(
            u64_to_decimal(expected as u64).as_str(),
        ).concat(", got ").concat(u64_to_decimal(got as u64).as_str());
        Error::InvalidId(msg)
    }

    /// Give the next slot to `node_id`'s vector of `len` entries; a vector of
    /// another length than the dimension is refused and changes nothing. A
    /// node that had a slot is moved to the new one; its old slot keeps
    /// pointing at it.
    pub fn assign_slot(&mut self, node_id: u64, len: usize) -> (r: Result<usize, Error>)
        requires
            old(self).next_slot() < usize::MAX,
            old(self).total() < u64::MAX,
        ensures
            (len != old(self).dim()) <==> r is Err,
            r is Err ==> *final(self) == *old(self),
            r matches Err(e) ==> (e matches Error::InvalidId(m) && m@ == mismatch_message("Vector"@, old(self).dim(), len)),
            r matches Ok(slot) ==> {
                &&& slot == old(self).next_slot()
                &&& final(self).node_slots() == old(self).node_slots().insert(node_id, slot)
                &&& final(self).slot_nodes() == old(self).slot_nodes().insert(slot as u64, node_id)
                &&& final(self).next_slot() == slot + 1
                &&& final(self).total() == old(self).total() + 1
                &&& final(self).dim() == old(self).dim()
                &&& (old(self).node_slots().contains_key(node_id) ==> final(self).node_order() == old(self).node_order())
                &&& (!old(self).node_slots().contains_key(node_id) ==> final(self).node_order() == old(self).node_order().push(
                    node_id,
                ))
            },
    {
        if len != self.dimension {
            return Err(Self::mismatch("Vector", self.dimension, len));
        }
        let slot = self.next_index;
        self.node_to_index.insert(node_id, slot);
        self.index_to_node.insert(slot as u64, node_id);
        self.next_index = self.next_index + 1;
        self.total_vectors = self.total_vectors + 1;
        Ok(slot)
    }

    /// Check that a query vector of `len` entries has the index's dimension.
    pub fn check_query(&self, len: usize) -> (r: Result<(), Error>)
        ensures
            (len != self.dim()) <==> r is Err,
            r matches Err(e) ==> (e matches Error::InvalidId(m) && m@ == mismatch_message("Query"@, self.dim(), len)),
    {
        if len != self.dimension {
            return Err(Self::mismatch("Query", self.dimension, len));
        }
        Ok(())
    }

    /// Forget `node_id`'s vector: its slot no longer names it and the count
    /// drops by one; a node without a vector changes nothing.
    pub fn release(&mut self, node_id: u64)
        ensures
            final(self).dim() == old(self).dim(),
            final(self).next_slot() == old(self).next_slot(),
            old(self).node_slots().contains_key(node_id) ==> {
                &&& final(self).node_slots() == old(self).node_slots().remove(node_id)
                &&& final(self).slot_nodes() == old(self).slot_nodes().remove(old(self).node_slots()[node_id] as u64)
                &&& final(self).total() == (if old(self).total() == 0 { 0 } else { old(self).total() - 1 })
            },
            !old(self).node_slots().contains_key(node_id) ==> *final(self) == *old(self),
    {
        match self.node_to_index.get(node_id) {
            Some(slot) => {
                let slot = *slot;
                self.node_to_index.remove(node_id);
                self.index_to_node.remove(slot as u64);
                self.total_vectors = self.total_vectors.saturating_sub(1);
            },
            None => {},
        }
    }

    /// The node whose vector is in `slot`, if the slot is in use.
    pub fn node_at(&self, slot: usize) -> (r: Option<u64>)
        ensures
            match r {
                Some(n) => self.slot_nodes().contains_key(slot as u64) && self.slot_nodes()[slot as u64] == n,
                None => !self.slot_nodes().contains_key(slot as u64),
            },
    {
        match self.index_to_node.get(slot as u64) {
            Some(n) => Some(*n),
            None => None,
        }
    }

    /// Whether `node_id` has a vector.
    pub fn has_vector(&self, node_id: u64) -> (b: bool)
        ensures
            b == self.node_slots().contains_key(node_id),
    {
        self.node_to_index.contains_key(node_id)
    }

    /// Every node with a vector, in the order their vectors were first added.
    pub fn get_all_nodes(&self) -> (r: Vec<u64>)
        ensures
            r@ == self.node_order(),
            forall|n: u64| r@.contains(n) <==> #[trigger] self.node_slots().contains_key(n),
    {
        let n = self.node_to_index.len();
        let ghost ks = self.node_to_index.key_seq();
        let mut out: Vec<u64> = Vec::new();
        let mut i: usize = 0;
        while i < n
            invariant
                i <= n,
                n == ks.len(),
                ks == self.node_to_index.key_seq(),
                out@ =~= ks.take(i as int),
            decreases n - i,
        {
            let (k, _) = self.node_to_index.entry_at(i);
            out.push(k);
            proof {
                assert(ks.take(i as int + 1) =~= ks.take(i as int).push(k));
            }
            i = i + 1;
        }
        proof {
            assert(ks.take(i as int) =~= ks);
        }
        out
    }

    /// Forget every vector and start again from slot 0.
    pub fn clear(&mut self)
        ensures
            final(self).dim() == old(self).dim(),
            final(self).node_slots() == Map::<u64, usize>::empty(),
            final(self).slot_nodes() == Map::<u64, u64>::empty(),
            final(self).node_order() == Seq::<u64>::empty(),
            final(self).next_slot() == 0,
            final(self).total() == 0,
    {
        self.node_to_index.clear();
        self.index_to_node.clear();
        self.next_index = 0;
        self.total_vectors = 0;
    }

    /// Vector dimension.
    pub fn dimension(&self) -> (d: usize)
        ensures
            d == self.dim(),
    {
        self.dimension
    }

    /// Number of vectors counted as indexed.
    pub fn total_vectors(&self) -> (n: u64)
        ensures
            n == self.total(),
    {
        self.total_vectors
    }

    /// The slot the next vector goes to.
    pub fn slots_used(&self) -> (n: usize)
        ensures
            n == self.next_slot(),
    {
        self.next_index
    }
}

} // verus!
