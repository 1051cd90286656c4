//! Index updates collected during a transaction and applied together at
//! commit, with the nodes and relationships they touch kept at hand.

use std::collections::HashSet;
use vstd::prelude::*;

verus! {

broadcast use vstd::std_specs::hash::group_hash_axioms;

#[verifier::external_type_specification]
#[verifier::external_body]
pub struct ExJsonValue(serde_json::Value);

/// Pending index update operation
#[derive(Debug)]
pub enum IndexUpdate {
    /// Add node to label index
    AddNodeToLabel { node_id: u64, label_ids: Vec<u32> },
    /// Remove node from label index
    RemoveNodeFromLabel { node_id: u64, label_ids: Vec<u32> },
    /// Index node properties
    IndexNodeProperties { node_id: u64, properties: serde_json::Value },
    /// Remove node from property index
    RemoveNodeFromPropertyIndex { node_id: u64 },
    /// Add relationship to index
    AddRelationship { rel_id: u64, source_id: u64, target_id: u64, type_id: u32 },
    /// Remove relationship from index
    RemoveRelationship { rel_id: u64, source_id: u64, target_id: u64, type_id: u32 },
}

/// The node an update is about, if it is about a node.
pub open spec fn updated_node(u: IndexUpdate) -> Option<u64> {
    match u {
        IndexUpdate::AddNodeToLabel { node_id, .. } => Some(node_id),
        IndexUpdate::RemoveNodeFromLabel { node_id, .. } => Some(node_id),
        IndexUpdate::IndexNodeProperties { node_id, .. } => Some(node_id),
        IndexUpdate::RemoveNodeFromPropertyIndex { node_id } => Some(node_id),
        _ => None,
    }
}

/// The relationship an update is about, if it is about a relationship.
pub open spec fn updated_relationship(u: IndexUpdate) -> Option<u64> {
    match u {
        IndexUpdate::AddRelationship { rel_id, .. } => Some(rel_id),
        IndexUpdate::RemoveRelationship { rel_id, .. } => Some(rel_id),
        _ => None,
    }
}

/// Whether one of the updates is about node `n`.
pub open spec fn touches_node(updates: Seq<IndexUpdate>, n: u64) -> bool {
    exists|i: int| 0 <= i < updates.len() && updated_node(#[trigger] updates[i]) == Some(n)
}

/// Whether one of the updates is about relationship `r`.
pub open spec fn touches_relationship(updates: Seq<IndexUpdate>, r: u64) -> bool {
    exists|i: int| 0 <= i < updates.len() && updated_relationship(#[trigger] updates[i]) == Some(r)
}

/// Accumulator for pending index updates during a transaction
#[derive(Debug)]
pub struct PendingIndexUpdates {
    updates: Vec<IndexUpdate>,
    affected_nodes: HashSet<u64>,
    affected_relationships: HashSet<u64>,
}

impl PendingIndexUpdates {
    /// The pending updates, oldest first.
    pub closed spec fn pending(&self) -> Seq<IndexUpdate> {
        self.updates@
    }

    /// The touched-node and touched-relationship sets match the updates.
    pub closed spec fn wf(&self) -> bool {
        &&& forall|n: u64| #[trigger] self.affected_nodes@.contains(n) <==> touches_node(self.updates@, n)
        &&& forall|r: u64| #[trigger] self.affected_relationships@.contains(r) <==> touches_relationship(self.updates@, r)
    }

    /// No pending updates.
    pub fn new() -> (p: Self)
        ensures
            p.wf(),
            p.pending() == Seq::<IndexUpdate>::empty(),
    {
        PendingIndexUpdates { updates: Vec::new(), affected_nodes: HashSet::new(), affected_relationships: HashSet::new() }
    }

    /// Add a pending update.
    pub fn add_update(&mut self, update: IndexUpdate)
        requires
            old(self).wf(),
        ensures
            final(self).wf(),
            final(self).pending() == old(self).pending().push(update),
    {
        match &update {
            IndexUpdate::AddNodeToLabel { node_id, .. } => {
                self.affected_nodes.insert(*node_id);
            },
            IndexUpdate::RemoveNodeFromLabel { node_id, .. } => {
                self.affected_nodes.insert(*node_id);
            },
            IndexUpdate::IndexNodeProperties { node_id, .. } => {
                self.affected_nodes.insert(*node_id);
            },
            IndexUpdate::RemoveNodeFromPropertyIndex { node_id } => {
                self.affected_nodes.insert(*node_id);
            },
            IndexUpdate::AddRelationship { rel_id, .. } => {
                self.affected_relationships.insert(*rel_id);
            },
            IndexUpdate::RemoveRelationship { rel_id, .. } => {
                self.affected_relationships.insert(*rel_id);
            },
        }
        let ghost before = self.updates@;
        self.updates.push(update);
        proof {
            let after = self.updates@;
            assert(after[before.len() as int] == update);
            assert forall|n: u64| #[trigger] self.affected_nodes@.contains(n) <==> touches_node(after, n) by {
                if touches_node(before, n) {
                    let i = choose|i: int| 0 <= i < before.len() && updated_node(#[trigger] before[i]) == Some(n);
                    assert(after[i] == before[i]);
                }
                if touches_node(after, n) && updated_node(update) != Some(n) {
                    let i = choose|i: int| 0 <= i < after.len() && updated_node(#[trigger] after[i]) == Some(n);
                    assert(i < before.len());
                    assert(after[i] == before[i]);
                }
            }
            assert forall|r: u64| #[trigger] self.affected_relationships@.contains(r) <==> touches_relationship(after, r) by {
                if touches_relationship(before, r) {
                    let i = choose|i: int| 0 <= i < before.len() && updated_relationship(#[trigger] before[i]) == Some(r);
                    assert(after[i] == before[i]);
                }
                if touches_relationship(after, r) && updated_relationship(update) != Some(r) {
                    let i = choose|i: int| 0 <= i < after.len() && updated_relationship(#[trigger] after[i]) == Some(r);
                    assert(i < before.len());
                    assert(after[i] == before[i]);
                }
            }
        }
    }

    /// Hand over every pending update, oldest first, leaving none.
    pub fn take_updates(&mut self) -> (r: Vec<IndexUpdate>)
        requires
            old(self).wf(),
        ensures
            final(self).wf(),
            r@ == old(self).pending(),
            final(self).pending() == Seq::<IndexUpdate>::empty(),
    {
        let mut updates: Vec<IndexUpdate> = Vec::new();
        std::mem::swap(&mut updates, &mut self.updates);
        self.affected_nodes.clear();
        self.affected_relationships.clear();
        updates
    }

    /// The pending updates, oldest first.
    pub fn get_updates(&self) -> (r: &[IndexUpdate])
        ensures
            r@ == self.pending(),
    {
        self.updates.as_slice()
    }

    /// Whether nothing is pending.
    pub fn is_empty(&self) -> (r: bool)
        ensures
            r == (self.pending().len() == 0),
    {
        self.updates.len() == 0
    }

    /// Number of pending updates.
    pub fn len(&self) -> (r: usize)
        ensures
            r == self.pending().len(),
    {
        self.updates.len()
    }

    /// Drop every pending update.
    pub fn clear(&mut self)
        requires
            old(self).wf(),
        ensures
            final(self).wf(),
            final(self).pending() == Seq::<IndexUpdate>::empty(),
    {
        self.updates.clear();
        self.affected_nodes.clear();
        self.affected_relationships.clear();
    }

    /// Whether a pending update is about node `node_id`.
    pub fn is_node_affected(&self, node_id: u64) -> (r: bool)
        requires
            self.wf(),
        ensures
            r == touches_node(self.pending(), node_id),
    {
        self.affected_nodes.contains(&node_id)
    }

    /// Whether a pending update is about relationship `rel_id`.
    pub fn is_relationship_affected(&self, rel_id: u64) -> (r: bool)
        requires
            self.wf(),
        ensures
            r == touches_relationship(self.pending(), rel_id),
    {
        self.affected_relationships.contains(&rel_id)
    }
}

impl Default for PendingIndexUpdates {
    fn default() -> (p: Self)
        ensures
            p.wf(),
            p.pending() == Seq::<IndexUpdate>::empty(),
    {
        PendingIndexUpdates::new()
    }
}

} // verus!
