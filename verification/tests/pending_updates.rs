use nexus_core::index::pending_updates::{IndexUpdate, PendingIndexUpdates};

#[test]
fn test_pending_index_updates_empty() {
    let updates = PendingIndexUpdates::new();
    assert!(updates.is_empty());
    assert_eq!(updates.len(), 0);
}

#[test]
fn test_pending_index_updates_add() {
    let mut updates = PendingIndexUpdates::new();
    updates.add_update(IndexUpdate::AddNodeToLabel { node_id: 1, label_ids: vec![0, 1] });
    assert!(!updates.is_empty());
    assert_eq!(updates.len(), 1);
    assert!(updates.is_node_affected(1));
}

#[test]
fn test_pending_index_updates_take() {
    let mut updates = PendingIndexUpdates::new();
    updates.add_update(IndexUpdate::AddNodeToLabel { node_id: 1, label_ids: vec![0] });
    updates.add_update(IndexUpdate::AddRelationship { rel_id: 1, source_id: 1, target_id: 2, type_id: 0 });
    assert_eq!(updates.len(), 2);
    let taken = updates.take_updates();
    assert_eq!(taken.len(), 2);
    assert!(updates.is_empty());
    assert!(!updates.is_node_affected(1));
    assert!(!updates.is_relationship_affected(1));
}

#[test]
fn test_pending_index_updates_clear() {
    let mut updates = PendingIndexUpdates::new();
    updates.add_update(IndexUpdate::AddNodeToLabel { node_id: 1, label_ids: vec![0] });
    assert!(!updates.is_empty());
    updates.clear();
    assert!(updates.is_empty());
}

#[test]
fn pending_updates_track_nodes_and_relationships_apart() {
    let mut updates = PendingIndexUpdates::default();
    updates.add_update(IndexUpdate::IndexNodeProperties { node_id: 4, properties: serde_json::Value::Null });
    updates.add_update(IndexUpdate::RemoveRelationship { rel_id: 9, source_id: 4, target_id: 5, type_id: 1 });
    assert!(updates.is_node_affected(4));
    assert!(!updates.is_node_affected(9));
    assert!(updates.is_relationship_affected(9));
    assert!(!updates.is_relationship_affected(4));
    assert_eq!(updates.get_updates().len(), 2);
}
