use nexus_core::index::vector_slots::VectorSlots;
use nexus_core::Error;

fn message(e: Error) -> String {
    match e {
        Error::InvalidId(m) => m,
        _ => panic!("unexpected error kind"),
    }
}

#[test]
fn slots_start_empty() {
    let slots = VectorSlots::new(128).unwrap();
    assert_eq!(slots.dimension(), 128);
    assert_eq!(slots.total_vectors(), 0);
    assert_eq!(slots.slots_used(), 0);
}

#[test]
fn invalid_dimensions_are_refused() {
    assert_eq!(message(VectorSlots::new(0).err().unwrap()), "Invalid vector dimension: 0");
    assert_eq!(message(VectorSlots::new(4097).err().unwrap()), "Invalid vector dimension: 4097");
    assert!(VectorSlots::new(4096).is_ok());
}

#[test]
fn vectors_take_consecutive_slots() {
    let mut slots = VectorSlots::new(3).unwrap();
    assert_eq!(slots.assign_slot(1, 3).unwrap(), 0);
    assert_eq!(slots.assign_slot(2, 3).unwrap(), 1);
    assert_eq!(slots.total_vectors(), 2);
    assert_eq!(slots.node_at(0), Some(1));
    assert_eq!(slots.node_at(1), Some(2));
    assert_eq!(slots.node_at(2), None);
    assert_eq!(slots.get_all_nodes(), vec![1, 2]);
}

#[test]
fn dimension_mismatch_changes_nothing() {
    let mut slots = VectorSlots::new(3).unwrap();
    let err = slots.assign_slot(1, 2).err().unwrap();
    assert_eq!(message(err), "Vector dimension mismatch: expected 3, got 2");
    assert_eq!(slots.total_vectors(), 0);
    assert!(!slots.has_vector(1));
    assert_eq!(message(slots.check_query(4).err().unwrap()), "Query dimension mismatch: expected 3, got 4");
    assert!(slots.check_query(3).is_ok());
}

#[test]
fn released_vector_is_gone() {
    let mut slots = VectorSlots::new(3).unwrap();
    slots.assign_slot(1, 3).unwrap();
    assert!(slots.has_vector(1));
    slots.release(1);
    assert!(!slots.has_vector(1));
    assert_eq!(slots.total_vectors(), 0);
    assert_eq!(slots.node_at(0), None);
    // a second release changes nothing
    slots.release(1);
    assert_eq!(slots.total_vectors(), 0);
}

#[test]
fn re_added_node_moves_to_a_new_slot() {
    let mut slots = VectorSlots::new(2).unwrap();
    slots.assign_slot(7, 2).unwrap();
    assert_eq!(slots.assign_slot(7, 2).unwrap(), 1);
    assert_eq!(slots.get_all_nodes(), vec![7]);
    assert_eq!(slots.node_at(0), Some(7));
    assert_eq!(slots.node_at(1), Some(7));
    assert_eq!(slots.total_vectors(), 2);
}

#[test]
fn cleared_slots_start_again() {
    let mut slots = VectorSlots::new(3).unwrap();
    slots.assign_slot(1, 3).unwrap();
    slots.assign_slot(2, 3).unwrap();
    assert_eq!(slots.total_vectors(), 2);
    slots.clear();
    assert_eq!(slots.total_vectors(), 0);
    assert!(slots.get_all_nodes().is_empty());
    assert_eq!(slots.assign_slot(3, 3).unwrap(), 0);
}
