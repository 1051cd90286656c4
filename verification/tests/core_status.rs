use nexus_core::memory::lockfree::LockFreeCounter;
use nexus_core::memory::numa::{NumaAllocator, NumaConfig};
use nexus_core::str_map::StrMap;
use nexus_core::{Error, HealthState, HealthStatus};

#[test]
fn test_error_storage() {
    let err = Error::storage("test error");
    assert!(matches!(err, Error::Storage(_)));
    assert_eq!(err.to_string(), "Storage error: test error");
}

#[test]
fn test_error_page_cache() {
    let err = Error::page_cache("cache full");
    assert!(matches!(err, Error::PageCache(_)));
}

#[test]
fn test_error_wal() {
    let err = Error::wal("checkpoint failed");
    assert!(matches!(err, Error::Wal(_)));
}

#[test]
fn error_messages_carry_their_kind() {
    assert_eq!(Error::catalog("x").to_string(), "Catalog error: x");
    assert_eq!(Error::NotFound("n".to_string()).to_string(), "Not found: n");
    assert_eq!(Error::Io("disk".to_string()).to_string(), "I/O error: disk");
}

#[test]
fn test_health_state_copy() {
    let healthy = HealthState::Healthy;
    let copied = healthy;

    assert_eq!(healthy, copied);
    assert_eq!(format!("{:?}", healthy), "Healthy");
    assert_eq!(format!("{:?}", copied), "Healthy");
}

#[test]
fn test_health_state_debug() {
    let healthy = HealthState::Healthy;
    assert_eq!(format!("{:?}", healthy), "Healthy");
    let unhealthy = HealthState::Unhealthy;
    assert_eq!(format!("{:?}", unhealthy), "Unhealthy");
    let degraded = HealthState::Degraded;
    assert_eq!(format!("{:?}", degraded), "Degraded");
}

#[test]
fn test_lock_free_counter() {
    let mut counter = LockFreeCounter::new(0);
    assert_eq!(counter.get(), 0);

    assert_eq!(counter.increment(), 1);
    assert_eq!(counter.get(), 1);

    assert_eq!(counter.add(5), 1);
    assert_eq!(counter.get(), 6);

    assert_eq!(counter.decrement(), 5);
    assert_eq!(counter.get(), 5);
}

#[test]
fn lock_free_counter_compare_and_swap() {
    let mut counter = LockFreeCounter::new(7);
    assert_eq!(counter.compare_and_swap(7, 9).unwrap(), 7);
    assert_eq!(counter.get(), 9);
    assert!(counter.compare_and_swap(7, 1).is_err());
    assert_eq!(counter.get(), 9);
}

#[test]
fn numa_preferred_node() {
    let fixed = NumaAllocator::new(NumaConfig { enabled: false, preferred_node: Some(1), num_nodes: 2 });
    assert_eq!(fixed.get_preferred_node(), 1);
    let mut allocator = NumaAllocator::new(NumaConfig { enabled: false, preferred_node: None, num_nodes: 2 });
    allocator.set_preferred_node(1);
    assert_eq!(allocator.get_preferred_node(), 1);
    allocator.set_preferred_node(5);
    assert_eq!(allocator.get_preferred_node(), 1);
}

#[test]
fn test_error_catalog() {
    let err = Error::catalog("catalog error");
    assert!(matches!(err, Error::Catalog(_)));
    assert!(err.to_string().contains("catalog error"));
}

#[test]
fn test_error_transaction() {
    let err = Error::transaction("tx failed");
    assert!(matches!(err, Error::Transaction(_)));
    assert!(err.to_string().contains("tx failed"));
}

#[test]
fn test_error_index() {
    let err = Error::index("index error");
    assert!(matches!(err, Error::Index(_)));
    assert!(err.to_string().contains("index error"));
}

#[test]
fn test_error_executor() {
    let err = Error::executor("exec error");
    assert!(matches!(err, Error::Executor(_)));
    assert!(err.to_string().contains("exec error"));
}

#[test]
fn test_error_internal() {
    let err = Error::internal("internal error");
    assert!(matches!(err, Error::Internal(_)));
    assert!(err.to_string().contains("internal error"));
}

#[test]
fn test_error_not_found() {
    let err = Error::NotFound("node 123".to_string());
    assert!(matches!(err, Error::NotFound(_)));
    assert!(err.to_string().contains("node 123"));
}

#[test]
fn test_error_invalid_id() {
    let err = Error::InvalidId("invalid node id".to_string());
    assert!(matches!(err, Error::InvalidId(_)));
    assert!(err.to_string().contains("invalid node id"));
}

#[test]
fn test_error_constraint_violation() {
    let err = Error::ConstraintViolation("unique constraint violated".to_string());
    assert!(matches!(err, Error::ConstraintViolation(_)));
    assert!(err.to_string().contains("unique constraint violated"));
}

#[test]
fn test_error_type_mismatch() {
    let err = Error::TypeMismatch { expected: "String".to_string(), actual: "Int64".to_string() };
    assert!(matches!(err, Error::TypeMismatch { .. }));
    assert!(err.to_string().contains("String"));
    assert!(err.to_string().contains("Int64"));
}

#[test]
fn test_error_cypher_syntax() {
    let err = Error::CypherSyntax("unexpected token".to_string());
    assert!(matches!(err, Error::CypherSyntax(_)));
    assert!(err.to_string().contains("unexpected token"));
}

#[test]
fn test_error_debug() {
    let err = Error::Storage("test".to_string());
    let debug = format!("{:?}", err);
    assert!(debug.contains("Storage"));
}

#[test]
fn test_health_status_clone() {
    let mut status = HealthStatus { overall: HealthState::Healthy, components: StrMap::new() };
    status.components.insert("test".to_string(), HealthState::Healthy);

    let cloned_status = status.clone();
    assert_eq!(status.overall, cloned_status.overall);
    assert_eq!(status.components.len(), cloned_status.components.len());
    assert!(cloned_status.components.contains_key("test"));
}

#[test]
fn test_health_status_debug() {
    let mut status = HealthStatus { overall: HealthState::Healthy, components: StrMap::new() };
    status.components.insert("test".to_string(), HealthState::Healthy);

    let debug = format!("{:?}", status);
    assert!(debug.contains("HealthStatus"));
    assert!(debug.contains("overall"));
    assert!(debug.contains("components"));
}

#[test]
fn engine_health_all_components_healthy() {
    let status = nexus_core::status::engine_health(true, true, true, true, true);
    assert_eq!(status.overall, HealthState::Healthy);
    assert_eq!(status.components.len(), 5);
    for name in ["catalog", "storage", "page_cache", "wal", "indexes"] {
        assert_eq!(status.components.get(name), Some(&HealthState::Healthy));
    }
}

#[test]
fn engine_health_one_failing_component() {
    let status = nexus_core::status::engine_health(true, true, false, true, true);
    assert_eq!(status.overall, HealthState::Unhealthy);
    assert_eq!(status.components.get("page_cache"), Some(&HealthState::Unhealthy));
    assert_eq!(status.components.get("wal"), Some(&HealthState::Healthy));
    assert_eq!(status.components.get("catalog"), Some(&HealthState::Healthy));
}
