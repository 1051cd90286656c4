use nexus_core::memory::cache::{NumaPartitionedCache, PredictivePrefetcher};
use nexus_core::memory::lockfree::{LockFreeHashMap, LockFreeStack};
use nexus_core::memory::numa::NumaConfig;
use nexus_core::Error;

fn two_nodes() -> NumaConfig {
    NumaConfig { enabled: false, preferred_node: None, num_nodes: 2 }
}

#[test]
fn test_numa_partitioned_cache() {
    let mut cache = NumaPartitionedCache::new(two_nodes());

    cache.insert("key1".to_string(), "value1".to_string());
    cache.insert("key2".to_string(), "value2".to_string());

    assert_eq!(cache.get(&"key1".to_string()), Some("value1".to_string()));
    assert_eq!(cache.get(&"key2".to_string()), Some("value2".to_string()));

    let stats = cache.stats();
    assert_eq!(stats.total_size, 2);
    assert_eq!(stats.num_partitions, 2);
}

#[test]
fn partitioned_cache_replaces_and_removes() {
    let mut cache = NumaPartitionedCache::new(NumaConfig { enabled: true, preferred_node: None, num_nodes: 3 });
    assert_eq!(cache.insert("a".to_string(), 1), None);
    assert_eq!(cache.insert("a".to_string(), 2), Some(1));
    assert_eq!(cache.get(&"a".to_string()), Some(2));
    assert_eq!(cache.remove(&"a".to_string()), Some(2));
    assert_eq!(cache.remove(&"a".to_string()), None);
    assert_eq!(cache.get(&"a".to_string()), None);
    for i in 0..10 {
        cache.insert(format!("k{}", i), i);
    }
    let stats = cache.stats();
    assert_eq!(stats.total_size, 10);
    assert_eq!(stats.partition_sizes.iter().sum::<usize>(), 10);
    assert_eq!(stats.partition_sizes.len(), 3);
    cache.clear();
    assert_eq!(cache.stats().total_size, 0);
    assert_eq!(cache.get(&"k3".to_string()), None);
}

#[test]
fn test_predictive_prefetcher() {
    let mut prefetcher = PredictivePrefetcher::new(10);

    prefetcher.record_access("key1".to_string());
    prefetcher.record_access("key2".to_string());
    prefetcher.record_access("key1".to_string());

    let predictions = prefetcher.predict_next(&"key1".to_string());
    assert!(predictions.len() <= 5);

    let stats = prefetcher.stats();
    assert_eq!(stats.tracked_keys, 2);
    assert_eq!(stats.total_accesses, 3);
}

#[test]
fn prefetcher_predicts_other_keys_in_order() {
    let mut prefetcher = PredictivePrefetcher::new(10);
    for k in ["a", "b", "c", "d", "e", "f", "g"] {
        prefetcher.record_access(k.to_string());
    }
    assert_eq!(prefetcher.predict_next(&"c".to_string()), vec!["a", "b", "d", "e", "f"]);
    assert!(prefetcher.predict_next(&"unknown".to_string()).is_empty());
}

#[test]
fn prefetcher_keeps_latest_accesses() {
    let mut prefetcher = PredictivePrefetcher::new(2);
    for _ in 0..5 {
        prefetcher.record_access("k".to_string());
    }
    let stats = prefetcher.stats();
    assert_eq!(stats.tracked_keys, 1);
    assert_eq!(stats.total_accesses, 2);
}

#[test]
fn test_lock_free_stack() {
    let mut stack = LockFreeStack::new();
    assert!(stack.is_empty());

    stack.push(1);
    stack.push(2);
    stack.push(3);

    assert!(!stack.is_empty());

    assert_eq!(stack.pop(), Some(3));
    assert_eq!(stack.pop(), Some(2));
    assert_eq!(stack.pop(), Some(1));
    assert_eq!(stack.pop(), None);
    assert!(stack.is_empty());
}

#[test]
fn test_lock_free_hash_map() {
    let mut map = LockFreeHashMap::new(16);

    assert!(map.is_empty());

    map.insert("key1".to_string(), "value1".to_string());
    assert_eq!(map.len(), 1);

    assert_eq!(map.get(&"key1".to_string()), Some("value1".to_string()));

    let old = map.insert("key1".to_string(), "value2".to_string());
    assert_eq!(old, Some("value1".to_string()));
    assert_eq!(map.get(&"key1".to_string()), Some("value2".to_string()));

    let removed = map.remove(&"key1".to_string());
    assert_eq!(removed, Some("value2".to_string()));
    assert!(map.is_empty());
}

#[test]
fn lock_free_hash_map_counts_distinct_keys() {
    let mut map = LockFreeHashMap::new(4);
    for i in 0..20u32 {
        map.insert(format!("k{}", i % 7), i);
    }
    assert_eq!(map.len(), 7);
    assert_eq!(map.get(&"k3".to_string()), Some(17));
    assert_eq!(map.remove(&"missing".to_string()), None);
    assert_eq!(map.len(), 7);
}

#[test]
fn numa_binding_checks_node_range() {
    let off = NumaConfig { enabled: false, preferred_node: None, num_nodes: 2 };
    assert_eq!(off.check_binding(9).unwrap(), false);
    let on = NumaConfig { enabled: true, preferred_node: None, num_nodes: 2 };
    assert_eq!(on.check_binding(1).unwrap(), true);
    match on.check_binding(2) {
        Err(Error::InvalidInput(m)) => assert_eq!(m, "Invalid NUMA node: 2 (max: 1)"),
        _ => panic!("expected an invalid node"),
    }
}
