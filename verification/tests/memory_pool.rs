use nexus_core::memory_management::{AllocationStrategy, BlockType, MemoryPool, MemoryPoolConfig};
use nexus_core::Error;

fn pool_with(initial_size: usize, max_size: usize, strategy: AllocationStrategy) -> MemoryPool {
    let config = MemoryPoolConfig { initial_size, max_size, strategy, ..Default::default() };
    MemoryPool::new(config).unwrap()
}

#[test]
fn test_memory_pool_creation() {
    let config = MemoryPoolConfig::default();
    let pool = MemoryPool::new(config).unwrap();
    let stats = pool.get_stats();
    assert_eq!(stats.total_free, 1024 * 1024);
    assert_eq!(stats.allocated_blocks, 0);
}

#[test]
fn allocation_splits_the_first_block() {
    let mut pool = MemoryPool::new(MemoryPoolConfig::default()).unwrap();
    assert_eq!(pool.allocate(1024, BlockType::Node).unwrap(), 0);
    assert_eq!(pool.allocate(10, BlockType::Node).unwrap(), 1024);
    let stats = pool.get_stats();
    assert_eq!(stats.total_allocated, 1024 + 16);
    assert_eq!(stats.total_free, 1024 * 1024 - 1024 - 16);
    assert_eq!(stats.allocated_blocks, 2);
}

#[test]
fn zero_bytes_are_refused() {
    let mut pool = MemoryPool::new(MemoryPoolConfig::default()).unwrap();
    match pool.allocate(0, BlockType::Node) {
        Err(Error::InvalidInput(m)) => assert_eq!(m, "Cannot allocate zero bytes"),
        _ => panic!("expected a refusal"),
    }
}

#[test]
fn deallocation_returns_the_space() {
    let mut pool = MemoryPool::new(MemoryPoolConfig::default()).unwrap();
    let address = pool.allocate(1024, BlockType::Node).unwrap();
    pool.deallocate(address).unwrap();
    let stats = pool.get_stats();
    assert_eq!(stats.total_allocated, 0);
    assert_eq!(stats.allocated_blocks, 0);
    assert_eq!(stats.total_free, 1024 * 1024);
    // the freed block was merged with the rest, so the whole pool fits again
    assert_eq!(pool.allocate(1024 * 1024, BlockType::Node).unwrap(), 0);
}

#[test]
fn unknown_address_is_refused() {
    let mut pool = MemoryPool::new(MemoryPoolConfig::default()).unwrap();
    match pool.deallocate(64) {
        Err(Error::InvalidInput(m)) => assert_eq!(m, "Address not found in allocated blocks"),
        _ => panic!("expected a refusal"),
    }
}

#[test]
fn pool_grows_up_to_its_limit() {
    let mut pool = pool_with(4096, 8192, AllocationStrategy::FirstFit);
    assert_eq!(pool.allocate(4096, BlockType::Cache).unwrap(), 0);
    assert_eq!(pool.allocate(100, BlockType::Cache).unwrap(), 4096);
    assert_eq!(pool.get_stats().total_allocated, 4096 + 104);
    match pool.allocate(5000, BlockType::Cache) {
        Err(Error::OutOfMemory(m)) => assert_eq!(m, "Pool size limit exceeded"),
        _ => panic!("expected the limit"),
    }
}

fn fragmented(strategy: AllocationStrategy) -> MemoryPool {
    let mut pool = pool_with(4096, 8192, strategy);
    pool.allocate(1000, BlockType::Node).unwrap();
    let middle = pool.allocate(500, BlockType::Node).unwrap();
    pool.allocate(1000, BlockType::Node).unwrap();
    pool.deallocate(middle).unwrap();
    pool
}

#[test]
fn strategies_pick_different_blocks() {
    // free blocks: 1592 bytes at 2504, then 504 bytes at 1000
    assert_eq!(fragmented(AllocationStrategy::FirstFit).allocate(400, BlockType::Index).unwrap(), 2504);
    assert_eq!(fragmented(AllocationStrategy::BestFit).allocate(400, BlockType::Index).unwrap(), 1000);
    assert_eq!(fragmented(AllocationStrategy::WorstFit).allocate(400, BlockType::Index).unwrap(), 2504);
    assert_eq!(fragmented(AllocationStrategy::BuddySystem).allocate(400, BlockType::Index).unwrap(), 2504);
}

#[test]
fn collection_without_unreferenced_blocks_keeps_them() {
    let mut pool = MemoryPool::new(MemoryPoolConfig::default()).unwrap();
    pool.allocate(64, BlockType::Property).unwrap();
    pool.perform_gc();
    let stats = pool.get_stats();
    assert_eq!(stats.allocated_blocks, 1);
    assert_eq!(stats.gc_cycles, 1);
    assert!(stats.last_gc.is_some());
}

#[test]
fn default_collection_interval_is_thirty_seconds() {
    let config = MemoryPoolConfig::default();
    assert_eq!(config.gc_interval, std::time::Duration::from_secs(30));
}

#[test]
fn collection_releases_only_unreferenced_blocks() {
    let mut pool = MemoryPool::new(MemoryPoolConfig::default()).unwrap();
    assert_eq!(pool.allocate(1024, BlockType::Node).unwrap(), 0);
    assert_eq!(pool.allocate(16, BlockType::Node).unwrap(), 1024);
    pool.release_unreferenced(&vec![0, 1]);
    let stats = pool.get_stats();
    assert_eq!(stats.allocated_blocks, 1);
    assert_eq!(stats.total_allocated, 16);
    match pool.deallocate(0) {
        Err(Error::InvalidInput(_)) => {}
        _ => panic!("the unreferenced block was released"),
    }
    assert!(pool.deallocate(1024).is_ok());
}

#[test]
fn collection_keeps_referenced_blocks() {
    let mut pool = MemoryPool::new(MemoryPoolConfig::default()).unwrap();
    pool.allocate(64, BlockType::Node).unwrap();
    pool.perform_gc();
    assert_eq!(pool.get_stats().allocated_blocks, 1);
}
