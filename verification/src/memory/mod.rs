//! Memory and concurrency helpers: a NUMA-partitioned cache, an access
//! prefetcher, counter, stack and hash map with atomic-style operations, and
//! NUMA node selection.

pub mod cache;
pub mod lockfree;
pub mod numa;
