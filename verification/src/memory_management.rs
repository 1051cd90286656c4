//! A memory pool that hands out address ranges by first-, best- or
//! worst-fit, grows up to a limit, coalesces what is given back, and
//! collects unreferenced blocks.

use crate::error::Error;
use crate::id_map::IdMap;
use crate::time::{duration_nanos, instant_elapsed, instant_now, span_nanos};
use std::collections::VecDeque;
use std::sync::atomic::{AtomicU64, AtomicUsize, Ordering};
use std::time::{Duration, Instant};
use vstd::prelude::*;
use vstd::wrapping::usize_specs::{wrapping_add, wrapping_sub};

verus! {

/// Memory allocation strategy
#[derive(Debug, Clone, Copy, PartialEq, Eq, Structural)]
pub enum AllocationStrategy {
    /// First-fit allocation
    FirstFit,
    /// Best-fit allocation
    BestFit,
    /// Worst-fit allocation
    WorstFit,
    /// Buddy system allocation
    BuddySystem,
}

/// Memory block information
#[derive(Debug)]
pub struct MemoryBlock {
    /// Starting address
    pub address: usize,
    /// Size in bytes
    pub size: usize,
    /// Whether the block is allocated
    pub allocated: bool,
    /// Reference count
    pub ref_count: AtomicUsize,
    /// Last access time
    pub last_access: AtomicU64,
    /// Block type
    pub block_type: BlockType,
}

/// Block type for different memory uses
#[derive(Debug, Clone, Copy, PartialEq, Eq, Structural)]
pub enum BlockType {
    /// Node data
    Node,
    /// Relationship data
    Relationship,
    /// Property data
    Property,
    /// Index data
    Index,
    /// Cache data
    Cache,
    /// Temporary data
    Temporary,
}

/// Memory usage statistics
#[derive(Debug, Clone, Default)]
pub struct MemoryStats {
    /// Total allocated memory
    pub total_allocated: usize,
    /// Total free memory
    pub total_free: usize,
    /// Number of allocated blocks
    pub allocated_blocks: usize,
    /// Number of free blocks
    pub free_blocks: usize,
    /// Peak memory usage
    pub peak_usage: usize,
    /// GC cycles performed
    pub gc_cycles: u64,
    /// Last GC time
    pub last_gc: Option<Instant>,
}

} // verus!

verus! {

/// A span of whole seconds.
///
/// Calls `Duration::from_secs`, which makes a duration of `n` whole seconds:
/// its length in nanoseconds (`span_nanos`, what `Duration::as_nanos` gives)
/// is `n` times 10^9.
#[verifier::external_body]
fn seconds(n: u64) -> (d: Duration)
    ensures
        span_nanos(d) == n * 1_000_000_000,
{
    Duration::from_secs(n)
}

/// Bits of the `f64` 0.8, the default collection threshold.
pub const DEFAULT_GC_THRESHOLD_BITS: u64 = 0x3fe9_9999_9999_999au64;

/// Memory pool configuration
#[derive(Debug)]
pub struct MemoryPoolConfig {
    /// Initial pool size in bytes
    pub initial_size: usize,
    /// Maximum pool size in bytes
    pub max_size: usize,
    /// Allocation strategy
    pub strategy: AllocationStrategy,
    /// Enable garbage collection
    pub enable_gc: bool,
    /// GC threshold (fraction of memory used), as the bits of an `f64`
    pub gc_threshold_bits: u64,
    /// GC interval
    pub gc_interval: Duration,
}

impl Default for MemoryPoolConfig {
    fn default() -> (c: Self)
        ensures
            c.initial_size == 1024 * 1024,
            c.max_size == 1024 * 1024 * 1024,
            c.strategy == AllocationStrategy::FirstFit,
            c.enable_gc,
            c.gc_threshold_bits == DEFAULT_GC_THRESHOLD_BITS,
            span_nanos(c.gc_interval) == 30_000_000_000,
    {
        MemoryPoolConfig {
            initial_size: 1024 * 1024,
            max_size: 1024 * 1024 * 1024,
            strategy: AllocationStrategy::FirstFit,
            enable_gc: true,
            gc_threshold_bits: DEFAULT_GC_THRESHOLD_BITS,
            gc_interval: seconds(30),
        }
    }
}

/// A block's place, size, use and kind.
pub struct BlockView {
    pub address: usize,
    pub size: usize,
    pub allocated: bool,
    pub block_type: BlockType,
}

/// The view of a block.
pub open spec fn block_view(b: MemoryBlock) -> BlockView {
    BlockView { address: b.address, size: b.size, allocated: b.allocated, block_type: b.block_type }
}

/// The views of blocks.
pub open spec fn blocks_view(s: Seq<MemoryBlock>) -> Seq<BlockView> {
    s.map_values(|b: MemoryBlock| block_view(b))
}

/// The counters of a pool's statistics.
pub struct Counts {
    pub total_allocated: usize,
    pub total_free: usize,
    pub allocated_blocks: usize,
    pub free_blocks: usize,
}

/// The pool's size as its counters add up: allocated plus free bytes.
pub open spec fn pool_size(c: Counts) -> usize {
    wrapping_add(c.total_allocated, c.total_free)
}

/// The counters of statistics.
pub open spec fn counts_of(s: MemoryStats) -> Counts {
    Counts {
        total_allocated: s.total_allocated,
        total_free: s.total_free,
        allocated_blocks: s.allocated_blocks,
        free_blocks: s.free_blocks,
    }
}

/// The state of a pool: its blocks, the free list (indices of blocks), the
/// allocated blocks by address, and its counters.
pub struct PoolView {
    pub blocks: Seq<BlockView>,
    pub free: Seq<usize>,
    pub allocated: Map<u64, usize>,
    pub counts: Counts,
}

/// The sizes of the blocks on the free list, in list order.
pub open spec fn free_sizes(p: PoolView) -> Seq<usize> {
    p.free.map_values(|i: usize| p.blocks[i as int].size)
}

/// The `size` rounded up to a multiple of 8.
pub open spec fn aligned_size(size: usize) -> int {
    (size + 7) / 8 * 8
}

/// Among the first `n` free blocks, the first one of at least `need` bytes.
pub open spec fn first_fit(sizes: Seq<usize>, need: usize, n: int) -> Option<int>
    decreases n,
{
    if n <= 0 {
        None
    } else {
        match first_fit(sizes, need, n - 1) {
            Some(i) => Some(i),
            None => if sizes[n - 1] >= need { Some(n - 1) } else { None },
        }
    }
}

/// Among the first `n` free blocks, the first of the smallest of at least
/// `need` bytes (a block of `usize::MAX` bytes is never picked).
pub open spec fn best_fit(sizes: Seq<usize>, need: usize, n: int) -> Option<int>
    decreases n,
{
    if n <= 0 {
        None
    } else {
        let prev = best_fit(sizes, need, n - 1);
        let bound = match prev {
            Some(i) => sizes[i],
            None => usize::MAX,
        };
        if sizes[n - 1] >= need && sizes[n - 1] < bound {
            Some(n - 1)
        } else {
            prev
        }
    }
}

/// Among the first `n` free blocks, the first of the largest of at least
/// `need` bytes.
pub open spec fn worst_fit(sizes: Seq<usize>, need: usize, n: int) -> Option<int>
    decreases n,
{
    if n <= 0 {
        None
    } else {
        let prev = worst_fit(sizes, need, n - 1);
        let bound = match prev {
            Some(i) => sizes[i],
            None => 0,
        };
        if sizes[n - 1] >= need && sizes[n - 1] > bound {
            Some(n - 1)
        } else {
            prev
        }
    }
}

/// The free-list position the strategy picks for `need` bytes.
pub open spec fn pick(p: PoolView, strategy: AllocationStrategy, need: usize) -> Option<int> {
    let sizes = free_sizes(p);
    match strategy {
        AllocationStrategy::BestFit => best_fit(sizes, need, sizes.len() as int),
        AllocationStrategy::WorstFit => worst_fit(sizes, need, sizes.len() as int),
        _ => first_fit(sizes, need, sizes.len() as int),
    }
}

/// The pool once the free block at list position `i` serves `need` bytes of
/// kind `t`: handed out whole when it is exactly that size, else split, its
/// remainder becoming a new free block in its place on the list.
pub open spec fn take_block(p: PoolView, i: int, need: usize, t: BlockType) -> PoolView {
    let idx = p.free[i];
    let b = p.blocks[idx as int];
    let c = p.counts;
    if b.size == need {
        PoolView {
            blocks: p.blocks.update(idx as int, BlockView { allocated: true, block_type: t, ..b }),
            free: p.free.remove(i),
            allocated: p.allocated.insert(b.address as u64, idx),
            counts: Counts {
                total_allocated: wrapping_add(c.total_allocated, need),
                total_free: wrapping_sub(c.total_free, need),
                allocated_blocks: wrapping_add(c.allocated_blocks, 1),
                free_blocks: wrapping_sub(c.free_blocks, 1),
            },
        }
    } else {
        PoolView {
            blocks: p.blocks.update(idx as int, BlockView { size: need, allocated: true, block_type: t, ..b }).push(
                BlockView {
                    address: wrapping_add(b.address, need),
                    size: (b.size - need) as usize,
                    allocated: false,
                    block_type: BlockType::Temporary,
                },
            ),
            free: p.free.update(i, p.blocks.len() as usize),
            allocated: p.allocated.insert(b.address as u64, idx),
            counts: Counts {
                total_allocated: wrapping_add(c.total_allocated, need),
                total_free: wrapping_sub(c.total_free, need),
                allocated_blocks: wrapping_add(c.allocated_blocks, 1),
                free_blocks: c.free_blocks,
            },
        }
    }
}

/// The pool grown by a free block of `extra` bytes at its end.
pub open spec fn grown(p: PoolView, extra: usize) -> PoolView {
    let end = wrapping_add(p.counts.total_allocated, p.counts.total_free);
    PoolView {
        blocks: p.blocks.push(BlockView { address: end, size: extra, allocated: false, block_type: BlockType::Temporary }),
        free: p.free.push(p.blocks.len() as usize),
        allocated: p.allocated,
        counts: Counts { total_free: wrapping_add(p.counts.total_free, extra), ..p.counts },
    }
}

/// Whether growing by `extra` bytes stays within `max` bytes.
pub open spec fn can_grow(p: PoolView, extra: usize, max: usize) -> bool {
    wrapping_add(wrapping_add(p.counts.total_allocated, p.counts.total_free), extra) <= max
}

/// Memory pool: address ranges handed out from a list of free blocks.
pub struct MemoryPool {
    config: MemoryPoolConfig,
    blocks: Vec<MemoryBlock>,
    free_blocks: VecDeque<usize>,
    allocated_blocks: IdMap<usize>,
    stats: MemoryStats,
}

impl MemoryPool {
    /// The pool's state.
    pub closed spec fn state(&self) -> PoolView {
        PoolView {
            blocks: blocks_view(self.blocks@),
            free: self.free_blocks@,
            allocated: self.allocated_blocks.map(),
            counts: counts_of(self.stats),
        }
    }

    /// The pool's configuration.
    pub closed spec fn config_view(&self) -> MemoryPoolConfig {
        self.config
    }

    /// Every listed block exists.
    pub closed spec fn wf(&self) -> bool {
        &&& forall|i: int| 0 <= i < self.free_blocks@.len() ==> #[trigger] self.free_blocks@[i] < self.blocks@.len()
        &&& forall|a: u64| #[trigger] self.allocated_blocks.map().contains_key(a) ==> self.allocated_blocks.map()[a]
            < self.blocks@.len()
    }

    /// A pool holding one free block of the configured initial size at
    /// address 0.
    pub fn new(config: MemoryPoolConfig) -> (r: Result<Self, Error>)
        ensures
            r matches Ok(p) && p.wf() && p.config_view() == config && p.state() == (PoolView {
                blocks: seq![BlockView { address: 0, size: config.initial_size, allocated: false, block_type: BlockType::Temporary }],
                free: seq![0usize],
                allocated: Map::empty(),
                counts: Counts { total_allocated: 0, total_free: config.initial_size, allocated_blocks: 0, free_blocks: 0 },
            }),
    {
        let initial = config.initial_size;
        let mut blocks: Vec<MemoryBlock> = Vec::new();
        blocks.push(MemoryBlock {
            address: 0,
            size: initial,
            allocated: false,
            ref_count: AtomicUsize::new(0),
            last_access: AtomicU64::new(0),
            block_type: BlockType::Temporary,
        });
        let mut free_blocks: VecDeque<usize> = VecDeque::new();
        free_blocks.push_back(0);
        let stats = MemoryStats {
            total_allocated: 0,
            total_free: initial,
            allocated_blocks: 0,
            free_blocks: 0,
            peak_usage: 0,
            gc_cycles: 0,
            last_gc: None,
        };
        let pool = MemoryPool { config, blocks, free_blocks, allocated_blocks: IdMap::new(), stats };
        proof {
            assert(pool.state().blocks =~= seq![BlockView { address: 0, size: initial, allocated: false, block_type: BlockType::Temporary }]);
            assert(pool.state().free =~= seq![0usize]);
        }
        Ok(pool)
    }

    /// Get memory statistics
    pub fn get_stats(&self) -> (s: MemoryStats)
        ensures
            counts_of(s) == self.state().counts,
    {
        MemoryStats {
            total_allocated: self.stats.total_allocated,
            total_free: self.stats.total_free,
            allocated_blocks: self.stats.allocated_blocks,
            free_blocks: self.stats.free_blocks,
            peak_usage: self.stats.peak_usage,
            gc_cycles: self.stats.gc_cycles,
            last_gc: self.stats.last_gc,
        }
    }
}

} // verus!

verus! {

proof fn lemma_first_fit_stays(sizes: Seq<usize>, need: usize, k: int, n: int)
    requires
        0 <= k <= n <= sizes.len(),
        first_fit(sizes, need, k) is Some,
    ensures
        first_fit(sizes, need, n) == first_fit(sizes, need, k),
    decreases n - k,
{
    if k < n {
        lemma_first_fit_stays(sizes, need, k, n - 1);
    }
}

proof fn lemma_prefix_picks(a: Seq<usize>, b: Seq<usize>, need: usize, n: int)
    requires
        0 <= n <= a.len(),
        n <= b.len(),
        forall|j: int| 0 <= j < n ==> a[j] == b[j],
    ensures
        first_fit(a, need, n) == first_fit(b, need, n),
        best_fit(a, need, n) == best_fit(b, need, n),
        worst_fit(a, need, n) == worst_fit(b, need, n),
    decreases n,
{
    if n > 0 {
        lemma_prefix_picks(a, b, need, n - 1);
        lemma_picks_fit(a, need, n - 1);
    }
}

/// An aligned request is a positive multiple of 8 below `usize::MAX`.
proof fn lemma_aligned(size: usize)
    requires
        0 < size,
        size + 7 <= usize::MAX,
    ensures
        8 <= aligned_size(size) <= size + 7,
        aligned_size(size) < usize::MAX,
        aligned_size(size) >= size,
{
    assert(usize::MAX == 0xffff_ffff || usize::MAX == 0xffff_ffff_ffff_ffff);
}

fn align_up(size: usize) -> (r: usize)
    requires
        size + 7 <= usize::MAX,
    ensures
        r == aligned_size(size),
{
    let x = size + 7;
    let r = x & !7usize;
    assert(r == x / 8 * 8) by (bit_vector)
        requires
            r == x & !7usize,
    ;
    r
}

fn current_nanos() -> (n: u64) {
    let start = instant_now();
    let d = instant_elapsed(&start);
    (duration_nanos(&d) % 0x1_0000_0000_0000_0000) as u64
}

impl MemoryPool {
    /// The free-list position the configured strategy picks for `need` bytes.
    fn pick_position(&self, need: usize) -> (r: Option<usize>)
        requires
            self.wf(),
        ensures
            match r {
                Some(i) => pick(self.state(), self.config.strategy, need) == Some(i as int) && i < self.state().free.len(),
                None => pick(self.state(), self.config.strategy, need) is None,
            },
    {
        let ghost sizes = free_sizes(self.state());
        let n = self.free_blocks.len();
        match self.config.strategy {
            AllocationStrategy::BestFit => {
                let mut best: Option<usize> = None;
                let mut best_size: usize = usize::MAX;
                let mut i: usize = 0;
                while i < n
                    invariant
                        self.wf(),
                        n == self.free_blocks@.len(),
                        sizes == free_sizes(self.state()),
                        i <= n,
                        match best {
                            Some(j) => best_fit(sizes, need, i as int) == Some(j as int) && j < n && best_size == sizes[j as int],
                            None => best_fit(sizes, need, i as int) is None && best_size == usize::MAX,
                        },
                    decreases n - i,
                {
                    let size = self.blocks[self.free_blocks[i]].size;
                    proof {
                        assert(sizes[i as int] == size);
                    }
                    if size >= need && size < best_size {
                        best = Some(i);
                        best_size = size;
                    }
                    i = i + 1;
                }
                best
            },
            AllocationStrategy::WorstFit => {
                let mut best: Option<usize> = None;
                let mut best_size: usize = 0;
                let mut i: usize = 0;
                while i < n
                    invariant
                        self.wf(),
                        n == self.free_blocks@.len(),
                        sizes == free_sizes(self.state()),
                        i <= n,
                        match best {
                            Some(j) => worst_fit(sizes, need, i as int) == Some(j as int) && j < n && best_size == sizes[j as int],
                            None => worst_fit(sizes, need, i as int) is None && best_size == 0,
                        },
                    decreases n - i,
                {
                    let size = self.blocks[self.free_blocks[i]].size;
                    proof {
                        assert(sizes[i as int] == size);
                    }
                    if size >= need && size > best_size {
                        best = Some(i);
                        best_size = size;
                    }
                    i = i + 1;
                }
                best
            },
            _ => {
                let mut i: usize = 0;
                proof {
                    assert(pick(self.state(), self.config.strategy, need) == first_fit(sizes, need, n as int));
                }
                while i < n
                    invariant
                        pick(self.state(), self.config.strategy, need) == first_fit(sizes, need, n as int),
                        self.wf(),
                        n == self.free_blocks@.len(),
                        sizes == free_sizes(self.state()),
                        i <= n,
                        first_fit(sizes, need, i as int) is None,
                    decreases n - i,
                {
                    let size = self.blocks[self.free_blocks[i]].size;
                    proof {
                        assert(sizes[i as int] == size);
                    }
                    if size >= need {
                        proof {
                            assert(first_fit(sizes, need, i as int + 1) == Some(i as int));
                            lemma_first_fit_stays(sizes, need, i as int + 1, n as int);
                            assert(sizes.len() == n);
                        }
                        return Some(i);
                    }
                    i = i + 1;
                }
                None
            },
        }
    }

    /// Serve `need` bytes of kind `t` from the free block at list position `i`.
    fn take(&mut self, i: usize, need: usize, t: BlockType) -> (address: usize)
        requires
            old(self).wf(),
            i < old(self).state().free.len(),
            old(self).state().blocks[old(self).state().free[i as int] as int].size >= need,
        ensures
            final(self).wf(),
            final(self).config_view() == old(self).config_view(),
            final(self).state() == take_block(old(self).state(), i as int, need, t),
            address == old(self).state().blocks[old(self).state().free[i as int] as int].address,
    {
        let ghost p = self.state();
        let idx = self.free_blocks[i];
        let address = self.blocks[idx].address;
        let size = self.blocks[idx].size;
        let kind_before = self.blocks[idx].block_type;
        let now = current_nanos();
        proof {
            assert(p.blocks[idx as int] == block_view(self.blocks@[idx as int]));
        }
        if size == need {
            self.blocks.set(
                idx,
                MemoryBlock {
                    address,
                    size,
                    allocated: true,
                    ref_count: AtomicUsize::new(1),
                    last_access: AtomicU64::new(now),
                    block_type: t,
                },
            );
            self.free_blocks.remove(i);
            self.allocated_blocks.insert(address as u64, idx);
            self.stats.total_allocated = self.stats.total_allocated.wrapping_add(need);
            self.stats.total_free = self.stats.total_free.wrapping_sub(need);
            self.stats.allocated_blocks = self.stats.allocated_blocks.wrapping_add(1);
            self.stats.free_blocks = self.stats.free_blocks.wrapping_sub(1);
            proof {
                assert(self.state().blocks =~= take_block(p, i as int, need, t).blocks);
                assert(self.state().free =~= take_block(p, i as int, need, t).free);
            }
        } else {
            let new_idx = self.blocks.len();
            self.blocks.set(
                idx,
                MemoryBlock {
                    address,
                    size: need,
                    allocated: true,
                    ref_count: AtomicUsize::new(1),
                    last_access: AtomicU64::new(now),
                    block_type: t,
                },
            );
            self.blocks.push(
                MemoryBlock {
                    address: address.wrapping_add(need),
                    size: size - need,
                    allocated: false,
                    ref_count: AtomicUsize::new(0),
                    last_access: AtomicU64::new(0),
                    block_type: BlockType::Temporary,
                },
            );
            self.free_blocks.remove(i);
            self.free_blocks.insert(i, new_idx);
            self.allocated_blocks.insert(address as u64, idx);
            self.stats.total_allocated = self.stats.total_allocated.wrapping_add(need);
            self.stats.total_free = self.stats.total_free.wrapping_sub(need);
            self.stats.allocated_blocks = self.stats.allocated_blocks.wrapping_add(1);
            proof {
                assert(self.state().blocks =~= take_block(p, i as int, need, t).blocks);
                assert(self.state().free =~= take_block(p, i as int, need, t).free);
            }
        }
        address
    }

    /// Grow the pool by a free block of `extra` bytes at its end, unless that
    /// passes the configured maximum.
    fn expand_pool(&mut self, extra: usize) -> (r: Result<(), Error>)
        requires
            old(self).wf(),
        ensures
            final(self).wf(),
            final(self).config_view() == old(self).config_view(),
            can_grow(old(self).state(), extra, old(self).config_view().max_size) ==> r is Ok && final(self).state()
                == grown(old(self).state(), extra),
            !can_grow(old(self).state(), extra, old(self).config_view().max_size) ==> final(self).state() == old(
                self,
            ).state() && (r matches Err(Error::OutOfMemory(m)) && m@ == "Pool size limit exceeded"@),
    {
        let ghost p = self.state();
        let current_size = self.stats.total_allocated.wrapping_add(self.stats.total_free);
        let new_size = current_size.wrapping_add(extra);
        if new_size > self.config.max_size {
            return Err(Error::OutOfMemory(String::from_str("Pool size limit exceeded")));
        }
        let block_idx = self.blocks.len();
        self.blocks.push(
            MemoryBlock {
                address: current_size,
                size: extra,
                allocated: false,
                ref_count: AtomicUsize::new(0),
                last_access: AtomicU64::new(0),
                block_type: BlockType::Temporary,
            },
        );
        self.free_blocks.push_back(block_idx);
        self.stats.total_free = self.stats.total_free.wrapping_add(extra);
        proof {
            assert(self.state().blocks =~= grown(p, extra).blocks);
            assert(self.state().free =~= grown(p, extra).free);
        }
        Ok(())
    }

    /// Allocate `size` bytes (rounded up to a multiple of 8) of kind
    /// `block_type` with the configured strategy, growing the pool by the
    /// rounded size when no free block is large enough; returns the address.
    pub fn allocate(&mut self, size: usize, block_type: BlockType) -> (r: Result<usize, Error>)
        requires
            old(self).wf(),
            size + 7 <= usize::MAX,
        ensures
            final(self).wf(),
            final(self).config_view() == old(self).config_view(),
            size == 0 ==> final(self).state() == old(self).state() && (r matches Err(Error::InvalidInput(m)) && m@
                == "Cannot allocate zero bytes"@),
            size > 0 ==> ({
                let need = aligned_size(size) as usize;
                let p = old(self).state();
                let strategy = old(self).config_view().strategy;
                match pick(p, strategy, need) {
                    Some(i) => r == Ok::<usize, Error>(p.blocks[p.free[i] as int].address) && final(self).state()
                        == take_block(p, i, need, block_type),
                    None => if can_grow(p, need, old(self).config_view().max_size) {
                        let g = grown(p, need);
                        match pick(g, strategy, need) {
                            Some(j) => r == Ok::<usize, Error>(g.blocks[g.free[j] as int].address) && final(self).state()
                                == take_block(g, j, need, block_type),
                            None => false,
                        }
                    } else {
                        final(self).state() == p && (r matches Err(Error::OutOfMemory(m)) && m@
                            == "Pool size limit exceeded"@)
                    },
                }
            }),
    {
        if size == 0 {
            return Err(Error::InvalidInput(String::from_str("Cannot allocate zero bytes")));
        }
        proof {
            lemma_aligned(size);
        }
        let need = align_up(size);
        match self.pick_position(need) {
            Some(i) => {
                proof {
                    self.lemma_pick_fits(self.config.strategy, need, i as int);
                }
                let address = self.take(i, need, block_type);
                Ok(address)
            },
            None => {
                let ghost p = self.state();
                let block_count = self.blocks.len();
                proof {
                    assert(p.blocks.len() == block_count);
                }
                match self.expand_pool(need) {
                    Err(e) => Err(e),
                    Ok(()) => {
                        proof {
                            let g = self.state();
                            let n = p.free.len() as int;
                            assert forall|j: int| 0 <= j < n implies free_sizes(p)[j] == free_sizes(g)[j] by {
                                assert(p.free[j] < p.blocks.len());
                            }
                            lemma_prefix_picks(free_sizes(p), free_sizes(g), need, n);
                            assert(g == grown(p, need));
                            assert(g.free[n] == block_count);
                            assert(g.blocks[block_count as int].size == need);
                            assert(free_sizes(g)[n] == need);
                        }
                        match self.pick_position(need) {
                            Some(j) => {
                                proof {
                                    self.lemma_pick_fits(self.config.strategy, need, j as int);
                                }
                                let address = self.take(j, need, block_type);
                                Ok(address)
                            },
                            None => Err(Error::OutOfMemory(String::from_str("Pool size limit exceeded"))),
                        }
                    },
                }
            },
        }
    }

    /// A picked block is large enough.
    proof fn lemma_pick_fits(&self, strategy: AllocationStrategy, need: usize, i: int)
        requires
            self.wf(),
            pick(self.state(), strategy, need) == Some(i),
        ensures
            0 <= i < self.state().free.len(),
            self.state().blocks[self.state().free[i] as int].size >= need,
    {
        let sizes = free_sizes(self.state());
        lemma_picks_fit(sizes, need, sizes.len() as int);
        assert(self.state().free[i] < self.state().blocks.len());
    }
}

proof fn lemma_picks_fit(sizes: Seq<usize>, need: usize, n: int)
    requires
        0 <= n <= sizes.len(),
    ensures
        first_fit(sizes, need, n) matches Some(i) ==> 0 <= i < n && sizes[i] >= need,
        best_fit(sizes, need, n) matches Some(i) ==> 0 <= i < n && sizes[i] >= need,
        worst_fit(sizes, need, n) matches Some(i) ==> 0 <= i < n && sizes[i] >= need,
    decreases n,
{
    if n > 0 {
        lemma_picks_fit(sizes, need, n - 1);
    }
}

} // verus!

verus! {

/// The pool once the allocated block `idx` at address `a` is released: marked
/// free, put last on the free list, forgotten by address, and counted.
pub open spec fn released(p: PoolView, a: u64, idx: usize) -> PoolView {
    let b = p.blocks[idx as int];
    let c = p.counts;
    PoolView {
        blocks: p.blocks.update(idx as int, BlockView { allocated: false, ..b }),
        free: p.free.push(idx),
        allocated: p.allocated.remove(a),
        counts: Counts {
            total_allocated: wrapping_sub(c.total_allocated, b.size),
            total_free: wrapping_add(c.total_free, b.size),
            allocated_blocks: wrapping_sub(c.allocated_blocks, 1),
            free_blocks: wrapping_add(c.free_blocks, 1),
        },
    }
}

/// Among the first `n` free-list entries other than `idx`, the last block
/// ending where block `idx` starts.
pub open spec fn prev_neighbour(p: PoolView, idx: usize, n: int) -> Option<usize>
    decreases n,
{
    if n <= 0 {
        None
    } else {
        let f = p.free[n - 1];
        let b = p.blocks[f as int];
        if f != idx && wrapping_add(b.address, b.size) == p.blocks[idx as int].address {
            Some(f)
        } else {
            prev_neighbour(p, idx, n - 1)
        }
    }
}

/// Among the first `n` free-list entries other than `idx`, the last block
/// starting where block `idx` ends (and not ending where it starts).
pub open spec fn next_neighbour(p: PoolView, idx: usize, n: int) -> Option<usize>
    decreases n,
{
    if n <= 0 {
        None
    } else {
        let f = p.free[n - 1];
        let b = p.blocks[f as int];
        let me = p.blocks[idx as int];
        if f != idx && wrapping_add(b.address, b.size) != me.address && wrapping_add(me.address, me.size)
            == b.address {
            Some(f)
        } else {
            next_neighbour(p, idx, n - 1)
        }
    }
}

/// The free list without the entries `x`.
pub open spec fn without_entry(free: Seq<usize>, x: usize) -> Seq<usize> {
    free.filter(|f: usize| f != x)
}

/// The pool once block `idx` is merged with its free neighbours: a block
/// ending at its start grows by its size and `idx` leaves the free list; a
/// block starting at its end lends `idx` its size and leaves the free list.
pub open spec fn coalesced(p: PoolView, idx: usize) -> PoolView {
    let size = p.blocks[idx as int].size;
    let prev = prev_neighbour(p, idx, p.free.len() as int);
    let next = next_neighbour(p, idx, p.free.len() as int);
    let q = match prev {
        Some(pi) => PoolView {
            blocks: p.blocks.update(pi as int, BlockView { size: wrapping_add(p.blocks[pi as int].size, size), ..p.blocks[pi as int] }),
            free: without_entry(p.free, idx),
            counts: Counts { free_blocks: wrapping_sub(p.counts.free_blocks, 1), ..p.counts },
            ..p
        },
        None => p,
    };
    match next {
        Some(ni) => PoolView {
            blocks: q.blocks.update(
                idx as int,
                BlockView { size: wrapping_add(q.blocks[idx as int].size, q.blocks[ni as int].size), ..q.blocks[idx as int] },
            ),
            free: without_entry(q.free, ni),
            counts: Counts { free_blocks: wrapping_sub(q.counts.free_blocks, 1), ..q.counts },
            ..q
        },
        None => q,
    }
}

fn drop_entry(free: &VecDeque<usize>, x: usize) -> (r: VecDeque<usize>)
    ensures
        r@ == without_entry(free@, x),
{
    let mut out: VecDeque<usize> = VecDeque::new();
    let mut i: usize = 0;
    while i < free.len()
        invariant
            i <= free@.len(),
            out@ == without_entry(free@.take(i as int), x),
        decreases free@.len() - i,
    {
        let f = free[i];
        proof {
            assert(free@.take(i as int + 1).drop_last() =~= free@.take(i as int));
            assert(free@.take(i as int + 1).last() == f);
            reveal(Seq::filter);
        }
        if f != x {
            out.push_back(f);
        }
        i = i + 1;
    }
    proof {
        assert(free@.take(i as int) =~= free@);
    }
    out
}

proof fn lemma_without_entry_bounded(free: Seq<usize>, x: usize, bound: nat)
    requires
        forall|i: int| 0 <= i < free.len() ==> #[trigger] free[i] < bound,
    ensures
        forall|i: int| 0 <= i < without_entry(free, x).len() ==> #[trigger] without_entry(free, x)[i] < bound,
    decreases free.len(),
{
    reveal(Seq::filter);
    if free.len() > 0 {
        let rest = free.drop_last();
        assert forall|i: int| 0 <= i < rest.len() implies #[trigger] rest[i] < bound by {
            assert(rest[i] == free[i]);
        }
        lemma_without_entry_bounded(rest, x, bound);
        assert(free.last() == free[free.len() - 1]);
        let w = without_entry(free, x);
        let v = without_entry(rest, x);
        if free.last() != x {
            assert(w == v.push(free.last()));
            assert forall|i: int| 0 <= i < w.len() implies #[trigger] w[i] < bound by {
                if i < v.len() {
                    assert(w[i] == v[i]);
                }
            }
        } else {
            assert(w == v);
        }
    }
}

impl MemoryPool {
    fn coalesce_blocks(&mut self, block_idx: usize)
        requires
            old(self).wf(),
            block_idx < old(self).state().blocks.len(),
        ensures
            final(self).wf(),
            final(self).config_view() == old(self).config_view(),
            final(self).state() == coalesced(old(self).state(), block_idx),
    {
        let ghost p = self.state();
        let address = self.blocks[block_idx].address;
        let size = self.blocks[block_idx].size;
        let mut prev: Option<usize> = None;
        let mut next: Option<usize> = None;
        let n = self.free_blocks.len();
        let mut i: usize = 0;
        while i < n
            invariant
                self.wf(),
                p == self.state(),
                n == p.free.len(),
                block_idx < p.blocks.len(),
                address == p.blocks[block_idx as int].address,
                size == p.blocks[block_idx as int].size,
                i <= n,
                prev == prev_neighbour(p, block_idx, i as int),
                next == next_neighbour(p, block_idx, i as int),
            decreases n - i,
        {
            let f = self.free_blocks[i];
            if f != block_idx {
                let fa = self.blocks[f].address;
                let fs = self.blocks[f].size;
                if fa.wrapping_add(fs) == address {
                    prev = Some(f);
                } else if address.wrapping_add(size) == fa {
                    next = Some(f);
                }
            }
            i = i + 1;
        }
        match prev {
            Some(pi) => {
                proof {
                    lemma_neighbours_listed(p, block_idx, n as int);
                }
                let grown = self.blocks[pi].size.wrapping_add(size);
                self.blocks[pi].size = grown;
                let kept = drop_entry(&self.free_blocks, block_idx);
                self.free_blocks = kept;
                self.stats.free_blocks = self.stats.free_blocks.wrapping_sub(1);
                proof {
                    lemma_without_entry_bounded(p.free, block_idx, p.blocks.len());
                    assert(self.state().blocks =~= p.blocks.update(pi as int, BlockView { size: grown, ..p.blocks[pi as int] }));
                }
            },
            None => {},
        }
        let ghost q = self.state();
        match next {
            Some(ni) => {
                proof {
                    lemma_neighbours_listed(p, block_idx, n as int);
                }
                let next_size = self.blocks[ni].size;
                let grown = self.blocks[block_idx].size.wrapping_add(next_size);
                self.blocks[block_idx].size = grown;
                let kept = drop_entry(&self.free_blocks, ni);
                self.free_blocks = kept;
                self.stats.free_blocks = self.stats.free_blocks.wrapping_sub(1);
                proof {
                    lemma_without_entry_bounded(q.free, ni, q.blocks.len());
                    assert(self.state().blocks =~= q.blocks.update(
                        block_idx as int,
                        BlockView { size: grown, ..q.blocks[block_idx as int] },
                    ));
                }
            },
            None => {},
        }
    }

    /// Give back the block at `address`; refused for an address that is not
    /// allocated. The freed block is merged with free neighbours.
    pub fn deallocate(&mut self, address: usize) -> (r: Result<(), Error>)
        requires
            old(self).wf(),
        ensures
            final(self).wf(),
            final(self).config_view() == old(self).config_view(),
            ({
                let p = old(self).state();
                let a = address as u64;
                if !p.allocated.contains_key(a) {
                    final(self).state() == p && (r matches Err(Error::InvalidInput(m)) && m@
                        == "Address not found in allocated blocks"@)
                } else if !p.blocks[p.allocated[a] as int].allocated {
                    final(self).state() == p && (r matches Err(Error::InvalidInput(m)) && m@ == "Block already deallocated"@)
                } else {
                    r is Ok && final(self).state() == coalesced(released(p, a, p.allocated[a]), p.allocated[a])
                }
            }),
    {
        let ghost p = self.state();
        let block_idx = match self.allocated_blocks.get(address as u64) {
            Some(i) => *i,
            None => {
                return Err(Error::InvalidInput(String::from_str("Address not found in allocated blocks")));
            },
        };
        if !self.blocks[block_idx].allocated {
            return Err(Error::InvalidInput(String::from_str("Block already deallocated")));
        }
        let size = self.blocks[block_idx].size;
        self.blocks[block_idx].allocated = false;
        release_references(&self.blocks[block_idx]);
        self.free_blocks.push_back(block_idx);
        self.stats.total_allocated = self.stats.total_allocated.wrapping_sub(size);
        self.stats.total_free = self.stats.total_free.wrapping_add(size);
        self.stats.allocated_blocks = self.stats.allocated_blocks.wrapping_sub(1);
        self.stats.free_blocks = self.stats.free_blocks.wrapping_add(1);
        self.allocated_blocks.remove(address as u64);
        proof {
            let a = address as u64;
            assert(self.state().blocks =~= released(p, a, block_idx).blocks);
            assert(self.state().free =~= released(p, a, block_idx).free);
        }
        self.coalesce_blocks(block_idx);
        Ok(())
    }
}

proof fn lemma_neighbours_listed(p: PoolView, idx: usize, n: int)
    requires
        0 <= n <= p.free.len(),
        forall|i: int| 0 <= i < p.free.len() ==> #[trigger] p.free[i] < p.blocks.len(),
    ensures
        prev_neighbour(p, idx, n) matches Some(f) ==> f < p.blocks.len(),
        next_neighbour(p, idx, n) matches Some(f) ==> f < p.blocks.len(),
    decreases n,
{
    if n > 0 {
        lemma_neighbours_listed(p, idx, n - 1);
        assert(p.free[n - 1] < p.blocks.len());
    }
}

} // verus!

verus! {

/// Drop a block's references (its count goes to 0).
fn release_references(b: &MemoryBlock) {
    b.ref_count.store(0, Ordering::SeqCst);
}

} // verus!

verus! {

/// The items of `s` whose flag in `picked` is set, in order.
pub open spec fn select(s: Seq<u64>, picked: Seq<bool>) -> Seq<u64>
    decreases s.len(),
{
    if s.len() == 0 || picked.len() == 0 {
        Seq::empty()
    } else if picked.last() {
        select(s.drop_last(), picked.drop_last()).push(s.last())
    } else {
        select(s.drop_last(), picked.drop_last())
    }
}

/// For each reference count, whether it is 0 (the block is unreferenced).
pub open spec fn unreferenced_flags(counts: Seq<usize>) -> Seq<bool> {
    counts.map_values(|c: usize| c == 0)
}

/// The pool once each address of `addrs` still allocated is released, in order.
pub open spec fn collected(p: PoolView, addrs: Seq<u64>) -> PoolView
    decreases addrs.len(),
{
    if addrs.len() == 0 {
        p
    } else {
        let q = collected(p, addrs.drop_last());
        let a = addrs.last();
        if q.allocated.contains_key(a) {
            released(q, a, q.allocated[a])
        } else {
            q
        }
    }
}

/// The reference count of a block, read atomically.
fn reference_count(b: &MemoryBlock) -> usize {
    b.ref_count.load(Ordering::SeqCst)
}

impl MemoryPool {
    /// Address order of the allocated blocks.
    pub closed spec fn allocated_order(&self) -> Seq<u64> {
        self.allocated_blocks.key_seq()
    }

    /// Garbage collection: read the reference count of every allocated block
    /// (in address-insertion order) and release, without merging, each block
    /// whose count reads 0. The counts are atomics, so what was read is
    /// stated as some list of counts, one per allocated block; what is done
    /// with them is `release_unreferenced`.
    pub fn perform_gc(&mut self)
        requires
            old(self).wf(),
        ensures
            final(self).wf(),
            final(self).config_view() == old(self).config_view(),
            exists|counts: Seq<usize>|
                counts.len() == old(self).allocated_order().len() && final(self).state() == collected(
                    old(self).state(),
                    #[trigger] select(old(self).allocated_order(), unreferenced_flags(counts)),
                ),
            final(self).gc_count() == (old(self).gc_count() + 1) % 0x1_0000_0000_0000_0000,
            final(self).last_collection() is Some,
    {
        let n = self.allocated_blocks.len();
        let mut counts: Vec<usize> = Vec::new();
        let mut i: usize = 0;
        while i < n
            invariant
                self.wf(),
                n == self.allocated_blocks.key_seq().len(),
                i <= n,
                counts@.len() == i,
            decreases n - i,
        {
            let (_a, idx) = self.allocated_blocks.entry_at(i);
            let idx = *idx;
            counts.push(reference_count(&self.blocks[idx]));
            i = i + 1;
        }
        let ghost order = self.allocated_order();
        let ghost p = self.state();
        self.release_unreferenced(&counts);
        self.stats.gc_cycles = self.stats.gc_cycles.wrapping_add(1);
        self.stats.last_gc = Some(instant_now());
        proof {
            assert(self.state() == collected(p, select(order, unreferenced_flags(counts@))));
        }
    }

    /// Release, without merging, every allocated block whose reference count
    /// in `counts` is 0; `counts` holds one count per allocated block, in
    /// address-insertion order.
    pub fn release_unreferenced(&mut self, counts: &Vec<usize>)
        requires
            old(self).wf(),
            counts@.len() == old(self).allocated_order().len(),
        ensures
            final(self).wf(),
            final(self).config_view() == old(self).config_view(),
            final(self).state() == collected(
                old(self).state(),
                select(old(self).allocated_order(), unreferenced_flags(counts@)),
            ),
            final(self).gc_count() == old(self).gc_count(),
            final(self).last_collection() == old(self).last_collection(),
    {
        let ghost p = self.state();
        let ghost keys = self.allocated_blocks.key_seq();
        let ghost flags = unreferenced_flags(counts@);
        let n = self.allocated_blocks.len();
        let mut unreferenced: Vec<u64> = Vec::new();
        let mut i: usize = 0;
        while i < n
            invariant
                self.wf(),
                p == self.state(),
                keys == self.allocated_blocks.key_seq(),
                n == keys.len(),
                counts@.len() == n,
                flags == unreferenced_flags(counts@),
                i <= n,
                unreferenced@ == select(keys.take(i as int), flags.take(i as int)),
            decreases n - i,
        {
            let (a, _idx) = self.allocated_blocks.entry_at(i);
            proof {
                assert(keys.take(i as int + 1).drop_last() =~= keys.take(i as int));
                assert(keys.take(i as int + 1).last() == a);
                assert(flags.take(i as int + 1).drop_last() =~= flags.take(i as int));
                assert(flags.take(i as int + 1).last() == (counts@[i as int] == 0));
            }
            if counts[i] == 0 {
                unreferenced.push(a);
            }
            i = i + 1;
        }
        proof {
            assert(keys.take(i as int) =~= keys);
            assert(flags.take(i as int) =~= flags);
        }
        let ghost chosen = unreferenced@;
        let mut j: usize = 0;
        while j < unreferenced.len()
            invariant
                self.wf(),
                self.config == old(self).config,
                chosen == unreferenced@,
                j <= chosen.len(),
                self.state() == collected(p, chosen.take(j as int)),
                self.stats.gc_cycles == old(self).stats.gc_cycles,
                self.stats.last_gc == old(self).stats.last_gc,
            decreases chosen.len() - j,
        {
            let a = unreferenced[j];
            let ghost q = self.state();
            proof {
                assert(chosen.take(j as int + 1).drop_last() =~= chosen.take(j as int));
                assert(chosen.take(j as int + 1).last() == a);
            }
            match self.allocated_blocks.get(a) {
                Some(idx) => {
                    let block_idx = *idx;
                    let size = self.blocks[block_idx].size;
                    self.blocks[block_idx].allocated = false;
                    release_references(&self.blocks[block_idx]);
                    self.free_blocks.push_back(block_idx);
                    self.stats.total_allocated = self.stats.total_allocated.wrapping_sub(size);
                    self.stats.total_free = self.stats.total_free.wrapping_add(size);
                    self.stats.allocated_blocks = self.stats.allocated_blocks.wrapping_sub(1);
                    self.stats.free_blocks = self.stats.free_blocks.wrapping_add(1);
                    self.allocated_blocks.remove(a);
                    proof {
                        assert(self.state().blocks =~= released(q, a, block_idx).blocks);
                        assert(self.state().free =~= released(q, a, block_idx).free);
                    }
                },
                None => {},
            }
            j = j + 1;
        }
        proof {
            assert(chosen.take(j as int) =~= chosen);
        }
    }

    /// Collection cycles performed.
    pub closed spec fn gc_count(&self) -> u64 {
        self.stats.gc_cycles
    }

    /// When the last collection ran.
    pub closed spec fn last_collection(&self) -> Option<Instant> {
        self.stats.last_gc
    }
}

} // verus!
