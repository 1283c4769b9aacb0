//! Estimated cache behaviour of memory access sequences: accesses within a
//! cache line of the previous one count as sequential, others as random
//! and as likely misses. Counters wrap around on overflow.
use vstd::prelude::*;
use crate::allocation_profiler::add_u64;
use crate::memory_profiler::{address_step_fits, signed_address, signed_address_exec};

verus! {

/// Cache line size on most modern CPUs
pub const CACHE_LINE_SIZE: usize = 64;

/// Profiler for tracking cache-related metrics
pub struct CacheProfiler {
    cache_misses: u64,
    sequential_accesses: u64,
    random_accesses: u64,
    bytes_accessed: u64,
}

/// The counters of a cache profiler.
#[derive(Debug, Clone, Copy, PartialEq, Eq, Structural)]
pub struct CacheCounters {
    pub cache_misses: u64,
    pub sequential_accesses: u64,
    pub random_accesses: u64,
    pub bytes_accessed: u64,
}

/// Distance between two addresses, each read as a signed 64-bit number.
pub open spec fn distance(a: usize, b: usize) -> int {
    let d = signed_address(a) - signed_address(b);
    if d < 0 {
        -d
    } else {
        d
    }
}

/// The address of element `i` of an array of `element_size` bytes at `base`.
pub open spec fn element_address(base: usize, element_size: usize, i: usize) -> int {
    base + i * element_size
}

/// The counters after an access of `size` bytes at `address`, after one at
/// `previous` if there was one.
pub open spec fn after_access(c: CacheCounters, address: usize, size: usize, previous: Option<usize>) -> CacheCounters {
    let c1 = CacheCounters { bytes_accessed: add_u64(c.bytes_accessed, size as u64), ..c };
    match previous {
        None => c1,
        Some(p) => if distance(address, p) <= CACHE_LINE_SIZE {
            CacheCounters { sequential_accesses: add_u64(c1.sequential_accesses, 1), ..c1 }
        } else {
            CacheCounters {
                random_accesses: add_u64(c1.random_accesses, 1),
                cache_misses: add_u64(c1.cache_misses, 1),
                ..c1
            }
        },
    }
}

/// The counters after accessing elements `indices` of `element_size` bytes
/// of an array at `base`, each access following the one before.
pub open spec fn after_array_access(c: CacheCounters, base: usize, element_size: usize, indices: Seq<usize>) -> CacheCounters
    decreases indices.len(),
{
    if indices.len() == 0 {
        c
    } else {
        let k = indices.len() - 1;
        let prev = if k == 0 { None } else { Some((base + indices[k - 1] * element_size) as usize) };
        after_access(
            after_array_access(c, base, element_size, indices.drop_last()),
            (base + indices[k] * element_size) as usize,
            element_size,
            prev,
        )
    }
}

impl CacheProfiler {
    pub closed spec fn counters(&self) -> CacheCounters {
        CacheCounters {
            cache_misses: self.cache_misses,
            sequential_accesses: self.sequential_accesses,
            random_accesses: self.random_accesses,
            bytes_accessed: self.bytes_accessed,
        }
    }

    pub fn new() -> (p: Self)
        ensures
            p.counters() == (CacheCounters { cache_misses: 0, sequential_accesses: 0, random_accesses: 0, bytes_accessed: 0 }),
    {
        Self { cache_misses: 0, sequential_accesses: 0, random_accesses: 0, bytes_accessed: 0 }
    }

    /// The current counters.
    pub fn stats(&self) -> (c: CacheCounters)
        ensures
            c == self.counters(),
    {
        CacheCounters {
            cache_misses: self.cache_misses,
            sequential_accesses: self.sequential_accesses,
            random_accesses: self.random_accesses,
            bytes_accessed: self.bytes_accessed,
        }
    }

    /// Record a memory access pattern
    pub fn record_access(&mut self, address: usize, size: usize, previous_address: Option<usize>)
        requires
            previous_address matches Some(p) ==> address_step_fits(address, p),
        ensures
            final(self).counters() == after_access(old(self).counters(), address, size, previous_address),
    {
        self.bytes_accessed = self.bytes_accessed.wrapping_add(size as u64);
        if let Some(prev) = previous_address {
            let diff: i64 = signed_address_exec(address) - signed_address_exec(prev);
            let m: i64 = if diff < 0 { 0 - diff } else { diff };
            assert(m <= usize::MAX) by {
                if usize::MAX < i64::MAX {
                    assert(address <= i64::MAX && prev <= i64::MAX);
                }
            }
            let distance: usize = m as usize;
            if distance <= CACHE_LINE_SIZE {
                self.sequential_accesses = self.sequential_accesses.wrapping_add(1);
            } else {
                self.random_accesses = self.random_accesses.wrapping_add(1);
                self.cache_misses = self.cache_misses.wrapping_add(1);
            }
        }
    }

    /// Analyze array access pattern: the array starts at `base_addr` and
    /// holds elements of `element_size` bytes; `indices` are visited in order.
    pub fn analyze_array_access(&mut self, base_addr: usize, element_size: usize, indices: &[usize])
        requires
            forall|k: int| 0 <= k < indices@.len() ==> element_address(base_addr, element_size, #[trigger] indices@[k]) <= usize::MAX,
            forall|k: int| 0 < k < indices@.len() ==> address_step_fits(
                element_address(base_addr, element_size, #[trigger] indices@[k]) as usize,
                element_address(base_addr, element_size, indices@[k - 1]) as usize,
            ),
        ensures
            final(self).counters() == after_array_access(old(self).counters(), base_addr, element_size, indices@),
    {
        let mut prev_addr: Option<usize> = None;
        let mut k: usize = 0;
        while k < indices.len()
            invariant
                k <= indices@.len(),
                forall|j: int| 0 <= j < indices@.len() ==> element_address(base_addr, element_size, #[trigger] indices@[j]) <= usize::MAX,
                forall|j: int| 0 < j < indices@.len() ==> address_step_fits(
                    element_address(base_addr, element_size, #[trigger] indices@[j]) as usize,
                    element_address(base_addr, element_size, indices@[j - 1]) as usize,
                ),
                self.counters() == after_array_access(old(self).counters(), base_addr, element_size, indices@.take(k as int)),
                prev_addr == if k == 0 { None } else { Some((base_addr + indices@[k - 1] * element_size) as usize) },
            decreases indices@.len() - k,
        {
            let index = indices[k];
            proof {
                assert(element_address(base_addr, element_size, indices@[k as int]) <= usize::MAX);
                if k > 0 {
                    assert(address_step_fits(
                        element_address(base_addr, element_size, indices@[k as int]) as usize,
                        element_address(base_addr, element_size, indices@[k - 1]) as usize,
                    ));
                }
                assert(index == indices@[k as int]);
                assert(0 <= indices@[k as int] * element_size) by (nonlinear_arith)
                    requires indices@[k as int] >= 0, element_size >= 0;
            }
            let addr = base_addr + index * element_size;
            self.record_access(addr, element_size, prev_addr);
            proof {
                assert(indices@.take(k + 1).drop_last() =~= indices@.take(k as int));
            }
            prev_addr = Some(addr);
            k = k + 1;
        }
        proof {
            assert(indices@.take(k as int) =~= indices@);
        }
    }
}

} // verus!
