//! Performance samples recorded per operation.
use vstd::prelude::*;

verus! {

/// Performance sample for a single operation
#[derive(Debug, Clone, Copy, PartialEq, Eq, Structural)]
pub struct PerformanceSample {
    pub operation_id: u32,
    pub _padding1: u32,
    pub start_time_us: u64,
    pub duration_us: u32,
    pub memory_allocated: u32,
    pub cache_misses: u32,
    pub gpu_time_us: u32,
    pub cpu_time_us: u32,
    pub throughput: u32,
}

} // verus!
