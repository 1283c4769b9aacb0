//! Counters read back from the GPU culling pass.
use vstd::prelude::*;

verus! {

/// Culling statistics for debugging
#[derive(Debug, Clone, Copy, PartialEq, Eq, Structural)]
pub struct CullingStats {
    pub total_tested: u32,
    pub frustum_culled: u32,
    pub distance_culled: u32,
    pub drawn: u32,
}

} // verus!
