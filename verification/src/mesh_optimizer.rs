//! Levels of detail and mesh statistics of the mesh optimizer.
use vstd::prelude::*;

verus! {

/// Level of detail enumeration
#[derive(Debug, Clone, Copy, PartialEq, Eq, Hash, Structural)]
pub enum MeshLod {
    Lod0,
    Lod1,
    Lod2,
    Lod3,
    Lod4,
}

/// Mesh statistics
#[derive(Debug, Clone, Copy, PartialEq, Eq, Structural)]
pub struct MeshStats {
    pub vertex_count: usize,
    pub triangle_count: usize,
    pub memory_usage: usize,
}

/// Mesh optimizer for generating LODs and optimizing mesh data
pub struct MeshOptimizer;

impl MeshOptimizer {
    pub fn new() -> (m: Self) {
        Self
    }
}

} // verus!
