//! Memory statistics of struct-of-arrays meshes.
use vstd::prelude::*;

verus! {

/// Memory used by a struct-of-arrays vertex buffer.
#[derive(Debug, Clone, Copy, PartialEq, Eq, Structural)]
pub struct VertexBufferStats {
    pub vertex_count: usize,
    pub total_size: usize,
}

#[derive(Debug, Clone, Copy, PartialEq, Eq, Structural)]
pub struct MeshStats {
    pub vertex_stats: VertexBufferStats,
    pub index_count: usize,
    pub index_size: usize,
    pub total_size: usize,
}

/// Bytes of one `u32` index.
pub const INDEX_BYTES: usize = 4;

/// Memory statistics of a mesh with these vertex statistics and
/// `index_count` 32-bit indices.
pub fn memory_stats(vertex_stats: VertexBufferStats, index_count: usize) -> (s: MeshStats)
    requires
        vertex_stats.total_size + index_count * INDEX_BYTES <= usize::MAX,
    ensures
        s.vertex_stats == vertex_stats,
        s.index_count == index_count,
        s.index_size == index_count * INDEX_BYTES,
        s.total_size == vertex_stats.total_size + index_count * INDEX_BYTES,
{
    let index_size = index_count * INDEX_BYTES;
    MeshStats { vertex_stats, index_count, index_size, total_size: vertex_stats.total_size + index_size }
}

} // verus!
