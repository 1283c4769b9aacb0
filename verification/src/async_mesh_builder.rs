//! Requests and results of asynchronous chunk meshing.
use vstd::prelude::*;
use crate::world::ChunkPos;

verus! {

/// Builds chunk meshes off the render thread.
pub struct AsyncMeshBuilder;

/// A chunk whose mesh is wanted.
pub struct MeshBuildRequest {
    pub chunk_pos: ChunkPos,
}

/// A mesh that finished building.
pub struct CompletedMesh;

/// Counters of the mesh builder.
pub struct MeshBuildStats;

impl AsyncMeshBuilder {
    pub fn new() -> (b: Self) {
        Self
    }
}

} // verus!
