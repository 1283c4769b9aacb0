//! Chunk meshes as plain vertex and index lists.
use vstd::prelude::*;
use crate::data_mesh_builder::GridVertex;

pub mod chunk_mesh_ops;

verus! {

/// Data structure for chunk mesh - no methods, following DOP
#[derive(Debug)]
pub struct ChunkMesh {
    pub vertices: Vec<GridVertex>,
    pub indices: Vec<u32>,
}

} // verus!
