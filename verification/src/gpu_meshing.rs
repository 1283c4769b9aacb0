//! Data shared with the GPU meshing compute pass.
use vstd::prelude::*;
use crate::world::ChunkPos;

verus! {

/// Mesh buffers the GPU meshing pass writes at once.
pub const MAX_CONCURRENT_MESHES: usize = 256;

/// Vertices one chunk mesh may hold.
pub const MAX_VERTICES_PER_CHUNK: usize = 65536;

/// Indices one chunk mesh may hold (1.5 times the vertices).
pub const MAX_INDICES_PER_CHUNK: usize = 98304;

/// Threads per workgroup (4x4x4 voxels).
pub const WORKGROUP_SIZE: u32 = 64;

/// One chunk to mesh, as the compute pass reads it.
#[derive(Debug, Clone, Copy, PartialEq, Eq)]
pub struct MeshRequest {
    /// Chunk position to mesh
    pub chunk_pos: [i32; 3],
    /// LOD level to generate
    pub lod_level: u32,
    /// Output buffer index
    pub buffer_index: u32,
    /// Mesh flags
    pub flags: u32,
    /// Padding
    pub _padding: [u32; 2],
}

/// Mesh metadata for GPU
#[derive(Debug, Clone, Copy, PartialEq, Eq)]
pub struct GpuMeshMetadata {
    pub chunk_pos: [i32; 3],
    pub vertex_count: u32,
    pub index_count: u32,
    pub lod_level: u32,
    pub flags: u32,
    pub timestamp: u32,
}

/// Indirect draw command for GPU-driven rendering
#[derive(Debug, Clone, Copy, PartialEq, Eq, Structural)]
pub struct IndirectDrawCommand {
    pub vertex_count: u32,
    pub instance_count: u32,
    pub first_vertex: u32,
    pub first_instance: u32,
}

/// Mesh generation parameters
#[derive(Debug, Clone, Copy, PartialEq, Eq)]
pub struct MeshingParams {
    pub chunk_size: u32,
    pub request_count: u32,
    pub enable_greedy: u32,
    pub enable_ao: u32,
    pub max_vertices: u32,
    pub max_indices: u32,
    pub _padding: [u32; 2],
}

/// Meshing statistics
#[derive(Debug, Clone, Copy, PartialEq, Eq, Structural)]
pub struct MeshingStats {
    pub total_meshes: u64,
    pub total_vertices: u64,
    pub total_indices: u64,
    /// Average mesh generation time (microseconds)
    pub avg_generation_time: u32,
}

impl Default for MeshingStats {
    fn default() -> (s: Self)
        ensures
            s == (MeshingStats { total_meshes: 0, total_vertices: 0, total_indices: 0, avg_generation_time: 0 }),
    {
        MeshingStats { total_meshes: 0, total_vertices: 0, total_indices: 0, avg_generation_time: 0 }
    }
}

/// Face direction for culling; the GPU sees it as its index.
#[derive(Debug, Clone, Copy, PartialEq, Eq, Structural)]
pub enum FaceDirection {
    PosX,
    NegX,
    PosY,
    NegY,
    PosZ,
    NegZ,
}

impl FaceDirection {
    /// The value the GPU uses for this direction, 0 to 5 in declaration order.
    pub fn index(&self) -> (i: u32)
        ensures
            i == match *self {
                FaceDirection::PosX => 0u32,
                FaceDirection::NegX => 1u32,
                FaceDirection::PosY => 2u32,
                FaceDirection::NegY => 3u32,
                FaceDirection::PosZ => 4u32,
                FaceDirection::NegZ => 5u32,
            },
    {
        match self {
            FaceDirection::PosX => 0,
            FaceDirection::NegX => 1,
            FaceDirection::PosY => 2,
            FaceDirection::NegY => 3,
            FaceDirection::PosZ => 4,
            FaceDirection::NegZ => 5,
        }
    }
}

/// Vertex data for GPU (packed)
#[derive(Debug, Clone, Copy, PartialEq, Eq, Structural)]
pub struct PackedVertex {
    /// Position and AO packed (x:10, y:10, z:10, ao:2)
    pub position_ao: u32,
    /// Normal and UV packed (nx:10, ny:10, u:6, v:6)
    pub normal_uv: u32,
    /// Color packed (r:8, g:8, b:8, light:8)
    pub color_light: u32,
}

/// Buffer allocation tracker
pub struct BufferAllocator {
    /// Which buffer slot each chunk's mesh uses, one pair per chunk
    pub allocated_buffers: Vec<(ChunkPos, u32)>,
    /// Free buffer indices; the last one is handed out next
    pub free_buffers: Vec<u32>,
}

/// No two chunks have an entry, no two entries share a slot, the free slots are
/// distinct, and no slot is both handed out and free.
pub open spec fn allocator_ok(allocated: Seq<(ChunkPos, u32)>, free: Seq<u32>) -> bool {
    &&& forall|i: int, j: int|
        0 <= i < allocated.len() && 0 <= j < allocated.len() && i != j ==> (#[trigger] allocated[i]).0
            != (#[trigger] allocated[j]).0
    &&& forall|i: int, j: int|
        0 <= i < allocated.len() && 0 <= j < allocated.len() && i != j ==> (#[trigger] allocated[i]).1
            != (#[trigger] allocated[j]).1
    &&& forall|i: int, j: int| 0 <= i < free.len() && 0 <= j < free.len() && i != j ==> free[i] != free[j]
    &&& forall|i: int, j: int| 0 <= i < allocated.len() && 0 <= j < free.len() ==> (#[trigger] allocated[i]).1 != #[trigger] free[j]
}

impl BufferAllocator {
    pub open spec fn wf(&self) -> bool {
        allocator_ok(self.allocated_buffers@, self.free_buffers@)
    }

    /// No slot handed out yet; slots `0..buffer_count` are free.
    pub fn new(buffer_count: u32) -> (a: Self)
        ensures
            a.wf(),
            a.allocated_buffers@.len() == 0,
            a.free_buffers@ == Seq::new(buffer_count as nat, |i: int| i as u32),
    {
        let mut free_buffers: Vec<u32> = Vec::new();
        let mut i: u32 = 0;
        while i < buffer_count
            invariant
                i <= buffer_count,
                free_buffers@ == Seq::new(i as nat, |k: int| k as u32),
            decreases buffer_count - i,
        {
            free_buffers.push(i);
            i = i + 1;
            proof {
                assert(free_buffers@ =~= Seq::new(i as nat, |k: int| k as u32));
            }
        }
        BufferAllocator { allocated_buffers: Vec::new(), free_buffers }
    }

    /// The slot of a chunk's mesh: the one it has, else the next free one, which
    /// it keeps from now on; `None` when it has none and none is free.
    pub fn allocate(&mut self, chunk_pos: ChunkPos) -> (slot: Option<u32>)
        requires
            old(self).wf(),
        ensures
            final(self).wf(),
            match slot {
                Some(s) => {
                    ||| exists|i: int|
                        0 <= i < old(self).allocated_buffers@.len() && (#[trigger] old(self).allocated_buffers@[i]).0
                            == chunk_pos && old(self).allocated_buffers@[i].1 == s && final(self).allocated_buffers@
                            == old(self).allocated_buffers@ && final(self).free_buffers@ == old(self).free_buffers@
                    ||| (forall|i: int|
                        0 <= i < old(self).allocated_buffers@.len() ==> (#[trigger] old(self).allocated_buffers@[i]).0
                            != chunk_pos) && old(self).free_buffers@.len() > 0 && s == old(self).free_buffers@.last()
                        && final(self).free_buffers@ == old(self).free_buffers@.drop_last()
                        && final(self).allocated_buffers@ == old(self).allocated_buffers@.push((chunk_pos, s))
                },
                None => (forall|i: int|
                    0 <= i < old(self).allocated_buffers@.len() ==> (#[trigger] old(self).allocated_buffers@[i]).0
                        != chunk_pos) && old(self).free_buffers@.len() == 0 && final(self).allocated_buffers@
                        == old(self).allocated_buffers@ && final(self).free_buffers@ == old(self).free_buffers@,
            },
    {
        let mut i: usize = 0;
        while i < self.allocated_buffers.len()
            invariant
                *self == *old(self),
                old(self).wf(),
                i <= self.allocated_buffers@.len(),
                forall|j: int| 0 <= j < i ==> (#[trigger] self.allocated_buffers@[j]).0 != chunk_pos,
            decreases self.allocated_buffers@.len() - i,
        {
            if self.allocated_buffers[i].0 == chunk_pos {
                return Some(self.allocated_buffers[i].1);
            }
            i = i + 1;
        }
        match self.free_buffers.pop() {
            Some(slot) => {
                let ghost before = self.allocated_buffers@;
                self.allocated_buffers.push((chunk_pos, slot));
                proof {
                    let a = self.allocated_buffers@;
                    let f = self.free_buffers@;
                    let of = old(self).free_buffers@;
                    assert(before == old(self).allocated_buffers@);
                    assert(slot == of.last());
                    assert(f =~= of.drop_last());
                    assert(a == before.push((chunk_pos, slot)));
                    assert(forall|j: int| 0 <= j < before.len() ==> (#[trigger] before[j]).0 != chunk_pos);
                    assert forall|p: int, q: int| 0 <= p < a.len() && 0 <= q < a.len() && p != q implies (#[trigger] a[p]).0
                        != (#[trigger] a[q]).0 && a[p].1 != a[q].1 by {
                        if p < before.len() && q < before.len() {
                            assert(a[p] == before[p] && a[q] == before[q]);
                        } else if p < before.len() {
                            assert(a[p] == before[p]);
                            assert(before[p].1 != of[of.len() - 1]);
                        } else {
                            assert(a[q] == before[q]);
                            assert(before[q].1 != of[of.len() - 1]);
                        }
                    }
                    assert forall|p: int, q: int| 0 <= p < a.len() && 0 <= q < f.len() implies (#[trigger] a[p]).1
                        != #[trigger] f[q] by {
                        assert(f[q] == of[q]);
                        if p < before.len() {
                            assert(a[p] == before[p]);
                        } else {
                            assert(of[q] != of[of.len() - 1]);
                        }
                    }
                }
                Some(slot)
            },
            None => None,
        }
    }
}

/// Two chunks never share a mesh buffer, and a buffer handed out is never free
/// again: whatever sequence of allocations led to a well-formed allocator.
pub proof fn lemma_buffers_not_shared(a: &BufferAllocator)
    requires
        a.wf(),
    ensures
        forall|i: int, j: int|
            0 <= i < a.allocated_buffers@.len() && 0 <= j < a.allocated_buffers@.len() && i != j
                ==> (#[trigger] a.allocated_buffers@[i]).1 != (#[trigger] a.allocated_buffers@[j]).1,
        forall|i: int, j: int|
            0 <= i < a.allocated_buffers@.len() && 0 <= j < a.free_buffers@.len()
                ==> (#[trigger] a.allocated_buffers@[i]).1 != #[trigger] a.free_buffers@[j],
{
}

/// The requests for one meshing pass: at most `MAX_CONCURRENT_MESHES` of the
/// chunks, in order, the `i`-th writing buffer `i`.
pub fn build_mesh_requests(chunk_positions: &[ChunkPos], lod_level: u32) -> (requests: Vec<MeshRequest>)
    ensures
        requests@.len() == if chunk_positions@.len() < MAX_CONCURRENT_MESHES {
            chunk_positions@.len()
        } else {
            MAX_CONCURRENT_MESHES as nat
        },
        forall|i: int|
            0 <= i < requests@.len() ==> #[trigger] requests@[i] == (MeshRequest {
                chunk_pos: [chunk_positions@[i].x, chunk_positions@[i].y, chunk_positions@[i].z],
                lod_level,
                buffer_index: i as u32,
                flags: 0,
                _padding: [0, 0],
            }),
{
    let batch_size = if chunk_positions.len() < MAX_CONCURRENT_MESHES {
        chunk_positions.len()
    } else {
        MAX_CONCURRENT_MESHES
    };
    let mut requests: Vec<MeshRequest> = Vec::new();
    let mut i: usize = 0;
    while i < batch_size
        invariant
            batch_size <= chunk_positions@.len(),
            batch_size <= MAX_CONCURRENT_MESHES,
            i <= batch_size,
            requests@.len() == i,
            forall|k: int|
                0 <= k < i ==> #[trigger] requests@[k] == (MeshRequest {
                    chunk_pos: [chunk_positions@[k].x, chunk_positions@[k].y, chunk_positions@[k].z],
                    lod_level,
                    buffer_index: k as u32,
                    flags: 0,
                    _padding: [0, 0],
                }),
        decreases batch_size - i,
    {
        let pos = chunk_positions[i];
        requests.push(MeshRequest {
            chunk_pos: [pos.x, pos.y, pos.z],
            lod_level,
            buffer_index: i as u32,
            flags: 0,
            _padding: [0, 0],
        });
        i = i + 1;
    }
    requests
}

/// Parameters of a meshing pass over `request_count` requests: 32-voxel chunks,
/// greedy meshing and ambient occlusion on, the per-chunk limits.
pub fn meshing_params(request_count: u32) -> (params: MeshingParams)
    ensures
        params == (MeshingParams {
            chunk_size: 32,
            request_count,
            enable_greedy: 1,
            enable_ao: 1,
            max_vertices: MAX_VERTICES_PER_CHUNK as u32,
            max_indices: MAX_INDICES_PER_CHUNK as u32,
            _padding: [0, 0],
        }),
{
    MeshingParams {
        chunk_size: 32,
        request_count,
        enable_greedy: 1,
        enable_ao: 1,
        max_vertices: MAX_VERTICES_PER_CHUNK as u32,
        max_indices: MAX_INDICES_PER_CHUNK as u32,
        _padding: [0, 0],
    }
}

/// Counts `generated_count` more generated meshes.
pub fn update_mesh_statistics(stats: &mut MeshingStats, generated_count: u32)
    requires
        old(stats).total_meshes + generated_count <= u64::MAX,
    ensures
        *final(stats) == (MeshingStats { total_meshes: (old(stats).total_meshes + generated_count) as u64, ..*old(stats) }),
{
    stats.total_meshes = stats.total_meshes + generated_count as u64;
}

/// Whether buffer `buffer_index` is one of the `mesh_buffer_count` mesh buffers
/// (the count taken as a `u32`).
pub fn is_mesh_ready(mesh_buffer_count: usize, buffer_index: u32) -> (ready: bool)
    ensures
        ready == (buffer_index < mesh_buffer_count as u32),
{
    buffer_index < mesh_buffer_count as u32
}

} // verus!
