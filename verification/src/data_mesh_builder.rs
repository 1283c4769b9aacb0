//! Mesh building into fixed-size buffers: quads are written into
//! pre-allocated vertex and index arrays while there is room.
//! Vertices are kept on the block grid (integer corners, unit texture
//! coordinates and axis normals); they become GPU floats when uploaded.
use vstd::prelude::*;
use crate::open_faces::face_step;
use crate::world::{AIR, BlockId, ChunkPos};

pub mod operations;

verus! {

/// Maximum vertices per mesh (64K for 16-bit indices)
pub const MAX_VERTICES: usize = 65536;

/// Maximum indices per mesh
pub const MAX_INDICES: usize = MAX_VERTICES * 3 / 2;

/// Mesh data without allocations
#[derive(Debug, Clone, Copy, PartialEq, Eq)]
pub struct MeshMetadata {
    pub chunk_pos: [i32; 3],
    pub vertex_count: u32,
    pub index_count: u32,
    pub flags: u32,
    pub generation_time_us: u32,
}

/// A mesh vertex on the block grid.
#[derive(Debug, Clone, Copy, PartialEq, Eq)]
pub struct GridVertex {
    pub position: [u32; 3],
    pub tex_coords: [u8; 2],
    pub normal: [i8; 3],
    pub ao: u8,
    pub light: u8,
}

/// Block face for mesh generation
#[derive(Debug, Clone, Copy, PartialEq, Eq, Structural)]
pub enum BlockFace {
    Top,
    Bottom,
    North,
    South,
    East,
    West,
}

/// One face of one block, with its light and per-corner occlusion.
#[derive(Debug, Clone, Copy, PartialEq, Eq)]
pub struct FaceQuad {
    pub face: BlockFace,
    pub x: u32,
    pub y: u32,
    pub z: u32,
    pub block: BlockId,
    pub light: u8,
    pub ao: [u8; 4],
}

/// Pre-allocated mesh buffer: the first `vertex_count` vertices and
/// `index_count` indices are in use.
pub struct MeshBuffer {
    pub vertices: Vec<GridVertex>,
    pub indices: Vec<u32>,
    pub vertex_count: usize,
    pub index_count: usize,
    pub metadata: MeshMetadata,
}

pub open spec fn empty_metadata() -> MeshMetadata {
    MeshMetadata { chunk_pos: [0i32, 0i32, 0i32], vertex_count: 0, index_count: 0, flags: 0, generation_time_us: 0 }
}

fn zero_metadata() -> (m: MeshMetadata)
    ensures
        m == empty_metadata(),
{
    MeshMetadata { chunk_pos: [0, 0, 0], vertex_count: 0, index_count: 0, flags: 0, generation_time_us: 0 }
}

impl MeshBuffer {
    /// Both arrays are at full size and the counts within them.
    pub open spec fn wf(&self) -> bool {
        &&& self.vertices@.len() == MAX_VERTICES
        &&& self.indices@.len() == MAX_INDICES
        &&& self.vertex_count <= MAX_VERTICES
        &&& self.index_count <= MAX_INDICES
    }

    pub open spec fn used_vertices(&self) -> Seq<GridVertex> {
        self.vertices@.take(self.vertex_count as int)
    }

    pub open spec fn used_indices(&self) -> Seq<u32> {
        self.indices@.take(self.index_count as int)
    }

    /// A buffer with room for `MAX_VERTICES` vertices and `MAX_INDICES`
    /// indices, none in use.
    pub fn new() -> (b: Self)
        ensures
            b.wf(),
            b.vertex_count == 0,
            b.index_count == 0,
            b.metadata == empty_metadata(),
    {
        let blank = GridVertex { position: [0, 0, 0], tex_coords: [0, 0], normal: [0, 0, 0], ao: 0, light: 0 };
        let mut vertices: Vec<GridVertex> = Vec::new();
        let mut i: usize = 0;
        while i < MAX_VERTICES
            invariant
                i <= MAX_VERTICES,
                vertices@.len() == i,
            decreases MAX_VERTICES - i,
        {
            vertices.push(blank);
            i = i + 1;
        }
        let mut indices: Vec<u32> = Vec::new();
        let mut k: usize = 0;
        while k < MAX_INDICES
            invariant
                k <= MAX_INDICES,
                indices@.len() == k,
            decreases MAX_INDICES - k,
        {
            indices.push(0);
            k = k + 1;
        }
        Self { vertices, indices, vertex_count: 0, index_count: 0, metadata: zero_metadata() }
    }

    /// Reset buffer for reuse (doesn't deallocate)
    pub fn reset(&mut self)
        requires
            old(self).wf(),
        ensures
            final(self).wf(),
            final(self).vertex_count == 0,
            final(self).index_count == 0,
            final(self).metadata == empty_metadata(),
            final(self).vertices@ == old(self).vertices@,
            final(self).indices@ == old(self).indices@,
    {
        self.vertex_count = 0;
        self.index_count = 0;
        self.metadata = zero_metadata();
    }
}

/// Offset of corner `i` of a face from the block's minimum corner
/// (clockwise winding).
pub open spec fn corner_offset(face: BlockFace, i: int) -> (u32, u32, u32) {
    match face {
        BlockFace::Top => if i == 0 { (0, 1, 0) } else if i == 1 { (1, 1, 0) } else if i == 2 { (1, 1, 1) } else { (0, 1, 1) },
        BlockFace::Bottom => if i == 0 { (0, 0, 1) } else if i == 1 { (1, 0, 1) } else if i == 2 { (1, 0, 0) } else { (0, 0, 0) },
        BlockFace::North => if i == 0 { (0, 0, 0) } else if i == 1 { (1, 0, 0) } else if i == 2 { (1, 1, 0) } else { (0, 1, 0) },
        BlockFace::South => if i == 0 { (1, 0, 1) } else if i == 1 { (0, 0, 1) } else if i == 2 { (0, 1, 1) } else { (1, 1, 1) },
        BlockFace::East => if i == 0 { (1, 0, 0) } else if i == 1 { (1, 0, 1) } else if i == 2 { (1, 1, 1) } else { (1, 1, 0) },
        BlockFace::West => if i == 0 { (0, 0, 1) } else if i == 1 { (0, 0, 0) } else if i == 2 { (0, 1, 0) } else { (0, 1, 1) },
    }
}

/// Outward normal of a face.
pub open spec fn face_normal(face: BlockFace) -> [i8; 3] {
    match face {
        BlockFace::Top => [0i8, 1i8, 0i8],
        BlockFace::Bottom => [0i8, -1i8, 0i8],
        BlockFace::North => [0i8, 0i8, -1i8],
        BlockFace::South => [0i8, 0i8, 1i8],
        BlockFace::East => [1i8, 0i8, 0i8],
        BlockFace::West => [-1i8, 0i8, 0i8],
    }
}

/// Texture coordinates of corner `i`: the unit square, counter-clockwise.
pub open spec fn corner_tex(i: int) -> [u8; 2] {
    if i == 0 {
        [0u8, 0u8]
    } else if i == 1 {
        [1u8, 0u8]
    } else if i == 2 {
        [1u8, 1u8]
    } else {
        [0u8, 1u8]
    }
}

/// Each corner of a face quad carries, as its normal, the unit step from the
/// block to the neighbour that face looks at, and lies on that face's plane:
/// along the step's axis, one past the block on a positive step and at the
/// block on a negative one; across it, at the block or one past it.
pub proof fn lemma_quad_vertex_on_face(q: FaceQuad, i: int)
    requires
        0 <= i < 4,
        q.x < u32::MAX,
        q.y < u32::MAX,
        q.z < u32::MAX,
    ensures
        ({
            let v = quad_vertex(q, i);
            let (sx, sy, sz) = face_step(q.face);
            &&& v.normal[0] == sx && v.normal[1] == sy && v.normal[2] == sz
            &&& sx != 0 ==> v.position[0] == q.x + (if sx > 0 { 1int } else { 0int })
            &&& sy != 0 ==> v.position[1] == q.y + (if sy > 0 { 1int } else { 0int })
            &&& sz != 0 ==> v.position[2] == q.z + (if sz > 0 { 1int } else { 0int })
            &&& sx == 0 ==> q.x <= v.position[0] <= q.x + 1
            &&& sy == 0 ==> q.y <= v.position[1] <= q.y + 1
            &&& sz == 0 ==> q.z <= v.position[2] <= q.z + 1
        }),
{
}

/// Corner `i` of quad `q`.
pub open spec fn quad_vertex(q: FaceQuad, i: int) -> GridVertex {
    let (dx, dy, dz) = corner_offset(q.face, i);
    GridVertex {
        position: [(q.x + dx) as u32, (q.y + dy) as u32, (q.z + dz) as u32],
        tex_coords: corner_tex(i),
        normal: face_normal(q.face),
        ao: q.ao[i],
        light: q.light,
    }
}

pub open spec fn quad_vertices(q: FaceQuad) -> Seq<GridVertex> {
    Seq::new(4, |i: int| quad_vertex(q, i))
}

/// The two triangles of a quad whose first vertex is `base`.
pub open spec fn quad_indices(base: u32) -> Seq<u32> {
    seq![base, (base + 1) as u32, (base + 2) as u32, base, (base + 2) as u32, (base + 3) as u32]
}

/// Whether a quad still fits after `vc` vertices and `ic` indices.
pub open spec fn has_room(vc: int, ic: int) -> bool {
    vc + 4 <= MAX_VERTICES && ic + 6 <= MAX_INDICES
}

/// The vertices and indices after adding quad `q`, unchanged when full.
pub open spec fn after_quad(vi: (Seq<GridVertex>, Seq<u32>), q: FaceQuad) -> (Seq<GridVertex>, Seq<u32>) {
    if has_room(vi.0.len() as int, vi.1.len() as int) {
        (vi.0 + quad_vertices(q), vi.1 + quad_indices(vi.0.len() as u32))
    } else {
        vi
    }
}

/// The vertices and indices after adding the quads `qs` in order, each
/// while there is room.
pub open spec fn after_quads(vi: (Seq<GridVertex>, Seq<u32>), qs: Seq<FaceQuad>) -> (Seq<GridVertex>, Seq<u32>)
    decreases qs.len(),
{
    if qs.len() == 0 {
        vi
    } else {
        after_quad(after_quads(vi, qs.drop_last()), qs.last())
    }
}

/// All of `n` quads fit after `vc` vertices and `ic` indices.
pub open spec fn all_fit(vc: int, ic: int, n: int) -> bool {
    vc + 4 * n <= MAX_VERTICES && ic + 6 * n <= MAX_INDICES
}

/// A buffer that is full stays as it is.
pub(crate) proof fn lemma_full_stays(vi: (Seq<GridVertex>, Seq<u32>), qs: Seq<FaceQuad>)
    requires
        !has_room(vi.0.len() as int, vi.1.len() as int),
    ensures
        after_quads(vi, qs) == vi,
    decreases qs.len(),
{
    if qs.len() > 0 {
        lemma_full_stays(vi, qs.drop_last());
    }
}

/// Adding `a + b` is adding `a`, then `b`.
pub(crate) proof fn lemma_after_quads_append(vi: (Seq<GridVertex>, Seq<u32>), a: Seq<FaceQuad>, b: Seq<FaceQuad>)
    ensures
        after_quads(vi, a + b) == after_quads(after_quads(vi, a), b),
    decreases b.len(),
{
    if b.len() == 0 {
        assert(a + b =~= a);
    } else {
        assert((a + b).drop_last() =~= a + b.drop_last());
        assert((a + b).last() == b.last());
        lemma_after_quads_append(vi, a, b.drop_last());
    }
}

/// While every quad fits, each adds four vertices and six indices.
pub(crate) proof fn lemma_after_quads_len(vi: (Seq<GridVertex>, Seq<u32>), qs: Seq<FaceQuad>)
    requires
        all_fit(vi.0.len() as int, vi.1.len() as int, qs.len() as int),
    ensures
        after_quads(vi, qs).0.len() == vi.0.len() + 4 * qs.len(),
        after_quads(vi, qs).1.len() == vi.1.len() + 6 * qs.len(),
    decreases qs.len(),
{
    if qs.len() > 0 {
        lemma_after_quads_len(vi, qs.drop_last());
    }
}

pub(crate) fn corner_offset_exec(face: BlockFace, i: usize) -> (r: (u32, u32, u32))
    requires
        i < 4,
    ensures
        r == corner_offset(face, i as int),
{
    match face {
        BlockFace::Top => if i == 0 { (0, 1, 0) } else if i == 1 { (1, 1, 0) } else if i == 2 { (1, 1, 1) } else { (0, 1, 1) },
        BlockFace::Bottom => if i == 0 { (0, 0, 1) } else if i == 1 { (1, 0, 1) } else if i == 2 { (1, 0, 0) } else { (0, 0, 0) },
        BlockFace::North => if i == 0 { (0, 0, 0) } else if i == 1 { (1, 0, 0) } else if i == 2 { (1, 1, 0) } else { (0, 1, 0) },
        BlockFace::South => if i == 0 { (1, 0, 1) } else if i == 1 { (0, 0, 1) } else if i == 2 { (0, 1, 1) } else { (1, 1, 1) },
        BlockFace::East => if i == 0 { (1, 0, 0) } else if i == 1 { (1, 0, 1) } else if i == 2 { (1, 1, 1) } else { (1, 1, 0) },
        BlockFace::West => if i == 0 { (0, 0, 1) } else if i == 1 { (0, 0, 0) } else if i == 2 { (0, 1, 0) } else { (0, 1, 1) },
    }
}

pub(crate) fn face_normal_exec(face: BlockFace) -> (n: [i8; 3])
    ensures
        n == face_normal(face),
{
    match face {
        BlockFace::Top => [0, 1, 0],
        BlockFace::Bottom => [0, -1, 0],
        BlockFace::North => [0, 0, -1],
        BlockFace::South => [0, 0, 1],
        BlockFace::East => [1, 0, 0],
        BlockFace::West => [-1, 0, 0],
    }
}

pub(crate) fn corner_tex_exec(i: usize) -> (t: [u8; 2])
    ensures
        t == corner_tex(i as int),
{
    if i == 0 {
        [0, 0]
    } else if i == 1 {
        [1, 0]
    } else if i == 2 {
        [1, 1]
    } else {
        [0, 1]
    }
}


/// Pool size for mesh buffers
pub const MESH_POOL_SIZE: usize = 128;

/// Buffer pool for zero-allocation mesh building: buffers are handed out
/// and taken back instead of being allocated per mesh.
pub struct MeshBufferPool {
    available: Vec<MeshBuffer>,
    total_created: usize,
}

impl MeshBufferPool {
    /// Buffers ready to be handed out.
    pub closed spec fn spec_available(&self) -> nat {
        self.available@.len()
    }

    /// Buffers created so far.
    pub closed spec fn spec_total_created(&self) -> usize {
        self.total_created
    }

    /// Every pooled buffer is well formed, the pool holds at most
    /// `MESH_POOL_SIZE` of them and never created more.
    pub closed spec fn wf(&self) -> bool {
        &&& self.available@.len() <= MESH_POOL_SIZE
        &&& self.total_created <= MESH_POOL_SIZE
        &&& forall|i: int| 0 <= i < self.available@.len() ==> (#[trigger] self.available@[i]).wf()
    }

    /// A pool with a quarter of its size already created.
    pub fn new() -> (p: Self)
        ensures
            p.wf(),
            p.spec_available() == MESH_POOL_SIZE / 4,
            p.spec_total_created() == MESH_POOL_SIZE / 4,
    {
        let mut available: Vec<MeshBuffer> = Vec::new();
        let mut i: usize = 0;
        while i < MESH_POOL_SIZE / 4
            invariant
                i <= MESH_POOL_SIZE / 4,
                available@.len() == i,
                forall|k: int| 0 <= k < available@.len() ==> (#[trigger] available@[k]).wf(),
            decreases MESH_POOL_SIZE / 4 - i,
        {
            available.push(MeshBuffer::new());
            i = i + 1;
        }
        Self { available, total_created: MESH_POOL_SIZE / 4 }
    }

    /// Acquire a buffer from the pool: a pooled one, reset, or a new one
    /// while fewer than `MESH_POOL_SIZE` were created. An exhausted pool
    /// cannot hand out a buffer.
    pub fn acquire(&mut self) -> (b: MeshBuffer)
        requires
            old(self).wf(),
            old(self).spec_available() > 0 || old(self).spec_total_created() < MESH_POOL_SIZE,
        ensures
            final(self).wf(),
            final(self).spec_total_created() <= MESH_POOL_SIZE,
            b.wf(),
            b.vertex_count == 0,
            b.index_count == 0,
            b.metadata == empty_metadata(),
            old(self).spec_available() > 0 ==> final(self).spec_available() == old(self).spec_available() - 1
                && final(self).spec_total_created() == old(self).spec_total_created(),
            old(self).spec_available() == 0 ==> final(self).spec_available() == 0
                && final(self).spec_total_created() == old(self).spec_total_created() + 1,
    {
        match self.available.pop() {
            Some(mut buffer) => {
                proof {
                    assert(old(self).available@[old(self).available@.len() - 1] == buffer);
                    assert forall|i: int| 0 <= i < self.available@.len() implies (#[trigger] self.available@[i]).wf() by {
                        assert(self.available@[i] == old(self).available@[i]);
                    }
                }
                buffer.reset();
                buffer
            },
            None => {
                self.total_created = self.total_created + 1;
                MeshBuffer::new()
            },
        }
    }

    /// Release a buffer back to the pool; a full pool drops it.
    pub fn release(&mut self, buffer: MeshBuffer)
        requires
            old(self).wf(),
            buffer.wf(),
        ensures
            final(self).wf(),
            final(self).spec_total_created() == old(self).spec_total_created(),
            final(self).spec_available() == if old(self).spec_available() < MESH_POOL_SIZE {
                old(self).spec_available() + 1
            } else {
                old(self).spec_available()
            },
    {
        if self.available.len() < MESH_POOL_SIZE {
            self.available.push(buffer);
        }
    }
}

} // verus!
