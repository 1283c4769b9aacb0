//! Greedy meshing of voxel chunks: visible faces of one slice are merged
//! into maximal-width, then maximal-height rectangles of a single block type.
use vstd::prelude::*;
use crate::world::{BlockId, Chunk, AIR};

verus! {

/// The six axis-aligned face directions.
#[derive(Clone, Copy, Debug, PartialEq, Eq, Structural)]
pub enum FaceDirection {
    North,  // -Z
    South,  // +Z
    East,  // +X
    West,  // -X
    Up,  // +Y
    Down,  // -Y
}

impl FaceDirection {
    /// Unit step towards the neighbouring voxel on this side.
    pub open spec fn spec_offset(self) -> (int, int, int) {
        match self {
            FaceDirection::North => (0, 0, -1),
            FaceDirection::South => (0, 0, 1),
            FaceDirection::East => (1, 0, 0),
            FaceDirection::West => (-1, 0, 0),
            FaceDirection::Up => (0, 1, 0),
            FaceDirection::Down => (0, -1, 0),
        }
    }

    /// The axis perpendicular to faces of this direction (0 = X, 1 = Y, 2 = Z).
    pub open spec fn spec_axis(self) -> usize {
        match self {
            FaceDirection::North | FaceDirection::South => 2,
            FaceDirection::East | FaceDirection::West => 0,
            FaceDirection::Up | FaceDirection::Down => 1,
        }
    }

    /// Get the offset to the neighboring voxel in this direction
    pub fn offset(&self) -> (o: [i32; 3])
        ensures
            o[0] as int == self.spec_offset().0,
            o[1] as int == self.spec_offset().1,
            o[2] as int == self.spec_offset().2,
    {
        match self {
            FaceDirection::North => [0, 0, -1],
            FaceDirection::South => [0, 0, 1],
            FaceDirection::East => [1, 0, 0],
            FaceDirection::West => [-1, 0, 0],
            FaceDirection::Up => [0, 1, 0],
            FaceDirection::Down => [0, -1, 0],
        }
    }
}

/// A merged rectangle of faces. `min_*`/`max_*` are the half-open extent in
/// the slice's 2D coordinates; `position_offset` is the corner of the quad in
/// chunk space (whole block units).
#[derive(Clone, Copy, Debug)]
pub struct GreedyQuad {
    pub min_x: u32,
    pub min_y: u32,
    pub max_x: u32,
    pub max_y: u32,
    pub face_direction: FaceDirection,
    pub block_id: BlockId,
    pub position_offset: [u32; 3],
}

/// Quad counts of one meshing run: `original_quads` is the rough estimate
/// of four faces per merged quad.
#[derive(Clone, Copy, Debug)]
pub struct GreedyMeshStats {
    pub original_quads: usize,
    pub optimized_quads: usize,
}

/// Voxel coordinates of mask cell `(i, j)` in slice `slice` for a direction.
pub open spec fn voxel_of(dir: FaceDirection, slice: int, i: int, j: int) -> (int, int, int) {
    match dir {
        FaceDirection::North | FaceDirection::South => (i, j, slice),
        FaceDirection::East | FaceDirection::West => (slice, j, i),
        FaceDirection::Up | FaceDirection::Down => (i, slice, j),
    }
}

/// The face of the voxel at mask cell `(i, j)` of a slice is drawn when the
/// voxel is solid and its neighbour in direction `dir` is air (outside the
/// chunk counts as air); the cell then holds the voxel's block.
pub open spec fn face_cell(chunk: &Chunk, dir: FaceDirection, slice: int, i: int, j: int) -> Option<
    BlockId,
> {
    let (x, y, z) = voxel_of(dir, slice, i, j);
    let s = chunk.spec_size() as int;
    let b = chunk.block_at(x, y, z);
    let (ox, oy, oz) = dir.spec_offset();
    let (nx, ny, nz) = (x + ox, y + oy, z + oz);
    let nb = if 0 <= nx < s && 0 <= ny < s && 0 <= nz < s {
        chunk.block_at(nx, ny, nz)
    } else {
        AIR
    };
    if b != AIR && nb == AIR {
        Some(b)
    } else {
        None
    }
}

/// Chunk-space corner of a quad starting at `(i, j)` in `slice`.
pub open spec fn offset_for(dir: FaceDirection, slice: int, i: int, j: int) -> (int, int, int) {
    match dir {
        FaceDirection::North => (i, j, slice),
        FaceDirection::South => (i, j, slice + 1),
        FaceDirection::West => (slice, j, i),
        FaceDirection::East => (slice + 1, j, i),
        FaceDirection::Down => (i, slice, j),
        FaceDirection::Up => (i, slice + 1, j),
    }
}

/// The slice a quad lies in, read back from its position offset.
pub open spec fn quad_slice(q: GreedyQuad) -> int {
    match q.face_direction {
        FaceDirection::North => q.position_offset[2] as int,
        FaceDirection::South => q.position_offset[2] - 1,
        FaceDirection::West => q.position_offset[0] as int,
        FaceDirection::East => q.position_offset[0] - 1,
        FaceDirection::Down => q.position_offset[1] as int,
        FaceDirection::Up => q.position_offset[1] - 1,
    }
}

pub open spec fn covers(q: GreedyQuad, i: int, j: int) -> bool {
    q.min_x <= i < q.max_x && q.min_y <= j < q.max_y
}

pub open spec fn on_slice(q: GreedyQuad, dir: FaceDirection, slice: int) -> bool {
    q.face_direction == dir && quad_slice(q) == slice
}

/// A quad is non-empty, fits a `size`×`size` slice of a chunk of that size,
/// and its position offset is the corner of its extent in its slice.
pub open spec fn quad_well_placed(q: GreedyQuad, size: int) -> bool {
    let (a, b, c) = offset_for(q.face_direction, quad_slice(q), q.min_x as int, q.min_y as int);
    &&& q.min_x < q.max_x <= size
    &&& q.min_y < q.max_y <= size
    &&& 0 <= quad_slice(q) < size
    &&& q.position_offset[0] == a
    &&& q.position_offset[1] == b
    &&& q.position_offset[2] == c
}

/// The quads of `qs` lying on slice `slice` of direction `dir` exactly tile
/// the visible faces of that slice: each covers only visible faces of its
/// own block type, every visible face is covered, and no face twice.
pub open spec fn slice_partitioned(
    qs: Seq<GreedyQuad>,
    chunk: &Chunk,
    dir: FaceDirection,
    slice: int,
) -> bool {
    let s = chunk.spec_size() as int;
    &&& forall|k: int, i: int, j: int|
        0 <= k < qs.len() && on_slice(qs[k], dir, slice) && #[trigger] covers(qs[k], i, j) ==> 0
            <= i < s && 0 <= j < s && face_cell(chunk, dir, slice, i, j) == Some(qs[k].block_id)
    &&& forall|i: int, j: int|
        0 <= i < s && 0 <= j < s && (#[trigger] face_cell(chunk, dir, slice, i, j)) is Some
            ==> exists|k: int| 0 <= k < qs.len() && on_slice(qs[k], dir, slice) && #[trigger] covers(qs[k], i, j)
    &&& forall|k1: int, k2: int, i: int, j: int|
        0 <= k1 < qs.len() && 0 <= k2 < qs.len() && k1 != k2 && on_slice(qs[k1], dir, slice)
            && on_slice(qs[k2], dir, slice) && #[trigger] covers(qs[k1], i, j) ==> !#[trigger] covers(qs[k2], i, j)
}

pub open spec fn cell(m: Seq<Option<BlockId>>, w: int, i: int, j: int) -> Option<BlockId> {
    m[j * w + i]
}

pub open spec fn vcell(v: Seq<bool>, w: int, i: int, j: int) -> bool {
    v[j * w + i]
}

pub proof fn lemma_cell_index(w: int, h: int, i: int, j: int)
    by (nonlinear_arith)
    requires
        0 <= i < w,
        0 <= j < h,
    ensures
        0 <= j * w,
        j * w + w <= w * h,
        0 <= j * w + i < w * h,
{
}

pub proof fn lemma_cell_index_injective(w: int, i1: int, j1: int, i2: int, j2: int)
    by (nonlinear_arith)
    requires
        0 <= i1 < w,
        0 <= i2 < w,
        0 <= j1,
        0 <= j2,
    ensures
        j1 * w + i1 == j2 * w + i2 ==> i1 == i2 && j1 == j2,
{
}

/// Quads of one slice tile the non-empty cells of the mask, all recorded
/// with the given direction and slice.
pub open spec fn mask_partitioned(
    qs: Seq<GreedyQuad>,
    m: Seq<Option<BlockId>>,
    w: int,
    h: int,
    dir: FaceDirection,
    slice: int,
) -> bool {
    &&& forall|k: int|
        0 <= k < qs.len() ==> on_slice(#[trigger] qs[k], dir, slice) && quad_well_placed(qs[k], w)
    &&& forall|k: int, i: int, j: int|
        0 <= k < qs.len() && #[trigger] covers(qs[k], i, j) ==> 0 <= i < w && 0 <= j < h && cell(
            m,
            w,
            i,
            j,
        ) == Some(qs[k].block_id)
    &&& forall|i: int, j: int|
        0 <= i < w && 0 <= j < h && (#[trigger] cell(m, w, i, j)) is Some ==> exists|k: int|
            0 <= k < qs.len() && #[trigger] covers(qs[k], i, j)
    &&& forall|k1: int, k2: int, i: int, j: int|
        0 <= k1 < qs.len() && 0 <= k2 < qs.len() && k1 != k2 && #[trigger] covers(qs[k1], i, j)
            ==> !#[trigger] covers(qs[k2], i, j)
}

/// How far a face's plane lies past its voxel along each axis: one on the
/// axis a face towards +X, +Y or +Z points along, zero elsewhere.
pub open spec fn plane_shift(dir: FaceDirection) -> (int, int, int) {
    let (ox, oy, oz) = dir.spec_offset();
    (if ox > 0 { 1 } else { 0 }, if oy > 0 { 1 } else { 0 }, if oz > 0 { 1 } else { 0 })
}

/// A placed quad's position is the corner of its first face: the voxel
/// behind mask cell `(min_x, min_y)` of its slice, moved onto the side of
/// that voxel the face looks out of (one further along a positive axis).
pub proof fn lemma_quad_offset_on_face_plane(q: GreedyQuad, size: int)
    requires
        quad_well_placed(q, size),
    ensures
        ({
            let v = voxel_of(q.face_direction, quad_slice(q), q.min_x as int, q.min_y as int);
            let d = plane_shift(q.face_direction);
            &&& q.position_offset[0] == v.0 + d.0
            &&& q.position_offset[1] == v.1 + d.1
            &&& q.position_offset[2] == v.2 + d.2
        }),
{
}

/// Every quad a mesher places on a tiled slice covers solid voxels whose
/// face towards its direction shows, and its position lies on the plane of
/// those faces: along the direction's axis, the covered voxels' coordinate,
/// plus one for a direction towards +X, +Y or +Z.
pub proof fn lemma_mesh_quads_on_face_planes(qs: Seq<GreedyQuad>, chunk: &Chunk)
    requires
        forall|k: int| 0 <= k < qs.len() ==> quad_well_placed(#[trigger] qs[k], chunk.spec_size() as int),
        forall|dir: FaceDirection, slice: int|
            0 <= slice < chunk.spec_size() ==> #[trigger] slice_partitioned(qs, chunk, dir, slice),
    ensures
        forall|k: int, i: int, j: int|
            0 <= k < qs.len() && #[trigger] covers(qs[k], i, j) ==> {
                let q = qs[k];
                let v = voxel_of(q.face_direction, quad_slice(q), i, j);
                let d = plane_shift(q.face_direction);
                let (ox, oy, oz) = q.face_direction.spec_offset();
                &&& face_cell(chunk, q.face_direction, quad_slice(q), i, j) == Some(q.block_id)
                &&& chunk.block_at(v.0, v.1, v.2) == q.block_id
                &&& (ox != 0 ==> q.position_offset[0] == v.0 + d.0)
                &&& (oy != 0 ==> q.position_offset[1] == v.1 + d.1)
                &&& (oz != 0 ==> q.position_offset[2] == v.2 + d.2)
            },
{
    assert forall|k: int, i: int, j: int| 0 <= k < qs.len() && #[trigger] covers(qs[k], i, j) implies {
        let q = qs[k];
        let v = voxel_of(q.face_direction, quad_slice(q), i, j);
        let d = plane_shift(q.face_direction);
        let (ox, oy, oz) = q.face_direction.spec_offset();
        &&& face_cell(chunk, q.face_direction, quad_slice(q), i, j) == Some(q.block_id)
        &&& chunk.block_at(v.0, v.1, v.2) == q.block_id
        &&& (ox != 0 ==> q.position_offset[0] == v.0 + d.0)
        &&& (oy != 0 ==> q.position_offset[1] == v.1 + d.1)
        &&& (oz != 0 ==> q.position_offset[2] == v.2 + d.2)
    } by {
        let q = qs[k];
        assert(quad_well_placed(q, chunk.spec_size() as int));
        lemma_quad_offset_on_face_plane(q, chunk.spec_size() as int);
        assert(slice_partitioned(qs, chunk, q.face_direction, quad_slice(q)));
        assert(on_slice(qs[k], q.face_direction, quad_slice(q)));
    }
}

/// Cell `(i, j)` is covered by some quad of `prefix`.
pub open spec fn covered_in(prefix: Seq<GreedyQuad>, i: int, j: int) -> bool {
    exists|t: int| 0 <= t < prefix.len() && #[trigger] covers(prefix[t], i, j)
}

/// Cell `(i, j)` of slice `slice` of `dir` is covered by some quad of
/// `prefix` on that slice.
pub open spec fn covered_on(prefix: Seq<GreedyQuad>, dir: FaceDirection, slice: int, i: int, j: int) -> bool {
    exists|t: int| 0 <= t < prefix.len() && on_slice(prefix[t], dir, slice) && #[trigger] covers(prefix[t], i, j)
}

/// A rectangle of block `b` could grow over cell `(i, j)` of an `n`×`n`
/// slice: the cell is inside, not yet taken, and holds that block.
pub open spec fn joinable(
    cells: spec_fn(int, int) -> Option<BlockId>,
    taken: spec_fn(int, int) -> bool,
    n: int,
    i: int,
    j: int,
    b: BlockId,
) -> bool {
    0 <= i < n && 0 <= j < n && !taken(i, j) && cells(i, j) == Some(b)
}

/// Quad `q` is the greedy choice on a slice whose cells are `cells` and
/// whose taken cells (those of the quads chosen before it) are `taken`: it
/// starts at the first free filled cell in scan order (rows `j`, then
/// columns `i`), and it grows first along `i` (`i_first`) or along `j` as
/// far as the block goes, then along the other axis while a whole line of
/// free cells of the block follows.
pub open spec fn greedy_pick(
    cells: spec_fn(int, int) -> Option<BlockId>,
    taken: spec_fn(int, int) -> bool,
    n: int,
    q: GreedyQuad,
    i_first: bool,
) -> bool {
    let b = q.block_id;
    &&& forall|a: int, c: int|
        0 <= a < n && 0 <= c < n && (c < q.min_y || (c == q.min_y && a < q.min_x)) && (#[trigger] cells(a, c)) is Some
            ==> taken(a, c)
    &&& i_first ==> !joinable(cells, taken, n, q.max_x as int, q.min_y as int, b) && exists|a: int|
        q.min_x <= a < q.max_x && !#[trigger] joinable(cells, taken, n, a, q.max_y as int, b)
    &&& !i_first ==> !joinable(cells, taken, n, q.min_x as int, q.max_y as int, b) && exists|c: int|
        q.min_y <= c < q.max_y && !#[trigger] joinable(cells, taken, n, q.max_x as int, c, b)
}

/// Each quad of `qs` is the greedy choice on the mask `m` of an `n`×`n`
/// slice, given the quads before it.
pub open spec fn mask_greedy(qs: Seq<GreedyQuad>, m: Seq<Option<BlockId>>, n: int, i_first: bool) -> bool {
    forall|k: int|
        0 <= k < qs.len() ==> greedy_pick(
            |i: int, j: int| cell(m, n, i, j),
            |i: int, j: int| covered_in(qs.take(k), i, j),
            n,
            #[trigger] qs[k],
            i_first,
        )
}

/// Each quad of `qs` is the greedy choice on its slice of `chunk`, given
/// the quads before it on that slice.
pub open spec fn chunk_greedy(qs: Seq<GreedyQuad>, chunk: &Chunk) -> bool {
    forall|k: int|
        0 <= k < qs.len() ==> greedy_pick(
            |i: int, j: int| face_cell(chunk, qs[k].face_direction, quad_slice(qs[k]), i, j),
            |i: int, j: int| covered_on(qs.take(k), qs[k].face_direction, quad_slice(qs[k]), i, j),
            chunk.spec_size() as int,
            #[trigger] qs[k],
            true,
        )
}

/// A greedy choice stays one when the cells and taken cells agree inside
/// the slice.
pub proof fn lemma_greedy_pick_congruent(
    c1: spec_fn(int, int) -> Option<BlockId>,
    t1: spec_fn(int, int) -> bool,
    c2: spec_fn(int, int) -> Option<BlockId>,
    t2: spec_fn(int, int) -> bool,
    n: int,
    q: GreedyQuad,
    i_first: bool,
)
    requires
        greedy_pick(c1, t1, n, q, i_first),
        forall|i: int, j: int|
            #![trigger c1(i, j)]
            #![trigger c2(i, j)]
            #![trigger t1(i, j)]
            #![trigger t2(i, j)]
            0 <= i < n && 0 <= j < n ==> c1(i, j) == c2(i, j) && t1(i, j) == t2(i, j),
    ensures
        greedy_pick(c2, t2, n, q, i_first),
{
    let b = q.block_id;
    assert forall|i: int, j: int| joinable(c1, t1, n, i, j, b) == #[trigger] joinable(c2, t2, n, i, j, b) by {
        if 0 <= i < n && 0 <= j < n {
            assert(c1(i, j) == c2(i, j) && t1(i, j) == t2(i, j));
        }
    }
    assert forall|a: int, c: int|
        0 <= a < n && 0 <= c < n && (c < q.min_y || (c == q.min_y && a < q.min_x)) && (#[trigger] c2(a, c)) is Some
            implies t2(a, c) by {
        assert(c1(a, c) == c2(a, c) && t1(a, c) == t2(a, c));
    }
    if i_first {
        let a = choose|a: int| q.min_x <= a < q.max_x && !#[trigger] joinable(c1, t1, n, a, q.max_y as int, b);
        assert(!joinable(c2, t2, n, a, q.max_y as int, b));
    } else {
        let c = choose|c: int| q.min_y <= c < q.max_y && !#[trigger] joinable(c1, t1, n, q.max_x as int, c, b);
        assert(!joinable(c2, t2, n, q.max_x as int, c, b));
    }
}

/// Appending a greedy choice keeps the earlier choices greedy.
pub proof fn lemma_mask_greedy_push(qs: Seq<GreedyQuad>, q: GreedyQuad, m: Seq<Option<BlockId>>, n: int, i_first: bool)
    requires
        mask_greedy(qs, m, n, i_first),
        greedy_pick(|i: int, j: int| cell(m, n, i, j), |i: int, j: int| covered_in(qs, i, j), n, q, i_first),
    ensures
        mask_greedy(qs.push(q), m, n, i_first),
{
    let qs1 = qs.push(q);
    assert forall|k: int| 0 <= k < qs1.len() implies greedy_pick(
        |i: int, j: int| cell(m, n, i, j),
        |i: int, j: int| covered_in(qs1.take(k), i, j),
        n,
        #[trigger] qs1[k],
        i_first,
    ) by {
        if k < qs.len() {
            assert(qs1.take(k) =~= qs.take(k));
            assert(qs1[k] == qs[k]);
        } else {
            assert(qs1.take(k) =~= qs);
            assert(qs1[k] == q);
        }
    }
}

/// Two runs of greedy choices, on slices no quad of the other lies on,
/// stay greedy one after the other.
pub proof fn lemma_chunk_greedy_append(a: Seq<GreedyQuad>, b: Seq<GreedyQuad>, chunk: &Chunk)
    requires
        chunk_greedy(a, chunk),
        chunk_greedy(b, chunk),
        forall|x: int, y: int|
            0 <= x < a.len() && 0 <= y < b.len() ==> !on_slice(#[trigger] a[x], (#[trigger] b[y]).face_direction, quad_slice(b[y])),
    ensures
        chunk_greedy(a + b, chunk),
{
    let ab = a + b;
    let n0 = a.len() as int;
    let s = chunk.spec_size() as int;
    assert forall|k: int| 0 <= k < ab.len() implies greedy_pick(
        |i: int, j: int| face_cell(chunk, ab[k].face_direction, quad_slice(ab[k]), i, j),
        |i: int, j: int| covered_on(ab.take(k), ab[k].face_direction, quad_slice(ab[k]), i, j),
        s,
        #[trigger] ab[k],
        true,
    ) by {
        if k < n0 {
            assert(ab.take(k) =~= a.take(k));
            assert(ab[k] == a[k]);
        } else {
            let k2 = k - n0;
            let q = b[k2];
            assert(ab[k] == q);
            let d = q.face_direction;
            let sl = quad_slice(q);
            assert(ab.take(k) =~= a + b.take(k2));
            assert forall|i: int, j: int| 0 <= i < s && 0 <= j < s implies covered_on(b.take(k2), d, sl, i, j)
                == covered_on(ab.take(k), d, sl, i, j) by {
                let p = ab.take(k);
                if covered_on(p, d, sl, i, j) {
                    let t = choose|t: int| 0 <= t < p.len() && on_slice(p[t], d, sl) && #[trigger] covers(p[t], i, j);
                    if t < n0 {
                        assert(p[t] == a[t]);
                        assert(!on_slice(a[t], b[k2].face_direction, quad_slice(b[k2])));
                    } else {
                        assert(p[t] == b.take(k2)[t - n0]);
                        assert(covers(b.take(k2)[t - n0], i, j));
                    }
                }
                if covered_on(b.take(k2), d, sl, i, j) {
                    let t = choose|t: int|
                        0 <= t < b.take(k2).len() && on_slice(b.take(k2)[t], d, sl) && #[trigger] covers(b.take(k2)[t], i, j);
                    assert(p[n0 + t] == b.take(k2)[t]);
                    assert(covers(p[n0 + t], i, j));
                }
            }
            lemma_greedy_pick_congruent(
                |i: int, j: int| face_cell(chunk, d, sl, i, j),
                |i: int, j: int| covered_on(b.take(k2), d, sl, i, j),
                |i: int, j: int| face_cell(chunk, d, sl, i, j),
                |i: int, j: int| covered_on(ab.take(k), d, sl, i, j),
                s,
                q,
                true,
            );
        }
    }
}

/// The rectangle grown at the first free filled cell of a scan, as far as
/// its block goes along `i` and then along `j`, is the greedy choice.
proof fn lemma_greedy_choice_at(
    qs: Seq<GreedyQuad>,
    q: GreedyQuad,
    v: Seq<bool>,
    m: Seq<Option<BlockId>>,
    w: int,
    block: BlockId,
)
    requires
        forall|k: int, i: int, j: int|
            0 <= k < qs.len() && #[trigger] covers(qs[k], i, j) ==> 0 <= i < w && 0 <= j < w && vcell(v, w, i, j),
        forall|i: int, j: int|
            0 <= i < w && 0 <= j < w && #[trigger] vcell(v, w, i, j) ==> exists|k: int|
                0 <= k < qs.len() && #[trigger] covers(qs[k], i, j),
        q.block_id == block,
        0 <= q.min_x < q.max_x <= w,
        0 <= q.min_y < q.max_y <= w,
        forall|a: int, c: int|
            0 <= a < w && 0 <= c < q.min_y && (#[trigger] cell(m, w, a, c)) is Some ==> vcell(v, w, a, c),
        forall|a: int| 0 <= a < q.min_x && (#[trigger] cell(m, w, a, q.min_y as int)) is Some ==> vcell(v, w, a, q.min_y as int),
        !(q.max_x < w && !vcell(v, w, q.max_x as int, q.min_y as int) && cell(m, w, q.max_x as int, q.min_y as int) == Some(block)),
        q.max_y < w ==> exists|a: int|
            q.min_x <= a < q.max_x && (vcell(v, w, a, q.max_y as int) || #[trigger] cell(m, w, a, q.max_y as int) != Some(block)),
    ensures
        greedy_pick(|i: int, j: int| cell(m, w, i, j), |i: int, j: int| covered_in(qs, i, j), w, q, true),
{
    let c1 = |i: int, j: int| cell(m, w, i, j);
    let t1 = |i: int, j: int| vcell(v, w, i, j);
    let t2 = |i: int, j: int| covered_in(qs, i, j);
    assert forall|a: int, c: int|
        0 <= a < w && 0 <= c < w && (c < q.min_y || (c == q.min_y && a < q.min_x)) && (#[trigger] c1(a, c)) is Some
            implies t1(a, c) by {
        if c < q.min_y {
            assert(cell(m, w, a, c) is Some);
        } else {
            assert(cell(m, w, a, q.min_y as int) is Some);
        }
    }
    if q.max_y < w {
        let a = choose|a: int|
            q.min_x <= a < q.max_x && (vcell(v, w, a, q.max_y as int) || #[trigger] cell(m, w, a, q.max_y as int) != Some(block));
        assert(!joinable(c1, t1, w, a, q.max_y as int, block));
    } else {
        assert(!joinable(c1, t1, w, q.min_x as int, q.max_y as int, block));
    }
    assert(greedy_pick(c1, t1, w, q, true));
    assert forall|i: int, j: int| #![trigger t1(i, j)] #![trigger t2(i, j)] #![trigger c1(i, j)]
        0 <= i < w && 0 <= j < w implies c1(i, j) == c1(i, j) && t1(i, j) == t2(i, j) by {
        if t1(i, j) {
            let k = choose|k: int| 0 <= k < qs.len() && #[trigger] covers(qs[k], i, j);
        }
        if t2(i, j) {
            let k = choose|k: int| 0 <= k < qs.len() && #[trigger] covers(qs[k], i, j);
        }
    }
    lemma_greedy_pick_congruent(c1, t1, c1, t2, w, q, true);
}

/// Greedy choices on one slice's mask, read off the chunk, are greedy
/// choices on that slice of the chunk.
pub proof fn lemma_chunk_greedy_from_mask(
    sq: Seq<GreedyQuad>,
    m: Seq<Option<BlockId>>,
    chunk: &Chunk,
    dir: FaceDirection,
    slice: int,
)
    requires
        mask_greedy(sq, m, chunk.spec_size() as int, true),
        forall|k: int| 0 <= k < sq.len() ==> on_slice(#[trigger] sq[k], dir, slice),
        forall|i: int, j: int|
            0 <= i < chunk.spec_size() && 0 <= j < chunk.spec_size() ==> #[trigger] cell(m, chunk.spec_size() as int, i, j)
                == face_cell(chunk, dir, slice, i, j),
    ensures
        chunk_greedy(sq, chunk),
{
    let s = chunk.spec_size() as int;
    assert forall|k: int| 0 <= k < sq.len() implies greedy_pick(
        |i: int, j: int| face_cell(chunk, sq[k].face_direction, quad_slice(sq[k]), i, j),
        |i: int, j: int| covered_on(sq.take(k), sq[k].face_direction, quad_slice(sq[k]), i, j),
        s,
        #[trigger] sq[k],
        true,
    ) by {
        let p = sq.take(k);
        assert forall|i: int, j: int| 0 <= i < s && 0 <= j < s implies cell(m, s, i, j) == face_cell(chunk, dir, slice, i, j)
            && covered_in(p, i, j) == covered_on(p, dir, slice, i, j) by {
            if covered_in(p, i, j) {
                let t = choose|t: int| 0 <= t < p.len() && #[trigger] covers(p[t], i, j);
                assert(p[t] == sq[t]);
                assert(on_slice(sq[t], dir, slice));
            }
        }
        lemma_greedy_pick_congruent(
            |i: int, j: int| cell(m, s, i, j),
            |i: int, j: int| covered_in(p, i, j),
            |i: int, j: int| face_cell(chunk, dir, slice, i, j),
            |i: int, j: int| covered_on(p, dir, slice, i, j),
            s,
            sq[k],
            true,
        );
    }
}

/// Reusable scratch state for meshing chunks.
pub struct GreedyMesher {
    /// Temporary storage for face masks during meshing
    mask: Vec<Option<BlockId>>,
    /// Working dimensions
    width: usize,
    height: usize,
    depth: usize,
}

impl GreedyMesher {
    pub closed spec fn spec_dims(&self) -> (usize, usize, usize) {
        (self.width, self.height, self.depth)
    }

    pub closed spec fn spec_mask_len(&self) -> nat {
        self.mask@.len()
    }

    /// A mesher with an empty mask and 32³ working dimensions.
    pub fn new() -> (m: Self)
        ensures
            m.spec_dims() == (32usize, 32usize, 32usize),
            m.spec_mask_len() == 0,
    {
        Self { mask: Vec::new(), width: 32, height: 32, depth: 32 }
    }

    /// Generate optimized mesh for a chunk using greedy meshing algorithm.
    /// For every direction and slice, the returned quads of that slice
    /// exactly tile its visible faces, and each is the greedy choice given
    /// the quads before it on its slice.
    pub fn mesh_chunk(&mut self, chunk: &Chunk) -> (res: (Vec<GreedyQuad>, GreedyMeshStats))
        requires
            chunk.wf(),
            (chunk.spec_size() as int) * (chunk.spec_size() as int) <= u32::MAX,
            24 * ((chunk.spec_size() as int) * (chunk.spec_size() as int) * (
            chunk.spec_size() as int)) <= usize::MAX,
        ensures
            forall|k: int|
                0 <= k < res.0@.len() ==> quad_well_placed(
                    #[trigger] res.0@[k],
                    chunk.spec_size() as int,
                ),
            forall|dir: FaceDirection, slice: int|
                0 <= slice < chunk.spec_size() ==> #[trigger] slice_partitioned(
                    res.0@,
                    chunk,
                    dir,
                    slice,
                ),
            chunk_greedy(res.0@, chunk),
            res.1.optimized_quads == res.0@.len(),
            res.1.original_quads == 4 * res.0@.len(),
            final(self).spec_dims() == (
                chunk.spec_size() as usize,
                chunk.spec_size() as usize,
                chunk.spec_size() as usize,
            ),
    {
        let mut quads: Vec<GreedyQuad> = Vec::new();
        let chunk_size = chunk.size();
        self.width = chunk_size as usize;
        self.height = chunk_size as usize;
        self.depth = chunk_size as usize;
        let max_face_size = (chunk_size * chunk_size) as usize;
        while self.mask.len() < max_face_size
            invariant
                self.width == chunk_size as usize,
                self.height == chunk_size as usize,
                self.depth == chunk_size as usize,
            decreases max_face_size - self.mask@.len(),
        {
            self.mask.push(None);
        }
        let ghost s = chunk_size as int;
        let mut original_quad_count: usize = 0;
        let directions = [
            FaceDirection::North,
            FaceDirection::South,
            FaceDirection::East,
            FaceDirection::West,
            FaceDirection::Up,
            FaceDirection::Down,
        ];
        let mut d: usize = 0;
        while d < 6
            invariant
                0 <= d <= 6,
                chunk.wf(),
                chunk_size == chunk.spec_size(),
                s == chunk_size,
                s * s <= u32::MAX,
                24 * (s * s * s) <= usize::MAX,
                self.mask@.len() >= s * s,
                self.width == chunk_size as usize,
                self.height == chunk_size as usize,
                self.depth == chunk_size as usize,
                directions@ == seq![
                    FaceDirection::North,
                    FaceDirection::South,
                    FaceDirection::East,
                    FaceDirection::West,
                    FaceDirection::Up,
                    FaceDirection::Down,
                ],
                quads@.len() <= d * (s * s * s),
                original_quad_count == 4 * quads@.len(),
                forall|k: int| 0 <= k < quads@.len() ==> quad_well_placed(#[trigger] quads@[k], s),
                forall|k: int|
                    0 <= k < quads@.len() ==> exists|e: int|
                        0 <= e < d && (#[trigger] quads@[k]).face_direction == directions@[e],
                forall|e: int, slice: int|
                    0 <= e < d && 0 <= slice < s ==> #[trigger] slice_partitioned(
                        quads@,
                        chunk,
                        directions@[e],
                        slice,
                    ),
                chunk_greedy(quads@, chunk),
            decreases 6 - d,
        {
            let direction = directions[d];
            let mut face_quads = self.mesh_face_direction(chunk, direction);
            proof {
                assert(s * s * s + d * (s * s * s) == (d + 1) * (s * s * s)) by (nonlinear_arith);
                assert((d + 1) * (s * s * s) <= 6 * (s * s * s)) by (nonlinear_arith)
                    requires d < 6, s >= 0;
            }
            original_quad_count += face_quads.len() * 4;
            let ghost old_quads = quads@;
            let ghost fq = face_quads@;
            quads.append(&mut face_quads);
            proof {
                assert(quads@ == old_quads + fq);
                assert forall|k: int| 0 <= k < quads@.len() implies quad_well_placed(
                    #[trigger] quads@[k],
                    s,
                ) by {
                    if k >= old_quads.len() {
                        assert(quads@[k] == fq[k - old_quads.len()]);
                    }
                }
                assert forall|k: int| 0 <= k < quads@.len() implies exists|e: int|
                    0 <= e < d + 1 && (#[trigger] quads@[k]).face_direction == directions@[e] by {
                    if k >= old_quads.len() {
                        assert(quads@[k] == fq[k - old_quads.len()]);
                        assert(quads@[k].face_direction == directions@[d as int]);
                    } else {
                        assert(quads@[k] == old_quads[k]);
                    }
                }
                assert forall|e: int, slice: int|
                    0 <= e < d + 1 && 0 <= slice < s implies #[trigger] slice_partitioned(
                    quads@,
                    chunk,
                    directions@[e],
                    slice,
                ) by {
                    if e < d {
                        lemma_partition_extend_other(old_quads, fq, chunk, directions@[e], slice, direction);
                    } else {
                        lemma_partition_extend_new(old_quads, fq, chunk, direction, slice);
                    }
                }
                assert forall|x: int, y: int| 0 <= x < old_quads.len() && 0 <= y < fq.len() implies !on_slice(
                    #[trigger] old_quads[x],
                    (#[trigger] fq[y]).face_direction,
                    quad_slice(fq[y]),
                ) by {
                    assert(quads@[x] == old_quads[x]);
                    let e = choose|e: int| 0 <= e < d && (#[trigger] quads@[x]).face_direction == directions@[e];
                }
                lemma_chunk_greedy_append(old_quads, fq, chunk);
            }
            d = d + 1;
        }
        proof {
            assert forall|dir: FaceDirection, slice: int|
                0 <= slice < chunk.spec_size() implies #[trigger] slice_partitioned(
                quads@,
                chunk,
                dir,
                slice,
            ) by {
                let e: int = match dir {
                    FaceDirection::North => 0,
                    FaceDirection::South => 1,
                    FaceDirection::East => 2,
                    FaceDirection::West => 3,
                    FaceDirection::Up => 4,
                    FaceDirection::Down => 5,
                };
                assert(directions@[e] == dir);
            }
        }
        let stats = GreedyMeshStats {
            original_quads: original_quad_count,
            optimized_quads: quads.len(),
        };
        (quads, stats)
    }

    /// Mesh a specific face direction using greedy algorithm
    fn mesh_face_direction(&mut self, chunk: &Chunk, direction: FaceDirection) -> (quads: Vec<
        GreedyQuad,
    >)
        requires
            chunk.wf(),
            (chunk.spec_size() as int) * (chunk.spec_size() as int) <= u32::MAX,
            old(self).mask@.len() >= (chunk.spec_size() as int) * (chunk.spec_size() as int),
        ensures
            final(self).mask@.len() == old(self).mask@.len(),
            final(self).spec_dims() == old(self).spec_dims(),
            quads@.len() <= (chunk.spec_size() as int) * (chunk.spec_size() as int) * (
            chunk.spec_size() as int),
            forall|k: int|
                0 <= k < quads@.len() ==> (#[trigger] quads@[k]).face_direction == direction
                    && quad_well_placed(quads@[k], chunk.spec_size() as int),
            forall|slice: int|
                0 <= slice < chunk.spec_size() ==> #[trigger] slice_partitioned(
                    quads@,
                    chunk,
                    direction,
                    slice,
                ),
            chunk_greedy(quads@, chunk),
    {
        let mut quads: Vec<GreedyQuad> = Vec::new();
        let chunk_size = chunk.size() as usize;
        let ghost s = chunk_size as int;
        let width = chunk_size;
        let height = chunk_size;
        let axis: usize = match direction {
            FaceDirection::North | FaceDirection::South => 2,
            FaceDirection::East | FaceDirection::West => 0,
            FaceDirection::Up | FaceDirection::Down => 1,
        };
        let area = width * height;
        let mut slice: usize = 0;
        while slice < chunk_size
            invariant
                chunk.wf(),
                chunk_size == chunk.spec_size(),
                s == chunk_size,
                width == chunk_size,
                height == chunk_size,
                area == s * s,
                s * s <= u32::MAX,
                axis == direction.spec_axis(),
                slice <= chunk_size,
                self.mask@.len() == old(self).mask@.len(),
                self.mask@.len() >= s * s,
                self.spec_dims() == old(self).spec_dims(),
                quads@.len() <= slice * (s * s),
                forall|k: int|
                    0 <= k < quads@.len() ==> (#[trigger] quads@[k]).face_direction == direction
                        && quad_well_placed(quads@[k], s) && quad_slice(quads@[k]) < slice,
                forall|sl: int|
                    0 <= sl < slice ==> #[trigger] slice_partitioned(quads@, chunk, direction, sl),
                chunk_greedy(quads@, chunk),
            decreases chunk_size - slice,
        {
            let mut c: usize = 0;
            while c < area
                invariant
                    c <= area,
                    area <= self.mask@.len(),
                    self.mask@.len() == old(self).mask@.len(),
                    self.spec_dims() == old(self).spec_dims(),
                    forall|m: int| 0 <= m < c ==> self.mask@[m] is None,
                decreases area - c,
            {
                self.mask.set(c, None);
                c = c + 1;
            }
            self.build_face_mask(chunk, direction, slice, width, height, axis);
            let mut slice_quads = self.generate_quads_from_mask(direction, slice, width, height);
            proof {
                assert(slice_quads@.len() + slice * (s * s) <= (slice + 1) * (s * s))
                    by (nonlinear_arith)
                    requires slice_quads@.len() <= s * s;
            }
            let ghost old_quads = quads@;
            let ghost sq = slice_quads@;
            let ghost m = self.mask@;
            quads.append(&mut slice_quads);
            proof {
                assert(quads@ == old_quads + sq);
                assert forall|k: int| 0 <= k < quads@.len() implies (#[trigger] quads@[k]).face_direction
                    == direction && quad_well_placed(quads@[k], s) && quad_slice(quads@[k]) < slice + 1 by {
                    if k >= old_quads.len() {
                        assert(quads@[k] == sq[k - old_quads.len()]);
                    }
                }
                assert forall|sl: int| 0 <= sl < slice + 1 implies #[trigger] slice_partitioned(
                    quads@,
                    chunk,
                    direction,
                    sl,
                ) by {
                    if sl < slice {
                        lemma_partition_extend_same_dir_other_slice(old_quads, sq, chunk, direction, sl, slice as int);
                    } else {
                        lemma_partition_from_mask(old_quads, sq, m, chunk, direction, slice as int);
                    }
                }
                assert forall|k: int| 0 <= k < sq.len() implies on_slice(#[trigger] sq[k], direction, slice as int) by {}
                lemma_chunk_greedy_from_mask(sq, m, chunk, direction, slice as int);
                assert forall|x: int, y: int| 0 <= x < old_quads.len() && 0 <= y < sq.len() implies !on_slice(
                    #[trigger] old_quads[x],
                    (#[trigger] sq[y]).face_direction,
                    quad_slice(sq[y]),
                ) by {
                    assert(on_slice(sq[y], direction, slice as int));
                }
                lemma_chunk_greedy_append(old_quads, sq, chunk);
            }
            slice = slice + 1;
        }
        proof {
            assert(slice * (s * s) == s * s * s) by (nonlinear_arith)
                requires slice == s;
        }
        quads
    }

    /// Build face mask for a slice - identifies which faces need rendering
    fn build_face_mask(
        &mut self,
        chunk: &Chunk,
        direction: FaceDirection,
        slice: usize,
        width: usize,
        height: usize,
        axis: usize,
    )
        requires
            chunk.wf(),
            width == chunk.spec_size(),
            height == chunk.spec_size(),
            slice < chunk.spec_size(),
            axis == direction.spec_axis(),
            width * height <= u32::MAX,
            old(self).mask@.len() >= width * height,
            forall|m: int| 0 <= m < width * height ==> old(self).mask@[m] is None,
        ensures
            final(self).mask@.len() == old(self).mask@.len(),
            final(self).spec_dims() == old(self).spec_dims(),
            forall|i: int, j: int|
                0 <= i < width && 0 <= j < height ==> #[trigger] cell(final(self).mask@, width as int, i, j)
                    == face_cell(chunk, direction, slice as int, i, j),
    {
        let chunk_size = chunk.size();
        let ghost s = chunk_size as int;
        let offset = direction.offset();
        let cs = chunk_size as i64;
        let mut j: usize = 0;
        while j < height
            invariant
                chunk.wf(),
                chunk_size == chunk.spec_size(),
                s == chunk_size,
                cs == s,
                width == s,
                height == s,
                width * height <= u32::MAX,
                slice < s,
                axis == direction.spec_axis(),
                offset[0] as int == direction.spec_offset().0,
                offset[1] as int == direction.spec_offset().1,
                offset[2] as int == direction.spec_offset().2,
                j <= height,
                self.mask@.len() == old(self).mask@.len(),
                self.mask@.len() >= width * height,
                self.spec_dims() == old(self).spec_dims(),
                forall|a: int, b: int|
                    0 <= a < width && 0 <= b < j ==> #[trigger] cell(self.mask@, width as int, a, b)
                        == face_cell(chunk, direction, slice as int, a, b),
                forall|m: int| j * width <= m < width * height ==> self.mask@[m] is None,
            decreases height - j,
        {
            let mut i: usize = 0;
            while i < width
                invariant
                    chunk.wf(),
                    chunk_size == chunk.spec_size(),
                    s == chunk_size,
                    cs == s,
                    width == s,
                    height == s,
                    width * height <= u32::MAX,
                    slice < s,
                    j < height,
                    axis == direction.spec_axis(),
                    offset[0] as int == direction.spec_offset().0,
                    offset[1] as int == direction.spec_offset().1,
                    offset[2] as int == direction.spec_offset().2,
                    i <= width,
                    self.mask@.len() == old(self).mask@.len(),
                    self.mask@.len() >= width * height,
                    self.spec_dims() == old(self).spec_dims(),
                    forall|a: int, b: int|
                        0 <= a < width && 0 <= b < j ==> #[trigger] cell(self.mask@, width as int, a, b)
                            == face_cell(chunk, direction, slice as int, a, b),
                    forall|a: int|
                        0 <= a < i ==> #[trigger] cell(self.mask@, width as int, a, j as int)
                            == face_cell(chunk, direction, slice as int, a, j as int),
                    forall|m: int| j * width + i <= m < width * height ==> self.mask@[m] is None,
                decreases width - i,
            {
                proof {
                    lemma_cell_index(width as int, height as int, i as int, j as int);
                }
                let mask_index = j * width + i;
                let (x, y, z) = if axis == 0 {
                    (slice, j, i)
                } else if axis == 1 {
                    (i, slice, j)
                } else {
                    (i, j, slice)
                };
                let current_block = chunk.get_block(x as u32, y as u32, z as u32);
                let ghost before = self.mask@;
                proof {
                    assert(voxel_of(direction, slice as int, i as int, j as int) == (x as int, y as int, z as int));
                    assert(self.mask@[mask_index as int] is None);
                }
                if current_block != AIR {
                    let nx: i64 = x as i64 + offset[0] as i64;
                    let ny: i64 = y as i64 + offset[1] as i64;
                    let nz: i64 = z as i64 + offset[2] as i64;
                    let neighbor_block = if nx >= 0 && nx < cs && ny >= 0 && ny < cs && nz >= 0 && nz
                        < cs {
                        chunk.get_block(nx as u32, ny as u32, nz as u32)
                    } else {
                        AIR
                    };
                    proof {
                        let (ox, oy, oz) = direction.spec_offset();
                        let sz = s;
                        let inb = 0 <= x + ox < sz && 0 <= y + oy < sz && 0 <= z + oz < sz;
                        assert(inb == (nx >= 0 && nx < cs && ny >= 0 && ny < cs && nz >= 0 && nz < cs));
                        if inb {
                            assert(neighbor_block == chunk.block_at(x + ox, y + oy, z + oz));
                        }
                    }
                    if neighbor_block == AIR || self.is_transparent(neighbor_block) {
                        self.mask.set(mask_index, Some(current_block));
                    }
                }
                proof {
                    assert(cell(self.mask@, width as int, i as int, j as int) == face_cell(chunk, direction, slice as int, i as int, j as int));
                    assert forall|a: int, b: int|
                        0 <= a < width && 0 <= b < j implies #[trigger] cell(self.mask@, width as int, a, b)
                            == face_cell(chunk, direction, slice as int, a, b) by {
                        lemma_cell_index(width as int, height as int, a, b);
                        lemma_cell_index_injective(width as int, a, b, i as int, j as int);
                        assert(cell(before, width as int, a, b) == face_cell(chunk, direction, slice as int, a, b));
                    }
                    assert forall|a: int|
                        0 <= a < i + 1 implies #[trigger] cell(self.mask@, width as int, a, j as int)
                            == face_cell(chunk, direction, slice as int, a, j as int) by {
                        lemma_cell_index_injective(width as int, a, j as int, i as int, j as int);
                        if a < i {
                            assert(cell(before, width as int, a, j as int) == face_cell(chunk, direction, slice as int, a, j as int));
                        }
                    }
                    assert forall|m: int| j * width + i + 1 <= m < width * height implies self.mask@[m] is None by {
                        assert(before[m] is None);
                    }
                }
                i = i + 1;
            }
            proof {
                lemma_cell_index(width as int, height as int, 0, j as int);
                assert(j * width + width == (j + 1) * width) by (nonlinear_arith);
            }
            j = j + 1;
        }
    }

    /// Generate optimized quads from face mask using greedy merging
    fn generate_quads_from_mask(
        &self,
        direction: FaceDirection,
        slice: usize,
        width: usize,
        height: usize,
    ) -> (quads: Vec<GreedyQuad>)
        requires
            width == height,
            slice < width,
            width * height <= u32::MAX,
            self.mask@.len() >= width * height,
        ensures
            quads@.len() <= width * height,
            mask_partitioned(
                quads@,
                self.mask@,
                width as int,
                height as int,
                direction,
                slice as int,
            ),
            mask_greedy(quads@, self.mask@, width as int, true),
    {
        let mut quads: Vec<GreedyQuad> = Vec::new();
        let n = width * height;
        let mut visited: Vec<bool> = Vec::new();
        let mut c: usize = 0;
        while c < n
            invariant
                c <= n,
                visited@.len() == c,
                forall|m: int| 0 <= m < c ==> !visited@[m],
            decreases n - c,
        {
            visited.push(false);
            c = c + 1;
        }
        let ghost w = width as int;
        let ghost h = height as int;
        let ghost m = self.mask@;
        proof {
            assert forall|a: int, b: int| 0 <= a < w && 0 <= b < h implies !#[trigger] vcell(visited@, w, a, b) by {
                lemma_cell_index(w, h, a, b);
            }
        }
        let mut j: usize = 0;
        while j < height
            invariant
                w == width,
                h == height,
                m == self.mask@,
                width == height,
                slice < width,
                n == width * height,
                n <= u32::MAX,
                self.mask@.len() >= n,
                visited@.len() == n,
                j <= height,
                quads@.len() <= j * width,
                inv_quads(quads@, visited@, m, w, h, direction, slice as int),
                mask_greedy(quads@, m, w, true),
                forall|a: int, b: int|
                    0 <= a < w && 0 <= b < j && (#[trigger] cell(m, w, a, b)) is Some ==> vcell(
                        visited@,
                        w,
                        a,
                        b,
                    ),
            decreases height - j,
        {
            let mut i: usize = 0;
            while i < width
                invariant
                    w == width,
                    h == height,
                    m == self.mask@,
                    width == height,
                    slice < width,
                    n == width * height,
                    n <= u32::MAX,
                    self.mask@.len() >= n,
                    visited@.len() == n,
                    j < height,
                    i <= width,
                    quads@.len() <= j * width + i,
                    inv_quads(quads@, visited@, m, w, h, direction, slice as int),
                mask_greedy(quads@, m, w, true),
                    forall|a: int, b: int|
                        0 <= a < w && 0 <= b < j && (#[trigger] cell(m, w, a, b)) is Some ==> vcell(
                            visited@,
                            w,
                            a,
                            b,
                        ),
                    forall|a: int|
                        0 <= a < i && (#[trigger] cell(m, w, a, j as int)) is Some ==> vcell(
                            visited@,
                            w,
                            a,
                            j as int,
                        ),
                decreases width - i,
            {
                proof {
                    lemma_cell_index(w, h, i as int, j as int);
                }
                let mask_index = j * width + i;
                let skip = match self.mask[mask_index] {
                    None => true,
                    Some(_) => visited[mask_index],
                };
                if !skip {
                    let block_id = match self.mask[mask_index] {
                        Some(b) => b,
                        None => 0,
                    };
                    let ghost old_visited = visited@;
                    let (quad_width, quad_height) = self.find_largest_rect(
                        i,
                        j,
                        width,
                        height,
                        block_id,
                        &mut visited,
                    );
                    let quad = self.create_quad(
                        direction,
                        slice,
                        i,
                        j,
                        quad_width,
                        quad_height,
                        block_id,
                    );
                    let ghost old_quads = quads@;
                    quads.push(quad);
                    proof {
                        lemma_greedy_choice_at(old_quads, quad, old_visited, m, w, block_id);
                        lemma_mask_greedy_push(old_quads, quad, m, w, true);
                        lemma_add_rect(
                            old_quads,
                            quad,
                            old_visited,
                            visited@,
                            m,
                            w,
                            h,
                            direction,
                            slice as int,
                            block_id,
                        );
                        assert forall|a: int, b: int|
                            0 <= a < w && 0 <= b < j && (#[trigger] cell(m, w, a, b)) is Some implies vcell(
                                visited@,
                                w,
                                a,
                                b,
                            ) by {
                            assert(vcell(old_visited, w, a, b));
                        }
                        assert forall|a: int|
                            0 <= a < i + 1 && (#[trigger] cell(m, w, a, j as int)) is Some implies vcell(
                                visited@,
                                w,
                                a,
                                j as int,
                            ) by {
                            if a < i {
                                assert(vcell(old_visited, w, a, j as int));
                            } else {
                                assert(covers(quad, a, j as int));
                            }
                        }
                    }
                } else {
                    proof {
                        assert forall|a: int|
                            0 <= a < i + 1 && (#[trigger] cell(m, w, a, j as int)) is Some implies vcell(
                                visited@,
                                w,
                                a,
                                j as int,
                            ) by {
                            if a == i {
                                assert(vcell(visited@, w, i as int, j as int) == visited@[mask_index as int]);
                            }
                        }
                    }
                }
                i = i + 1;
            }
            proof {
                assert(j * width + width == (j + 1) * width) by (nonlinear_arith);
            }
            j = j + 1;
        }
        proof {
            assert(j * width == width * height) by (nonlinear_arith)
                requires j == height;
            lemma_inv_quads_final(quads@, visited@, m, w, h, direction, slice as int);
        }
        quads
    }

    /// Find the largest rectangle of the same block type starting at (start_i, start_j)
    fn find_largest_rect(
        &self,
        start_i: usize,
        start_j: usize,
        width: usize,
        height: usize,
        block_id: BlockId,
        visited: &mut Vec<bool>,
    ) -> (res: (usize, usize))
        requires
            start_i < width,
            start_j < height,
            width * height <= u32::MAX,
            self.mask@.len() >= width * height,
            old(visited)@.len() == width * height,
            !vcell(old(visited)@, width as int, start_i as int, start_j as int),
            cell(self.mask@, width as int, start_i as int, start_j as int) == Some(block_id),
        ensures
            final(visited)@.len() == old(visited)@.len(),
            1 <= res.0,
            start_i + res.0 <= width,
            1 <= res.1,
            start_j + res.1 <= height,
            forall|i: int, j: int|
                start_i <= i < start_i + res.0 && start_j <= j < start_j + res.1 ==> !vcell(
                    old(visited)@,
                    width as int,
                    i,
                    j,
                ) && #[trigger] cell(self.mask@, width as int, i, j) == Some(block_id),
            forall|i: int, j: int|
                0 <= i < width && 0 <= j < height ==> #[trigger] vcell(final(visited)@, width as int, i, j)
                    == (vcell(old(visited)@, width as int, i, j) || (start_i <= i < start_i + res.0
                    && start_j <= j < start_j + res.1)),
            // The first row stops at the edge, a visited cell or another block.
            !(start_i + res.0 < width && !vcell(old(visited)@, width as int, start_i + res.0, start_j as int)
                && cell(self.mask@, width as int, start_i + res.0, start_j as int) == Some(block_id)),
            // The row below stops it somewhere within its columns.
            start_j + res.1 < height ==> exists|a: int|
                start_i <= a < start_i + res.0 && (vcell(old(visited)@, width as int, a, start_j + res.1)
                    || #[trigger] cell(self.mask@, width as int, a, start_j + res.1) != Some(block_id)),
    {
        let ghost w = width as int;
        let ghost h = height as int;
        let ghost v0 = visited@;
        // First, extend horizontally as far as possible
        let mut quad_width: usize = 1;
        let mut i = start_i + 1;
        while i < width
            invariant
                start_i < i <= width,
                width * height <= u32::MAX,
                quad_width == i - start_i,
                visited@ == v0,
                v0.len() == w * h,
                w == width,
                h == height,
                start_j < height,
                self.mask@.len() >= width * height,
                forall|a: int|
                    start_i <= a < i ==> !vcell(v0, w, a, start_j as int) && #[trigger] cell(
                        self.mask@,
                        w,
                        a,
                        start_j as int,
                    ) == Some(block_id),
            ensures
                start_i < i <= width,
                quad_width == i - start_i,
                i == width || vcell(v0, w, i as int, start_j as int) || cell(self.mask@, w, i as int, start_j as int)
                    != Some(block_id),
                forall|a: int|
                    start_i <= a < i ==> !vcell(v0, w, a, start_j as int) && #[trigger] cell(
                        self.mask@,
                        w,
                        a,
                        start_j as int,
                    ) == Some(block_id),
            decreases width - i,
        {
            proof {
                lemma_cell_index(w, h, i as int, start_j as int);
            }
            let mask_index = start_j * width + i;
            let matches = match self.mask[mask_index] {
                Some(b) => b == block_id,
                None => false,
            };
            if visited[mask_index] || !matches {
                break;
            }
            quad_width += 1;
            i = i + 1;
        }
        // Then, extend vertically while maintaining width
        let mut quad_height: usize = 1;
        let mut j = start_j + 1;
        while j < height
            invariant
                start_j + 1 <= j <= height,
                quad_height == j - start_j,
                1 <= quad_width,
                start_i + quad_width <= width,
                width * height <= u32::MAX,
                visited@ == v0,
                v0.len() == w * h,
                w == width,
                h == height,
                self.mask@.len() >= width * height,
                forall|a: int, b: int|
                    start_i <= a < start_i + quad_width && start_j <= b < j ==> !vcell(v0, w, a, b)
                        && #[trigger] cell(self.mask@, w, a, b) == Some(block_id),
            ensures
                start_j + 1 <= j <= height,
                quad_height == j - start_j,
                forall|a: int, b: int|
                    start_i <= a < start_i + quad_width && start_j <= b < j ==> !vcell(v0, w, a, b)
                        && #[trigger] cell(self.mask@, w, a, b) == Some(block_id),
                j == height || exists|a: int|
                    start_i <= a < start_i + quad_width && (vcell(v0, w, a, j as int) || #[trigger] cell(
                        self.mask@,
                        w,
                        a,
                        j as int,
                    ) != Some(block_id)),
            decreases height - j,
        {
            let mut can_extend = true;
            let mut i = start_i;
            while i < start_i + quad_width
                invariant_except_break
                    can_extend,
                invariant
                    start_i <= i <= start_i + quad_width,
                    start_i + quad_width <= width,
                    j < height,
                    width * height <= u32::MAX,
                    visited@ == v0,
                    v0.len() == w * h,
                    w == width,
                    h == height,
                    self.mask@.len() >= width * height,
                    forall|a: int|
                        start_i <= a < i ==> !vcell(v0, w, a, j as int) && #[trigger] cell(
                            self.mask@,
                            w,
                            a,
                            j as int,
                        ) == Some(block_id),
                ensures
                    can_extend ==> i == start_i + quad_width,
                    !can_extend ==> start_i <= i < start_i + quad_width && (vcell(v0, w, i as int, j as int) || cell(
                        self.mask@,
                        w,
                        i as int,
                        j as int,
                    ) != Some(block_id)),
                decreases start_i + quad_width - i,
            {
                proof {
                    lemma_cell_index(w, h, i as int, j as int);
                }
                let mask_index = j * width + i;
                let matches = match self.mask[mask_index] {
                    Some(b) => b == block_id,
                    None => false,
                };
                if visited[mask_index] || !matches {
                    can_extend = false;
                    break;
                }
                i = i + 1;
            }
            if !can_extend {
                break;
            }
            quad_height += 1;
            j = j + 1;
        }
        // Mark all cells in the rectangle as visited
        let mut j = start_j;
        while j < start_j + quad_height
            invariant
                start_j <= j <= start_j + quad_height,
                start_j + quad_height <= height,
                start_i + quad_width <= width,
                width * height <= u32::MAX,
                w == width,
                h == height,
                visited@.len() == w * h,
                forall|a: int, b: int|
                    0 <= a < w && 0 <= b < h ==> #[trigger] vcell(visited@, w, a, b) == (vcell(v0, w, a, b)
                        || (start_i <= a < start_i + quad_width && start_j <= b < j)),
            decreases start_j + quad_height - j,
        {
            let mut i = start_i;
            while i < start_i + quad_width
                invariant
                    start_i <= i <= start_i + quad_width,
                    start_j <= j < start_j + quad_height,
                    start_j + quad_height <= height,
                    start_i + quad_width <= width,
                    width * height <= u32::MAX,
                    w == width,
                    h == height,
                    visited@.len() == w * h,
                    forall|a: int, b: int|
                        0 <= a < w && 0 <= b < h ==> #[trigger] vcell(visited@, w, a, b) == (vcell(
                            v0,
                            w,
                            a,
                            b,
                        ) || (start_i <= a < start_i + quad_width && start_j <= b < j) || (b == j
                            && start_i <= a < i)),
                decreases start_i + quad_width - i,
            {
                proof {
                    lemma_cell_index(w, h, i as int, j as int);
                }
                let mask_index = j * width + i;
                let ghost before = visited@;
                visited.set(mask_index, true);
                proof {
                    assert forall|a: int, b: int| 0 <= a < w && 0 <= b < h implies #[trigger] vcell(
                        visited@,
                        w,
                        a,
                        b,
                    ) == (vcell(v0, w, a, b) || (start_i <= a < start_i + quad_width && start_j <= b
                        < j) || (b == j && start_i <= a < i + 1)) by {
                        lemma_cell_index(w, h, a, b);
                        lemma_cell_index_injective(w, a, b, i as int, j as int);
                        assert(vcell(before, w, a, b) == (vcell(v0, w, a, b) || (start_i <= a < start_i
                            + quad_width && start_j <= b < j) || (b == j && start_i <= a < i)));
                    }
                }
                i = i + 1;
            }
            j = j + 1;
        }
        (quad_width, quad_height)
    }

    /// Create a quad from face parameters
    fn create_quad(
        &self,
        direction: FaceDirection,
        slice: usize,
        i: usize,
        j: usize,
        quad_width: usize,
        quad_height: usize,
        block_id: BlockId,
    ) -> (q: GreedyQuad)
        requires
            slice < u32::MAX,
            i + quad_width <= u32::MAX,
            j + quad_height <= u32::MAX,
        ensures
            q.min_x == i,
            q.min_y == j,
            q.max_x == i + quad_width,
            q.max_y == j + quad_height,
            q.face_direction == direction,
            q.block_id == block_id,
            quad_slice(q) == slice,
            q.position_offset[0] == offset_for(direction, slice as int, i as int, j as int).0,
            q.position_offset[1] == offset_for(direction, slice as int, i as int, j as int).1,
            q.position_offset[2] == offset_for(direction, slice as int, i as int, j as int).2,
    {
        quad_at(direction, slice, i, j, quad_width, quad_height, block_id)
    }

    /// Check if a block type is transparent (allows face rendering for neighbors)
    fn is_transparent(&self, block_id: BlockId) -> (t: bool)
        ensures
            t == (block_id == AIR),
    {
        block_id == AIR
    }
}


/// The quad of `block_id` on `slice` of `direction` that starts at mask cell
/// `(i, j)` and spans `quad_width` by `quad_height` cells.
pub(crate) fn quad_at(
    direction: FaceDirection,
    slice: usize,
    i: usize,
    j: usize,
    quad_width: usize,
    quad_height: usize,
    block_id: BlockId,
) -> (q: GreedyQuad)
    requires
        slice < u32::MAX,
        i + quad_width <= u32::MAX,
        j + quad_height <= u32::MAX,
    ensures
        q.min_x == i,
        q.min_y == j,
        q.max_x == i + quad_width,
        q.max_y == j + quad_height,
        q.face_direction == direction,
        q.block_id == block_id,
        quad_slice(q) == slice,
        q.position_offset[0] == offset_for(direction, slice as int, i as int, j as int).0,
        q.position_offset[1] == offset_for(direction, slice as int, i as int, j as int).1,
        q.position_offset[2] == offset_for(direction, slice as int, i as int, j as int).2,
{
    let si = slice as u32;
    let ii = i as u32;
    let jj = j as u32;
    let position_offset = match direction {
        FaceDirection::North => [ii, jj, si],
        FaceDirection::South => [ii, jj, si + 1],
        FaceDirection::West => [si, jj, ii],
        FaceDirection::East => [si + 1, jj, ii],
        FaceDirection::Down => [ii, si, jj],
        FaceDirection::Up => [ii, si + 1, jj],
    };
    GreedyQuad {
        min_x: ii,
        min_y: jj,
        max_x: (i + quad_width) as u32,
        max_y: (j + quad_height) as u32,
        face_direction: direction,
        block_id,
        position_offset,
    }
}

/// Loop invariant of the greedy scan: quads cover only visited, unmerged
/// cells of their block, every visited cell is covered, and no cell twice.
pub open spec fn inv_quads(
    qs: Seq<GreedyQuad>,
    v: Seq<bool>,
    m: Seq<Option<BlockId>>,
    w: int,
    h: int,
    dir: FaceDirection,
    slice: int,
) -> bool {
    &&& forall|k: int|
        0 <= k < qs.len() ==> on_slice(#[trigger] qs[k], dir, slice) && quad_well_placed(qs[k], w)
    &&& forall|k: int, i: int, j: int|
        0 <= k < qs.len() && #[trigger] covers(qs[k], i, j) ==> 0 <= i < w && 0 <= j < h && vcell(
            v,
            w,
            i,
            j,
        ) && cell(m, w, i, j) == Some(qs[k].block_id)
    &&& forall|i: int, j: int|
        0 <= i < w && 0 <= j < h && #[trigger] vcell(v, w, i, j) ==> exists|k: int|
            0 <= k < qs.len() && #[trigger] covers(qs[k], i, j)
    &&& forall|k1: int, k2: int, i: int, j: int|
        0 <= k1 < qs.len() && 0 <= k2 < qs.len() && k1 != k2 && #[trigger] covers(qs[k1], i, j)
            ==> !#[trigger] covers(qs[k2], i, j)
}

pub(crate) proof fn lemma_add_rect(
    qs: Seq<GreedyQuad>,
    q: GreedyQuad,
    v0: Seq<bool>,
    v1: Seq<bool>,
    m: Seq<Option<BlockId>>,
    w: int,
    h: int,
    dir: FaceDirection,
    slice: int,
    block: BlockId,
)
    requires
        inv_quads(qs, v0, m, w, h, dir, slice),
        w == h,
        0 <= slice < w,
        q.face_direction == dir,
        quad_slice(q) == slice,
        q.block_id == block,
        q.min_x < q.max_x <= w,
        q.min_y < q.max_y <= h,
        q.position_offset[0] == offset_for(dir, slice, q.min_x as int, q.min_y as int).0,
        q.position_offset[1] == offset_for(dir, slice, q.min_x as int, q.min_y as int).1,
        q.position_offset[2] == offset_for(dir, slice, q.min_x as int, q.min_y as int).2,
        forall|i: int, j: int|
            covers(q, i, j) ==> !vcell(v0, w, i, j) && #[trigger] cell(m, w, i, j) == Some(block),
        forall|i: int, j: int|
            0 <= i < w && 0 <= j < h ==> #[trigger] vcell(v1, w, i, j) == (vcell(v0, w, i, j) || covers(
                q,
                i,
                j,
            )),
    ensures
        inv_quads(qs.push(q), v1, m, w, h, dir, slice),
{
    let qs1 = qs.push(q);
    assert forall|k: int| 0 <= k < qs1.len() implies on_slice(#[trigger] qs1[k], dir, slice)
        && quad_well_placed(qs1[k], w) by {
        if k < qs.len() {
            assert(qs1[k] == qs[k]);
        }
    }
    assert forall|k: int, i: int, j: int|
        0 <= k < qs1.len() && #[trigger] covers(qs1[k], i, j) implies 0 <= i < w && 0 <= j < h && vcell(
        v1,
        w,
        i,
        j,
    ) && cell(m, w, i, j) == Some(qs1[k].block_id) by {
        if k < qs.len() {
            assert(qs1[k] == qs[k]);
            assert(covers(qs[k], i, j));
        }
    }
    assert forall|i: int, j: int| 0 <= i < w && 0 <= j < h && #[trigger] vcell(v1, w, i, j) implies exists|
        k: int,
    | 0 <= k < qs1.len() && #[trigger] covers(qs1[k], i, j) by {
        if vcell(v0, w, i, j) {
            let k = choose|k: int| 0 <= k < qs.len() && #[trigger] covers(qs[k], i, j);
            assert(qs1[k] == qs[k]);
        } else {
            assert(qs1[qs.len() as int] == q);
            assert(covers(qs1[qs.len() as int], i, j));
        }
    }
    assert forall|k1: int, k2: int, i: int, j: int|
        0 <= k1 < qs1.len() && 0 <= k2 < qs1.len() && k1 != k2 && #[trigger] covers(qs1[k1], i, j)
            implies !#[trigger] covers(qs1[k2], i, j) by {
        if k1 < qs.len() && k2 < qs.len() {
            assert(qs1[k1] == qs[k1]);
            assert(qs1[k2] == qs[k2]);
        } else if k1 < qs.len() {
            assert(qs1[k1] == qs[k1]);
            assert(covers(qs[k1], i, j));
            assert(vcell(v0, w, i, j));
        } else {
            assert(qs1[k2] == qs[k2]);
            if covers(qs1[k2], i, j) {
                assert(covers(qs[k2], i, j));
                assert(vcell(v0, w, i, j));
            }
        }
    }
}

pub(crate) proof fn lemma_inv_quads_final(
    qs: Seq<GreedyQuad>,
    v: Seq<bool>,
    m: Seq<Option<BlockId>>,
    w: int,
    h: int,
    dir: FaceDirection,
    slice: int,
)
    requires
        inv_quads(qs, v, m, w, h, dir, slice),
        forall|a: int, b: int|
            0 <= a < w && 0 <= b < h && (#[trigger] cell(m, w, a, b)) is Some ==> vcell(v, w, a, b),
    ensures
        mask_partitioned(qs, m, w, h, dir, slice),
{
    assert forall|i: int, j: int|
        0 <= i < w && 0 <= j < h && (#[trigger] cell(m, w, i, j)) is Some implies exists|k: int|
        0 <= k < qs.len() && #[trigger] covers(qs[k], i, j) by {
        assert(vcell(v, w, i, j));
    }
}

proof fn lemma_partition_from_mask(
    old_quads: Seq<GreedyQuad>,
    sq: Seq<GreedyQuad>,
    m: Seq<Option<BlockId>>,
    chunk: &Chunk,
    dir: FaceDirection,
    slice: int,
)
    requires
        forall|k: int| 0 <= k < old_quads.len() ==> quad_slice(#[trigger] old_quads[k]) < slice,
        mask_partitioned(sq, m, chunk.spec_size() as int, chunk.spec_size() as int, dir, slice),
        forall|i: int, j: int|
            0 <= i < chunk.spec_size() && 0 <= j < chunk.spec_size() ==> #[trigger] cell(
                m,
                chunk.spec_size() as int,
                i,
                j,
            ) == face_cell(chunk, dir, slice, i, j),
    ensures
        slice_partitioned(old_quads + sq, chunk, dir, slice),
{
    let qs = old_quads + sq;
    let s = chunk.spec_size() as int;
    let n = old_quads.len();
    assert forall|k: int, i: int, j: int|
        0 <= k < qs.len() && on_slice(qs[k], dir, slice) && #[trigger] covers(qs[k], i, j) implies 0
        <= i < s && 0 <= j < s && face_cell(chunk, dir, slice, i, j) == Some(qs[k].block_id) by {
        if k < n {
            assert(qs[k] == old_quads[k]);
        } else {
            assert(qs[k] == sq[k - n]);
            assert(covers(sq[k - n], i, j));
            assert(cell(m, s, i, j) == face_cell(chunk, dir, slice, i, j));
        }
    }
    assert forall|i: int, j: int|
        0 <= i < s && 0 <= j < s && (#[trigger] face_cell(chunk, dir, slice, i, j)) is Some implies exists|
        k: int,
    | 0 <= k < qs.len() && on_slice(qs[k], dir, slice) && #[trigger] covers(qs[k], i, j) by {
        assert(cell(m, s, i, j) == face_cell(chunk, dir, slice, i, j));
        let k0 = choose|k: int| 0 <= k < sq.len() && #[trigger] covers(sq[k], i, j);
        assert(qs[n + k0] == sq[k0]);
        assert(on_slice(sq[k0], dir, slice));
        assert(covers(qs[n + k0], i, j));
    }
    assert forall|k1: int, k2: int, i: int, j: int|
        0 <= k1 < qs.len() && 0 <= k2 < qs.len() && k1 != k2 && on_slice(qs[k1], dir, slice)
            && on_slice(qs[k2], dir, slice) && #[trigger] covers(qs[k1], i, j) implies !#[trigger] covers(
        qs[k2],
        i,
        j,
    ) by {
        if k1 < n {
            assert(qs[k1] == old_quads[k1]);
        } else if k2 < n {
            assert(qs[k2] == old_quads[k2]);
        } else {
            assert(qs[k1] == sq[k1 - n]);
            assert(qs[k2] == sq[k2 - n]);
            assert(covers(sq[k1 - n], i, j));
        }
    }
}

proof fn lemma_partition_extend_same_dir_other_slice(
    old_quads: Seq<GreedyQuad>,
    sq: Seq<GreedyQuad>,
    chunk: &Chunk,
    dir: FaceDirection,
    sl: int,
    slice: int,
)
    requires
        sl < slice,
        slice_partitioned(old_quads, chunk, dir, sl),
        forall|k: int| 0 <= k < sq.len() ==> quad_slice(#[trigger] sq[k]) == slice,
    ensures
        slice_partitioned(old_quads + sq, chunk, dir, sl),
{
    let qs = old_quads + sq;
    let n = old_quads.len();
    assert forall|k: int| n <= k < qs.len() implies !on_slice(#[trigger] qs[k], dir, sl) by {
        assert(qs[k] == sq[k - n]);
    }
    lemma_partition_prefix(old_quads, sq, chunk, dir, sl);
}

proof fn lemma_partition_extend_other(
    old_quads: Seq<GreedyQuad>,
    fq: Seq<GreedyQuad>,
    chunk: &Chunk,
    dir: FaceDirection,
    slice: int,
    new_dir: FaceDirection,
)
    requires
        dir != new_dir,
        slice_partitioned(old_quads, chunk, dir, slice),
        forall|k: int| 0 <= k < fq.len() ==> (#[trigger] fq[k]).face_direction == new_dir,
    ensures
        slice_partitioned(old_quads + fq, chunk, dir, slice),
{
    let qs = old_quads + fq;
    let n = old_quads.len();
    assert forall|k: int| n <= k < qs.len() implies !on_slice(#[trigger] qs[k], dir, slice) by {
        assert(qs[k] == fq[k - n]);
    }
    lemma_partition_prefix(old_quads, fq, chunk, dir, slice);
}

/// Appending quads that lie elsewhere keeps a slice's tiling.
proof fn lemma_partition_prefix(
    old_quads: Seq<GreedyQuad>,
    extra: Seq<GreedyQuad>,
    chunk: &Chunk,
    dir: FaceDirection,
    slice: int,
)
    requires
        slice_partitioned(old_quads, chunk, dir, slice),
        forall|k: int|
            old_quads.len() <= k < (old_quads + extra).len() ==> !on_slice(
                #[trigger] (old_quads + extra)[k],
                dir,
                slice,
            ),
    ensures
        slice_partitioned(old_quads + extra, chunk, dir, slice),
{
    let qs = old_quads + extra;
    let n = old_quads.len();
    let s = chunk.spec_size() as int;
    assert forall|k: int, i: int, j: int|
        0 <= k < qs.len() && on_slice(qs[k], dir, slice) && #[trigger] covers(qs[k], i, j) implies 0
        <= i < s && 0 <= j < s && face_cell(chunk, dir, slice, i, j) == Some(qs[k].block_id) by {
        if k < n {
            assert(qs[k] == old_quads[k]);
            assert(covers(old_quads[k], i, j));
        }
    }
    assert forall|i: int, j: int|
        0 <= i < s && 0 <= j < s && (#[trigger] face_cell(chunk, dir, slice, i, j)) is Some implies exists|
        k: int,
    | 0 <= k < qs.len() && on_slice(qs[k], dir, slice) && #[trigger] covers(qs[k], i, j) by {
        let k0 = choose|k: int|
            0 <= k < old_quads.len() && on_slice(old_quads[k], dir, slice) && #[trigger] covers(
                old_quads[k],
                i,
                j,
            );
        assert(qs[k0] == old_quads[k0]);
    }
    assert forall|k1: int, k2: int, i: int, j: int|
        0 <= k1 < qs.len() && 0 <= k2 < qs.len() && k1 != k2 && on_slice(qs[k1], dir, slice)
            && on_slice(qs[k2], dir, slice) && #[trigger] covers(qs[k1], i, j) implies !#[trigger] covers(
        qs[k2],
        i,
        j,
    ) by {
        if k1 < n && k2 < n {
            assert(qs[k1] == old_quads[k1]);
            assert(qs[k2] == old_quads[k2]);
            assert(covers(old_quads[k1], i, j));
        }
    }
}

proof fn lemma_partition_extend_new(
    old_quads: Seq<GreedyQuad>,
    fq: Seq<GreedyQuad>,
    chunk: &Chunk,
    dir: FaceDirection,
    slice: int,
)
    requires
        slice_partitioned(fq, chunk, dir, slice),
        forall|k: int| 0 <= k < old_quads.len() ==> (#[trigger] old_quads[k]).face_direction != dir,
    ensures
        slice_partitioned(old_quads + fq, chunk, dir, slice),
{
    let qs = old_quads + fq;
    let n = old_quads.len();
    let s = chunk.spec_size() as int;
    assert forall|k: int, i: int, j: int|
        0 <= k < qs.len() && on_slice(qs[k], dir, slice) && #[trigger] covers(qs[k], i, j) implies 0
        <= i < s && 0 <= j < s && face_cell(chunk, dir, slice, i, j) == Some(qs[k].block_id) by {
        if k < n {
            assert(qs[k] == old_quads[k]);
        } else {
            assert(qs[k] == fq[k - n]);
            assert(covers(fq[k - n], i, j));
        }
    }
    assert forall|i: int, j: int|
        0 <= i < s && 0 <= j < s && (#[trigger] face_cell(chunk, dir, slice, i, j)) is Some implies exists|
        k: int,
    | 0 <= k < qs.len() && on_slice(qs[k], dir, slice) && #[trigger] covers(qs[k], i, j) by {
        let k0 = choose|k: int|
            0 <= k < fq.len() && on_slice(fq[k], dir, slice) && #[trigger] covers(fq[k], i, j);
        assert(qs[n + k0] == fq[k0]);
        assert(covers(qs[n + k0], i, j));
    }
    assert forall|k1: int, k2: int, i: int, j: int|
        0 <= k1 < qs.len() && 0 <= k2 < qs.len() && k1 != k2 && on_slice(qs[k1], dir, slice)
            && on_slice(qs[k2], dir, slice) && #[trigger] covers(qs[k1], i, j) implies !#[trigger] covers(
        qs[k2],
        i,
        j,
    ) by {
        if k1 < n {
            assert(qs[k1] == old_quads[k1]);
        } else if k2 < n {
            assert(qs[k2] == old_quads[k2]);
        } else {
            assert(qs[k1] == fq[k1 - n]);
            assert(qs[k2] == fq[k2 - n]);
            assert(covers(fq[k1 - n], i, j));
        }
    }
}

} // verus!
