//! Chunk meshing through block lookup functions: the faces of solid
//! blocks that border air, visited layer by layer (y), row by row (z),
//! block by block (x), with sky light from the blocks above.
use vstd::prelude::*;
use crate::world::{AIR, BlockId, Chunk};
use crate::data_mesh_builder::{after_quads, all_fit, BlockFace, FaceQuad, MeshBuffer};
use crate::data_mesh_builder::operations::add_quads_until_full;
use crate::world::ChunkPos;
use crate::clock::{elapsed_nanos, now};
use crate::open_faces::{lemma_grid_faces_are_open_faces, open_faces};

verus! {

/// The block a lookup `f` reports at `(x, y, z)` inside the chunk.
pub open spec fn block_of<F: Fn(u32, u32, u32) -> BlockId>(f: F, x: u32, y: u32, z: u32) -> BlockId {
    choose|b: BlockId| call_ensures(f, (x, y, z), b)
}

/// The block a world lookup `g` reports at `(x, y, z)`.
pub open spec fn world_block_of<G: Fn(i32, i32, i32) -> BlockId>(g: G, x: i32, y: i32, z: i32) -> BlockId {
    choose|b: BlockId| call_ensures(g, (x, y, z), b)
}

/// A lookup that gives one answer per position.
pub open spec fn lookup_is_function<F: Fn(u32, u32, u32) -> BlockId>(f: F) -> bool {
    forall|x: u32, y: u32, z: u32, b1: BlockId, b2: BlockId|
        #![trigger call_ensures(f, (x, y, z), b1), call_ensures(f, (x, y, z), b2)]
        call_ensures(f, (x, y, z), b1) && call_ensures(f, (x, y, z), b2) ==> b1 == b2
}

/// A world lookup that gives one answer per position.
pub open spec fn world_lookup_is_function<G: Fn(i32, i32, i32) -> BlockId>(g: G) -> bool {
    forall|x: i32, y: i32, z: i32, b1: BlockId, b2: BlockId|
        #![trigger call_ensures(g, (x, y, z), b1), call_ensures(g, (x, y, z), b2)]
        call_ensures(g, (x, y, z), b1) && call_ensures(g, (x, y, z), b2) ==> b1 == b2
}

/// The lookup may be called anywhere inside a chunk of size `s`.
pub open spec fn lookup_callable<F: Fn(u32, u32, u32) -> BlockId>(f: F, s: u32) -> bool {
    forall|x: u32, y: u32, z: u32| x < s && y < s && z < s ==> call_requires(f, (x, y, z))
}

/// The world lookup may be called anywhere.
pub open spec fn world_lookup_callable<G: Fn(i32, i32, i32) -> BlockId>(g: G) -> bool {
    forall|x: i32, y: i32, z: i32| call_requires(g, (x, y, z))
}

pub fn fetch_block<F: Fn(u32, u32, u32) -> BlockId>(f: &F, x: u32, y: u32, z: u32) -> (b: BlockId)
    requires
        call_requires(*f, (x, y, z)),
        lookup_is_function(*f),
    ensures
        b == block_of(*f, x, y, z),
{
    let b = f(x, y, z);
    proof {
        let c = block_of(*f, x, y, z);
        assert(call_ensures(*f, (x, y, z), c));
    }
    b
}

pub fn fetch_world_block<G: Fn(i32, i32, i32) -> BlockId>(g: &G, x: i32, y: i32, z: i32) -> (b: BlockId)
    requires
        call_requires(*g, (x, y, z)),
        world_lookup_is_function(*g),
    ensures
        b == world_block_of(*g, x, y, z),
{
    let b = g(x, y, z);
    proof {
        let c = world_block_of(*g, x, y, z);
        assert(call_ensures(*g, (x, y, z), c));
    }
    b
}

/// Faces of the blocks at `x < n` of row `(y, z)`.
pub open spec fn row_faces(per: spec_fn(u32, u32, u32) -> Seq<FaceQuad>, y: u32, z: u32, n: nat) -> Seq<FaceQuad> {
    Seq::new(n, |x: int| per(x as u32, y, z)).flatten()
}

/// Faces of the rows `z < n` of layer `y`.
pub open spec fn layer_faces(per: spec_fn(u32, u32, u32) -> Seq<FaceQuad>, s: u32, y: u32, n: nat) -> Seq<FaceQuad> {
    Seq::new(n, |z: int| row_faces(per, y, z as u32, s as nat)).flatten()
}

/// Faces of the layers `y < n` of a chunk of size `s`, per block by `per`.
pub open spec fn grid_faces(per: spec_fn(u32, u32, u32) -> Seq<FaceQuad>, s: u32, n: nat) -> Seq<FaceQuad> {
    Seq::new(n, |y: int| layer_faces(per, s, y as u32, s as nat)).flatten()
}

pub proof fn lemma_flatten_new_step<A>(n: nat, f: spec_fn(int) -> Seq<A>)
    ensures
        Seq::new(n + 1, f).flatten() == Seq::new(n, f).flatten() + f(n as int),
{
    assert(Seq::new(n + 1, f) =~= Seq::new(n, f).push(f(n as int)));
    Seq::new(n, f).lemma_flatten_push(f(n as int));
}

/// Top and bottom faces only, full light, no occlusion: the top face when
/// the block is on the top layer or has air above, the bottom face when it
/// is on the bottom layer or has air below.
pub open spec fn top_bottom_block_faces<F: Fn(u32, u32, u32) -> BlockId>(f: F, s: u32, x: u32, y: u32, z: u32) -> Seq<FaceQuad> {
    let b = block_of(f, x, y, z);
    if b == AIR {
        Seq::empty()
    } else {
        (if y == s - 1 || block_of(f, x, (y + 1) as u32, z) == AIR {
            seq![FaceQuad { face: BlockFace::Top, x, y, z, block: b, light: 15, ao: [255u8, 255u8, 255u8, 255u8] }]
        } else {
            Seq::empty()
        }) + (if y == 0 || block_of(f, x, (y - 1) as u32, z) == AIR {
            seq![FaceQuad { face: BlockFace::Bottom, x, y, z, block: b, light: 15, ao: [255u8, 255u8, 255u8, 255u8] }]
        } else {
            Seq::empty()
        })
    }
}

pub open spec fn top_bottom_faces_fn<F: Fn(u32, u32, u32) -> BlockId>(f: F, s: u32) -> spec_fn(u32, u32, u32) -> Seq<FaceQuad> {
    |x: u32, y: u32, z: u32| top_bottom_block_faces(f, s, x, y, z)
}

fn push_top_bottom<F: Fn(u32, u32, u32) -> BlockId>(out: &mut Vec<FaceQuad>, f: &F, s: u32, x: u32, y: u32, z: u32)
    requires
        x < s,
        y < s,
        z < s,
        lookup_callable(*f, s),
        lookup_is_function(*f),
    ensures
        final(out)@ == old(out)@ + top_bottom_block_faces(*f, s, x, y, z),
        forall|k: int| old(out)@.len() <= k < final(out)@.len() ==> final(out)@[k].x == x && final(out)@[k].y == y
            && final(out)@[k].z == z,
{
    let b = fetch_block(f, x, y, z);
    if b == AIR {
        proof {
            assert(final(out)@ =~= old(out)@ + top_bottom_block_faces(*f, s, x, y, z));
        }
        return;
    }
    let ghost start = out@;
    let full: [u8; 4] = [255, 255, 255, 255];
    let top = y == s - 1 || fetch_block(f, x, y + 1, z) == AIR;
    if top {
        out.push(FaceQuad { face: BlockFace::Top, x, y, z, block: b, light: 15, ao: full });
    }
    let ghost mid = out@;
    let bottom = y == 0 || fetch_block(f, x, y - 1, z) == AIR;
    if bottom {
        out.push(FaceQuad { face: BlockFace::Bottom, x, y, z, block: b, light: 15, ao: full });
    }
    proof {
        assert(full@ =~= [255u8, 255u8, 255u8, 255u8]@);
        assert(out@ =~= start + top_bottom_block_faces(*f, s, x, y, z));
    }
}

/// The top and bottom faces of a chunk's solid blocks, in layer, row,
/// block order.
pub fn collect_top_bottom_faces<F: Fn(u32, u32, u32) -> BlockId>(chunk_size: u32, get_block: &F) -> (r: Vec<FaceQuad>)
    requires
        lookup_callable(*get_block, chunk_size),
        lookup_is_function(*get_block),
    ensures
        r@ == grid_faces(top_bottom_faces_fn(*get_block, chunk_size), chunk_size, chunk_size as nat),
        forall|k: int| 0 <= k < r@.len() ==> r@[k].x < chunk_size && r@[k].y < chunk_size && r@[k].z < chunk_size,
{
    let ghost per = top_bottom_faces_fn(*get_block, chunk_size);
    let s = chunk_size;
    let mut out: Vec<FaceQuad> = Vec::new();
    let mut y: u32 = 0;
    proof {
        assert(Seq::new(0, |yy: int| layer_faces(per, s, yy as u32, s as nat)).flatten() =~= Seq::<FaceQuad>::empty());
    }
    while y < s
        invariant
            y <= s,
            s == chunk_size,
            per == top_bottom_faces_fn(*get_block, chunk_size),
            lookup_callable(*get_block, s),
            lookup_is_function(*get_block),
            out@ == grid_faces(per, s, y as nat),
            forall|k: int| 0 <= k < out@.len() ==> out@[k].x < s && out@[k].y < s && out@[k].z < s,
        decreases s - y,
    {
        let mut z: u32 = 0;
        proof {
            assert(Seq::new(0, |zz: int| row_faces(per, y, zz as u32, s as nat)).flatten() =~= Seq::<FaceQuad>::empty());
        }
        while z < s
            invariant
                y < s,
                z <= s,
                s == chunk_size,
                per == top_bottom_faces_fn(*get_block, chunk_size),
                lookup_callable(*get_block, s),
                lookup_is_function(*get_block),
                out@ == grid_faces(per, s, y as nat) + layer_faces(per, s, y, z as nat),
                forall|k: int| 0 <= k < out@.len() ==> out@[k].x < s && out@[k].y < s && out@[k].z < s,
            decreases s - z,
        {
            let mut x: u32 = 0;
            proof {
                assert(Seq::new(0, |xx: int| per(xx as u32, y, z)).flatten() =~= Seq::<FaceQuad>::empty());
            }
            while x < s
                invariant
                    y < s,
                    z < s,
                    x <= s,
                    s == chunk_size,
                    per == top_bottom_faces_fn(*get_block, chunk_size),
                    lookup_callable(*get_block, s),
                    lookup_is_function(*get_block),
                    out@ == grid_faces(per, s, y as nat) + layer_faces(per, s, y, z as nat) + row_faces(
                        per,
                        y,
                        z,
                        x as nat,
                    ),
                    forall|k: int| 0 <= k < out@.len() ==> out@[k].x < s && out@[k].y < s && out@[k].z < s,
                decreases s - x,
            {
                push_top_bottom(&mut out, get_block, s, x, y, z);
                proof {
                    lemma_flatten_new_step(x as nat, |xx: int| per(xx as u32, y, z));
                    assert(per(x, y, z) == top_bottom_block_faces(*get_block, s, x, y, z));
                }
                x = x + 1;
            }
            proof {
                lemma_flatten_new_step(z as nat, |zz: int| row_faces(per, y, zz as u32, s as nat));
            }
            z = z + 1;
        }
        proof {
            lemma_flatten_new_step(y as nat, |yy: int| layer_faces(per, s, yy as u32, s as nat));
        }
        y = y + 1;
    }
    out
}

/// The blocks a chunk lookup `f` reports, as a function of the position.
pub open spec fn lookup_blocks<F: Fn(u32, u32, u32) -> BlockId>(f: F) -> spec_fn(u32, u32, u32) -> BlockId {
    |x: u32, y: u32, z: u32| block_of(f, x, y, z)
}

/// The blocks a world lookup `g` reports, as a function of the position.
pub open spec fn world_lookup_blocks<G: Fn(i32, i32, i32) -> BlockId>(g: G) -> spec_fn(i32, i32, i32) -> BlockId {
    |x: i32, y: i32, z: i32| world_block_of(g, x, y, z)
}

/// Whether the face towards `(nx, ny, nz)` shows: the block there is air,
/// read from the chunk's blocks `cb` inside it and from the blocks `wb`
/// around it (in the chunk's coordinates) outside it.
pub open spec fn face_open(
    cb: spec_fn(u32, u32, u32) -> BlockId,
    wb: spec_fn(i32, i32, i32) -> BlockId,
    s: u32,
    nx: int,
    ny: int,
    nz: int,
) -> bool {
    if 0 <= nx < s && 0 <= ny < s && 0 <= nz < s {
        cb(nx as u32, ny as u32, nz as u32) == AIR
    } else {
        wb(nx as i32, ny as i32, nz as i32) == AIR
    }
}

/// Light of a face towards `(nx, ny, nz)`: full (15) above the chunk or
/// with only air from there up to height 63, else 8.
pub open spec fn face_light_of(wb: spec_fn(i32, i32, i32) -> BlockId, s: u32, nx: int, ny: int, nz: int) -> u8 {
    if ny >= s {
        15
    } else if forall|cy: int| ny + 1 <= cy < 64 ==> #[trigger] wb(nx as i32, cy as i32, nz as i32) == AIR {
        15
    } else {
        8
    }
}

/// The face of block `(x, y, z)` of kind `b` towards `(x + dx, y + dy, z + dz)`,
/// if it shows.
pub open spec fn face_entry(
    cb: spec_fn(u32, u32, u32) -> BlockId,
    wb: spec_fn(i32, i32, i32) -> BlockId,
    s: u32,
    x: u32,
    y: u32,
    z: u32,
    b: BlockId,
    face: BlockFace,
    dx: int,
    dy: int,
    dz: int,
) -> Seq<FaceQuad> {
    if face_open(cb, wb, s, x + dx, y + dy, z + dz) {
        seq![FaceQuad { face, x, y, z, block: b, light: face_light_of(wb, s, x + dx, y + dy, z + dz), ao: [255u8, 255u8, 255u8, 255u8] }]
    } else {
        Seq::empty()
    }
}

/// The faces of block `(x, y, z)` in order top, bottom, north (-z),
/// south (+z), east (+x), west (-x); none for air.
pub open spec fn chunk_block_faces(
    cb: spec_fn(u32, u32, u32) -> BlockId,
    wb: spec_fn(i32, i32, i32) -> BlockId,
    s: u32,
    x: u32,
    y: u32,
    z: u32,
) -> Seq<FaceQuad> {
    let b = cb(x, y, z);
    if b == AIR {
        Seq::empty()
    } else {
        face_entry(cb, wb, s, x, y, z, b, BlockFace::Top, 0, 1, 0) + face_entry(cb, wb, s, x, y, z, b, BlockFace::Bottom, 0, -1, 0)
            + face_entry(cb, wb, s, x, y, z, b, BlockFace::North, 0, 0, -1) + face_entry(cb, wb, s, x, y, z, b, BlockFace::South, 0, 0, 1)
            + face_entry(cb, wb, s, x, y, z, b, BlockFace::East, 1, 0, 0) + face_entry(cb, wb, s, x, y, z, b, BlockFace::West, -1, 0, 0)
    }
}

pub open spec fn chunk_faces_fn(
    cb: spec_fn(u32, u32, u32) -> BlockId,
    wb: spec_fn(i32, i32, i32) -> BlockId,
    s: u32,
) -> spec_fn(u32, u32, u32) -> Seq<FaceQuad> {
    |x: u32, y: u32, z: u32| chunk_block_faces(cb, wb, s, x, y, z)
}

/// Where the mesher reads blocks: the chunk's own, and those around it in the
/// chunk's coordinates.
pub trait BlockLookup {
    /// The chunk's blocks.
    spec fn chunk_blocks(&self) -> spec_fn(u32, u32, u32) -> BlockId;

    /// The blocks around the chunk.
    spec fn world_blocks(&self) -> spec_fn(i32, i32, i32) -> BlockId;

    /// Both may be read for a chunk of size `s`.
    spec fn can_look_up(&self, s: u32) -> bool;

    fn chunk_block(&self, s: u32, x: u32, y: u32, z: u32) -> (b: BlockId)
        requires
            self.can_look_up(s),
            x < s,
            y < s,
            z < s,
        ensures
            b == (self.chunk_blocks())(x, y, z),
    ;

    fn world_block(&self, s: u32, x: i32, y: i32, z: i32) -> (b: BlockId)
        requires
            self.can_look_up(s),
        ensures
            b == (self.world_blocks())(x, y, z),
    ;
}

/// Block lookups given as functions: `get_block` inside the chunk,
/// `get_neighbor_block` around it.
pub struct LookupFns<'a, F, G> {
    pub get_block: &'a F,
    pub get_neighbor_block: &'a G,
}

impl<'a, F: Fn(u32, u32, u32) -> BlockId, G: Fn(i32, i32, i32) -> BlockId> BlockLookup for LookupFns<'a, F, G> {
    open spec fn chunk_blocks(&self) -> spec_fn(u32, u32, u32) -> BlockId {
        lookup_blocks(*self.get_block)
    }

    open spec fn world_blocks(&self) -> spec_fn(i32, i32, i32) -> BlockId {
        world_lookup_blocks(*self.get_neighbor_block)
    }

    open spec fn can_look_up(&self, s: u32) -> bool {
        &&& lookup_callable(*self.get_block, s)
        &&& lookup_is_function(*self.get_block)
        &&& world_lookup_callable(*self.get_neighbor_block)
        &&& world_lookup_is_function(*self.get_neighbor_block)
    }

    fn chunk_block(&self, s: u32, x: u32, y: u32, z: u32) -> (b: BlockId) {
        fetch_block(self.get_block, x, y, z)
    }

    fn world_block(&self, s: u32, x: i32, y: i32, z: i32) -> (b: BlockId) {
        fetch_world_block(self.get_neighbor_block, x, y, z)
    }
}

/// A non-air block around a chunk, in the chunk's coordinates.
#[derive(Debug, Clone, Copy, PartialEq, Eq, Structural)]
pub struct NeighborBlock {
    pub x: i32,
    pub y: i32,
    pub z: i32,
    pub block: BlockId,
}

/// The block at `(x, y, z)` around a chunk: the first listed there, air
/// where none is.
pub open spec fn neighbor_block_at(n: Seq<NeighborBlock>, x: i32, y: i32, z: i32) -> BlockId
    decreases n.len(),
{
    if n.len() == 0 {
        AIR
    } else if n[0].x == x && n[0].y == y && n[0].z == z {
        n[0].block
    } else {
        neighbor_block_at(n.drop_first(), x, y, z)
    }
}

/// The blocks of a chunk, as a function of the position.
pub open spec fn chunk_blocks_of(chunk: &Chunk) -> spec_fn(u32, u32, u32) -> BlockId {
    |x: u32, y: u32, z: u32| chunk.block_at(x as int, y as int, z as int)
}

/// The blocks around a chunk given by a list, as a function of the position.
pub open spec fn neighbor_blocks_of(n: Seq<NeighborBlock>) -> spec_fn(i32, i32, i32) -> BlockId {
    |x: i32, y: i32, z: i32| neighbor_block_at(n, x, y, z)
}

/// Block lookups given as data: a chunk, and the non-air blocks around it.
pub struct ChunkBlocks<'a> {
    pub chunk: &'a Chunk,
    pub neighbors: &'a [NeighborBlock],
}

impl<'a> BlockLookup for ChunkBlocks<'a> {
    open spec fn chunk_blocks(&self) -> spec_fn(u32, u32, u32) -> BlockId {
        chunk_blocks_of(self.chunk)
    }

    open spec fn world_blocks(&self) -> spec_fn(i32, i32, i32) -> BlockId {
        neighbor_blocks_of(self.neighbors@)
    }

    open spec fn can_look_up(&self, s: u32) -> bool {
        self.chunk.wf() && self.chunk.spec_size() == s
    }

    fn chunk_block(&self, s: u32, x: u32, y: u32, z: u32) -> (b: BlockId) {
        self.chunk.get_block(x, y, z)
    }

    fn world_block(&self, s: u32, x: i32, y: i32, z: i32) -> (b: BlockId) {
        let n = self.neighbors;
        let mut i: usize = 0;
        proof {
            assert(n@.subrange(0, n@.len() as int) =~= n@);
        }
        while i < n.len()
            invariant
                n@ == self.neighbors@,
                i <= n@.len(),
                neighbor_block_at(n@, x, y, z) == neighbor_block_at(n@.subrange(i as int, n@.len() as int), x, y, z),
            decreases n@.len() - i,
        {
            let e = n[i];
            proof {
                let rest = n@.subrange(i as int, n@.len() as int);
                assert(rest[0] == e);
                assert(rest.drop_first() =~= n@.subrange(i + 1, n@.len() as int));
            }
            if e.x == x && e.y == y && e.z == z {
                proof {
                    let rest = n@.subrange(i as int, n@.len() as int);
                    assert(neighbor_block_at(rest, x, y, z) == e.block);
                }
                return e.block;
            }
            i = i + 1;
        }
        proof {
            assert(n@.subrange(i as int, n@.len() as int).len() == 0);
        }
        AIR
    }
}

fn face_shows<L: BlockLookup>(l: &L, x: i32, y: i32, z: i32, s: u32) -> (r: bool)
    requires
        s <= i32::MAX,
        l.can_look_up(s),
    ensures
        r == face_open(l.chunk_blocks(), l.world_blocks(), s, x as int, y as int, z as int),
{
    let si = s as i32;
    if x >= 0 && x < si && y >= 0 && y < si && z >= 0 && z < si {
        l.chunk_block(s, x as u32, y as u32, z as u32) == AIR
    } else {
        l.world_block(s, x, y, z) == AIR
    }
}

fn face_light_in<L: BlockLookup>(l: &L, x: i32, y: i32, z: i32, s: u32) -> (light: u8)
    requires
        s <= i32::MAX,
        l.can_look_up(s),
    ensures
        light == face_light_of(l.world_blocks(), s, x as int, y as int, z as int),
{
    let ghost wb = l.world_blocks();
    if y >= s as i32 {
        return 15;
    }
    if y >= 63 {
        proof {
            assert forall|cy: int| y + 1 <= cy < 64 implies #[trigger] wb(x, cy as i32, z) == AIR by {}
        }
        return 15;
    }
    let mut check_y: i32 = y + 1;
    while check_y < 64
        invariant
            y + 1 <= check_y <= 64,
            (y as int) < s,
            s <= i32::MAX,
            l.can_look_up(s),
            wb == l.world_blocks(),
            forall|cy: int| y + 1 <= cy < check_y ==> #[trigger] wb(x, cy as i32, z) == AIR,
        decreases 64 - check_y,
    {
        if l.world_block(s, x, check_y, z) != AIR {
            proof {
                assert(wb((x as int) as i32, (check_y as int) as i32, (z as int) as i32) != AIR);
            }
            return 8;
        }
        check_y = check_y + 1;
    }
    15
}

/// Whether a face towards `(nx, ny, nz)` shows.
pub fn should_render_face<F: Fn(u32, u32, u32) -> BlockId, G: Fn(i32, i32, i32) -> BlockId>(
    x: i32,
    y: i32,
    z: i32,
    chunk_size: u32,
    get_block: &F,
    get_neighbor_block: &G,
) -> (r: bool)
    requires
        chunk_size <= i32::MAX,
        lookup_callable(*get_block, chunk_size),
        lookup_is_function(*get_block),
        world_lookup_callable(*get_neighbor_block),
        world_lookup_is_function(*get_neighbor_block),
    ensures
        r == face_open(
            lookup_blocks(*get_block),
            world_lookup_blocks(*get_neighbor_block),
            chunk_size,
            x as int,
            y as int,
            z as int,
        ),
{
    let l = LookupFns { get_block, get_neighbor_block };
    face_shows(&l, x, y, z, chunk_size)
}

/// Light of a face towards `(x, y, z)`.
pub fn calculate_face_light<G: Fn(i32, i32, i32) -> BlockId>(
    x: i32,
    y: i32,
    z: i32,
    chunk_size: u32,
    get_neighbor_block: &G,
) -> (l: u8)
    requires
        chunk_size <= i32::MAX,
        world_lookup_callable(*get_neighbor_block),
        world_lookup_is_function(*get_neighbor_block),
    ensures
        l == face_light_of(world_lookup_blocks(*get_neighbor_block), chunk_size, x as int, y as int, z as int),
{
    let ghost wb = world_lookup_blocks(*get_neighbor_block);
    if y >= chunk_size as i32 {
        return 15;
    }
    if y >= 63 {
        proof {
            assert forall|cy: int| y + 1 <= cy < 64 implies #[trigger] wb(x, cy as i32, z) == AIR by {}
        }
        return 15;
    }
    let mut check_y: i32 = y + 1;
    while check_y < 64
        invariant
            y + 1 <= check_y <= 64,
            (y as int) < chunk_size,
            world_lookup_callable(*get_neighbor_block),
            world_lookup_is_function(*get_neighbor_block),
            wb == world_lookup_blocks(*get_neighbor_block),
            forall|cy: int| y + 1 <= cy < check_y ==> #[trigger] wb(x, cy as i32, z) == AIR,
        decreases 64 - check_y,
    {
        if fetch_world_block(get_neighbor_block, x, check_y, z) != AIR {
            proof {
                assert(wb((x as int) as i32, (check_y as int) as i32, (z as int) as i32) != AIR);
            }
            return 8;
        }
        check_y = check_y + 1;
    }
    15
}

/// Whether a face towards `(x, y, z)` shows, reading a chunk's blocks and
/// the non-air blocks around it.
pub fn should_render_face_from_blocks(x: i32, y: i32, z: i32, chunk: &Chunk, neighbors: &[NeighborBlock]) -> (r: bool)
    requires
        chunk.wf(),
        chunk.spec_size() <= i32::MAX,
    ensures
        r == face_open(
            chunk_blocks_of(chunk),
            neighbor_blocks_of(neighbors@),
            chunk.spec_size(),
            x as int,
            y as int,
            z as int,
        ),
{
    let l = ChunkBlocks { chunk, neighbors };
    face_shows(&l, x, y, z, chunk.size())
}

/// Light of a face towards `(x, y, z)` of a chunk, reading the non-air
/// blocks around it.
pub fn calculate_face_light_from_blocks(x: i32, y: i32, z: i32, chunk: &Chunk, neighbors: &[NeighborBlock]) -> (light: u8)
    requires
        chunk.wf(),
        chunk.spec_size() <= i32::MAX,
    ensures
        light == face_light_of(neighbor_blocks_of(neighbors@), chunk.spec_size(), x as int, y as int, z as int),
{
    let l = ChunkBlocks { chunk, neighbors };
    face_light_in(&l, x, y, z, chunk.size())
}

/// Per-corner ambient occlusion of a face: none yet (all 255).
pub fn calculate_face_ao(x: i32, y: i32, z: i32, face: BlockFace, chunk_size: u32) -> (ao: [u8; 4])
    ensures
        ao@ == [255u8, 255u8, 255u8, 255u8]@,
{
    [255, 255, 255, 255]
}

fn push_face_entry<L: BlockLookup>(
    out: &mut Vec<FaceQuad>,
    l: &L,
    s: u32,
    x: u32,
    y: u32,
    z: u32,
    b: BlockId,
    face: BlockFace,
    dx: i32,
    dy: i32,
    dz: i32,
)
    requires
        s <= i32::MAX,
        x < s,
        y < s,
        z < s,
        -1 <= dx <= 1,
        -1 <= dy <= 1,
        -1 <= dz <= 1,
        l.can_look_up(s),
    ensures
        final(out)@ == old(out)@ + face_entry(l.chunk_blocks(), l.world_blocks(), s, x, y, z, b, face, dx as int, dy as int, dz as int),
{
    let nx = x as i32 + dx;
    let ny = y as i32 + dy;
    let nz = z as i32 + dz;
    if face_shows(l, nx, ny, nz, s) {
        let light = face_light_in(l, nx, ny, nz, s);
        let ao = calculate_face_ao(nx, ny, nz, face, s);
        out.push(FaceQuad { face, x, y, z, block: b, light, ao });
        proof {
            assert(ao =~= [255u8, 255u8, 255u8, 255u8]);
            assert(final(out)@ =~= old(out)@ + face_entry(l.chunk_blocks(), l.world_blocks(), s, x, y, z, b, face, dx as int, dy as int, dz as int));
        }
    } else {
        proof {
            assert(final(out)@ =~= old(out)@ + face_entry(l.chunk_blocks(), l.world_blocks(), s, x, y, z, b, face, dx as int, dy as int, dz as int));
        }
    }
}

fn push_chunk_block_faces<L: BlockLookup>(out: &mut Vec<FaceQuad>, l: &L, s: u32, x: u32, y: u32, z: u32)
    requires
        s <= i32::MAX,
        x < s,
        y < s,
        z < s,
        l.can_look_up(s),
    ensures
        final(out)@ == old(out)@ + chunk_block_faces(l.chunk_blocks(), l.world_blocks(), s, x, y, z),
{
    let b = l.chunk_block(s, x, y, z);
    if b == AIR {
        proof {
            assert(final(out)@ =~= old(out)@ + chunk_block_faces(l.chunk_blocks(), l.world_blocks(), s, x, y, z));
        }
        return;
    }
    let ghost start = out@;
    push_face_entry(out, l, s, x, y, z, b, BlockFace::Top, 0, 1, 0);
    push_face_entry(out, l, s, x, y, z, b, BlockFace::Bottom, 0, -1, 0);
    push_face_entry(out, l, s, x, y, z, b, BlockFace::North, 0, 0, -1);
    push_face_entry(out, l, s, x, y, z, b, BlockFace::South, 0, 0, 1);
    push_face_entry(out, l, s, x, y, z, b, BlockFace::East, 1, 0, 0);
    push_face_entry(out, l, s, x, y, z, b, BlockFace::West, -1, 0, 0);
    proof {
        assert(out@ =~= start + chunk_block_faces(l.chunk_blocks(), l.world_blocks(), s, x, y, z));
    }
}

/// The visible faces of a chunk's solid blocks read through `l`, in layer,
/// row, block order.
fn collect_faces<L: BlockLookup>(s: u32, l: &L) -> (r: Vec<FaceQuad>)
    requires
        s <= i32::MAX,
        l.can_look_up(s),
    ensures
        r@ == grid_faces(chunk_faces_fn(l.chunk_blocks(), l.world_blocks(), s), s, s as nat),
        forall|k: int| 0 <= k < r@.len() ==> r@[k].x < s && r@[k].y < s && r@[k].z < s,
{
    let ghost cb = l.chunk_blocks();
    let ghost wb = l.world_blocks();
    let ghost per = chunk_faces_fn(cb, wb, s);
    let mut out: Vec<FaceQuad> = Vec::new();
    let mut y: u32 = 0;
    proof {
        assert(Seq::new(0, |yy: int| layer_faces(per, s, yy as u32, s as nat)).flatten() =~= Seq::<FaceQuad>::empty());
    }
    while y < s
        invariant
            y <= s,
            s <= i32::MAX,
            l.can_look_up(s),
            cb == l.chunk_blocks(),
            wb == l.world_blocks(),
            per == chunk_faces_fn(cb, wb, s),
            out@ == grid_faces(per, s, y as nat),
            forall|k: int| 0 <= k < out@.len() ==> out@[k].x < s && out@[k].y < s && out@[k].z < s,
        decreases s - y,
    {
        let mut z: u32 = 0;
        proof {
            assert(Seq::new(0, |zz: int| row_faces(per, y, zz as u32, s as nat)).flatten() =~= Seq::<FaceQuad>::empty());
        }
        while z < s
            invariant
                y < s,
                z <= s,
                s <= i32::MAX,
                l.can_look_up(s),
                cb == l.chunk_blocks(),
                wb == l.world_blocks(),
                per == chunk_faces_fn(cb, wb, s),
                out@ == grid_faces(per, s, y as nat) + layer_faces(per, s, y, z as nat),
                forall|k: int| 0 <= k < out@.len() ==> out@[k].x < s && out@[k].y < s && out@[k].z < s,
            decreases s - z,
        {
            let mut x: u32 = 0;
            proof {
                assert(Seq::new(0, |xx: int| per(xx as u32, y, z)).flatten() =~= Seq::<FaceQuad>::empty());
            }
            while x < s
                invariant
                    y < s,
                    z < s,
                    x <= s,
                    s <= i32::MAX,
                    l.can_look_up(s),
                    cb == l.chunk_blocks(),
                    wb == l.world_blocks(),
                    per == chunk_faces_fn(cb, wb, s),
                    out@ == grid_faces(per, s, y as nat) + layer_faces(per, s, y, z as nat) + row_faces(
                        per,
                        y,
                        z,
                        x as nat,
                    ),
                    forall|k: int| 0 <= k < out@.len() ==> out@[k].x < s && out@[k].y < s && out@[k].z < s,
                decreases s - x,
            {
                let ghost before = out@;
                push_chunk_block_faces(&mut out, l, s, x, y, z);
                proof {
                    lemma_flatten_new_step(x as nat, |xx: int| per(xx as u32, y, z));
                    assert(per(x, y, z) == chunk_block_faces(cb, wb, s, x, y, z));
                    assert forall|k: int| 0 <= k < out@.len() implies out@[k].x < s && out@[k].y < s && out@[k].z < s by {
                        if k >= before.len() {
                            lemma_block_faces_at(cb, wb, s, x, y, z, k - before.len());
                        }
                    }
                }
                x = x + 1;
            }
            proof {
                lemma_flatten_new_step(z as nat, |zz: int| row_faces(per, y, zz as u32, s as nat));
            }
            z = z + 1;
        }
        proof {
            lemma_flatten_new_step(y as nat, |yy: int| layer_faces(per, s, yy as u32, s as nat));
        }
        y = y + 1;
    }
    out
}

/// Every face of a block carries the block's position.
proof fn lemma_block_faces_at(
    cb: spec_fn(u32, u32, u32) -> BlockId,
    wb: spec_fn(i32, i32, i32) -> BlockId,
    s: u32,
    x: u32,
    y: u32,
    z: u32,
    k: int,
)
    requires
        0 <= k < chunk_block_faces(cb, wb, s, x, y, z).len(),
    ensures
        chunk_block_faces(cb, wb, s, x, y, z)[k].x == x,
        chunk_block_faces(cb, wb, s, x, y, z)[k].y == y,
        chunk_block_faces(cb, wb, s, x, y, z)[k].z == z,
{
    let b = cb(x, y, z);
    let e1 = face_entry(cb, wb, s, x, y, z, b, BlockFace::Top, 0, 1, 0);
    let e2 = face_entry(cb, wb, s, x, y, z, b, BlockFace::Bottom, 0, -1, 0);
    let e3 = face_entry(cb, wb, s, x, y, z, b, BlockFace::North, 0, 0, -1);
    let e4 = face_entry(cb, wb, s, x, y, z, b, BlockFace::South, 0, 0, 1);
    let e5 = face_entry(cb, wb, s, x, y, z, b, BlockFace::East, 1, 0, 0);
    let e6 = face_entry(cb, wb, s, x, y, z, b, BlockFace::West, -1, 0, 0);
    let all = e1 + e2 + e3 + e4 + e5 + e6;
    assert(forall|j: int| 0 <= j < all.len() ==> (#[trigger] all[j]).x == x && all[j].y == y && all[j].z == z);
}

/// The visible faces of a chunk's solid blocks, with their light, in layer,
/// row, block order; `get_block` reads the chunk and `get_neighbor_block`
/// the world around it.
pub fn collect_chunk_faces<F: Fn(u32, u32, u32) -> BlockId, G: Fn(i32, i32, i32) -> BlockId>(
    chunk_size: u32,
    get_block: &F,
    get_neighbor_block: &G,
) -> (r: Vec<FaceQuad>)
    requires
        chunk_size <= i32::MAX,
        lookup_callable(*get_block, chunk_size),
        lookup_is_function(*get_block),
        world_lookup_callable(*get_neighbor_block),
        world_lookup_is_function(*get_neighbor_block),
    ensures
        r@ == grid_faces(
            chunk_faces_fn(lookup_blocks(*get_block), world_lookup_blocks(*get_neighbor_block), chunk_size),
            chunk_size,
            chunk_size as nat,
        ),
        forall|k: int| 0 <= k < r@.len() ==> r@[k].x < chunk_size && r@[k].y < chunk_size && r@[k].z < chunk_size,
{
    let l = LookupFns { get_block, get_neighbor_block };
    collect_faces(chunk_size, &l)
}

/// The visible faces of a chunk's solid blocks, with their light, in layer,
/// row, block order; the blocks around the chunk are those listed (the first
/// listed at a position counts), air elsewhere.
pub fn collect_chunk_faces_from_blocks(chunk: &Chunk, neighbors: &[NeighborBlock]) -> (r: Vec<FaceQuad>)
    requires
        chunk.wf(),
        chunk.spec_size() <= i32::MAX,
    ensures
        r@ == grid_faces(
            chunk_faces_fn(chunk_blocks_of(chunk), neighbor_blocks_of(neighbors@), chunk.spec_size()),
            chunk.spec_size(),
            chunk.spec_size() as nat,
        ),
{
    let l = ChunkBlocks { chunk, neighbors };
    collect_faces(chunk.size(), &l)
}

/// Builds the mesh of the faces read through `l` into `buffer`.
fn build_mesh_with<L: BlockLookup>(buffer: &mut MeshBuffer, chunk_pos: ChunkPos, chunk_size: u32, l: &L) -> (r: Result<(), &'static str>)
    requires
        old(buffer).wf(),
        chunk_size <= i32::MAX,
        l.can_look_up(chunk_size),
    ensures
        final(buffer).wf(),
        ({
            let faces = grid_faces(chunk_faces_fn(l.chunk_blocks(), l.world_blocks(), chunk_size), chunk_size, chunk_size as nat);
            &&& (final(buffer).used_vertices(), final(buffer).used_indices()) == after_quads(
                (old(buffer).used_vertices(), old(buffer).used_indices()),
                faces,
            )
            &&& r is Ok <==> all_fit(old(buffer).vertex_count as int, old(buffer).index_count as int, faces.len() as int)
            &&& r is Ok ==> final(buffer).vertex_count == old(buffer).vertex_count + 4 * faces.len()
                && final(buffer).index_count == old(buffer).index_count + 6 * faces.len()
        }),
        r is Ok ==> final(buffer).vertex_count == old(buffer).vertex_count + 4 * open_faces(l.chunk_blocks(), l.world_blocks(), chunk_size).len()
            && final(buffer).index_count == old(buffer).index_count + 6 * open_faces(l.chunk_blocks(), l.world_blocks(), chunk_size).len(),
        final(buffer).metadata.chunk_pos@ == seq![chunk_pos.x, chunk_pos.y, chunk_pos.z],
        final(buffer).metadata.flags == old(buffer).metadata.flags,
        r is Ok ==> final(buffer).metadata.vertex_count == final(buffer).vertex_count as u32
            && final(buffer).metadata.index_count == final(buffer).index_count as u32,
        r is Err ==> final(buffer).metadata.vertex_count == old(buffer).metadata.vertex_count
            && final(buffer).metadata.index_count == old(buffer).metadata.index_count,
        r matches Err(e) ==> e@ == "Mesh buffer full"@,
{
    proof {
        lemma_grid_faces_are_open_faces(l.chunk_blocks(), l.world_blocks(), chunk_size);
    }
    let start = now();
    buffer.metadata.chunk_pos = [chunk_pos.x, chunk_pos.y, chunk_pos.z];
    let quads = collect_faces(chunk_size, l);
    let r = add_quads_until_full(buffer, &quads);
    if r.is_err() {
        return Err("Mesh buffer full");
    }
    buffer.metadata.vertex_count = buffer.vertex_count as u32;
    buffer.metadata.index_count = buffer.index_count as u32;
    let micros = elapsed_nanos(&start) / 1000;
    buffer.metadata.generation_time_us = #[verifier::truncate] (micros as u32);
    Ok(())
}

/// Build mesh data from chunk voxels: the visible faces of the solid blocks
/// (see `chunk_block_faces`), added in order until one does not fit, which
/// fails with "Mesh buffer full". The metadata records the chunk's
/// position, and on success the counts in use and the time taken. The
/// faces are those of whatever the lookups return;
/// `build_chunk_mesh_data_from_blocks` takes the blocks as data instead.
pub fn build_chunk_mesh_data<F: Fn(u32, u32, u32) -> BlockId, G: Fn(i32, i32, i32) -> BlockId>(
    buffer: &mut MeshBuffer,
    chunk_pos: ChunkPos,
    chunk_size: u32,
    get_block: F,
    get_neighbor_block: G,
) -> (r: Result<(), &'static str>)
    requires
        old(buffer).wf(),
        chunk_size <= i32::MAX,
        lookup_callable(get_block, chunk_size),
        lookup_is_function(get_block),
        world_lookup_callable(get_neighbor_block),
        world_lookup_is_function(get_neighbor_block),
    ensures
        final(buffer).wf(),
        ({
            let faces = grid_faces(
                chunk_faces_fn(lookup_blocks(get_block), world_lookup_blocks(get_neighbor_block), chunk_size),
                chunk_size,
                chunk_size as nat,
            );
            &&& (final(buffer).used_vertices(), final(buffer).used_indices()) == after_quads(
                (old(buffer).used_vertices(), old(buffer).used_indices()),
                faces,
            )
            &&& r is Ok <==> all_fit(old(buffer).vertex_count as int, old(buffer).index_count as int, faces.len() as int)
            &&& r is Ok ==> final(buffer).vertex_count == old(buffer).vertex_count + 4 * faces.len()
                && final(buffer).index_count == old(buffer).index_count + 6 * faces.len()
        }),
        r is Ok ==> final(buffer).vertex_count == old(buffer).vertex_count + 4 * open_faces(lookup_blocks(get_block), world_lookup_blocks(get_neighbor_block), chunk_size).len()
            && final(buffer).index_count == old(buffer).index_count + 6 * open_faces(lookup_blocks(get_block), world_lookup_blocks(get_neighbor_block), chunk_size).len(),
        final(buffer).metadata.chunk_pos@ == seq![chunk_pos.x, chunk_pos.y, chunk_pos.z],
        final(buffer).metadata.flags == old(buffer).metadata.flags,
        r is Ok ==> final(buffer).metadata.vertex_count == final(buffer).vertex_count as u32
            && final(buffer).metadata.index_count == final(buffer).index_count as u32,
        r is Err ==> final(buffer).metadata.vertex_count == old(buffer).metadata.vertex_count
            && final(buffer).metadata.index_count == old(buffer).metadata.index_count,
        r matches Err(e) ==> e@ == "Mesh buffer full"@,
{
    let l = LookupFns { get_block: &get_block, get_neighbor_block: &get_neighbor_block };
    build_mesh_with(buffer, chunk_pos, chunk_size, &l)
}

/// Build mesh data from a chunk's blocks and the non-air blocks around it
/// (the first listed at a position counts, air elsewhere): the same faces,
/// order, error and metadata as `build_chunk_mesh_data` with those lookups.
pub fn build_chunk_mesh_data_from_blocks(
    buffer: &mut MeshBuffer,
    chunk_pos: ChunkPos,
    chunk: &Chunk,
    neighbors: &[NeighborBlock],
) -> (r: Result<(), &'static str>)
    requires
        old(buffer).wf(),
        chunk.wf(),
        chunk.spec_size() <= i32::MAX,
    ensures
        final(buffer).wf(),
        ({
            let faces = grid_faces(
                chunk_faces_fn(chunk_blocks_of(chunk), neighbor_blocks_of(neighbors@), chunk.spec_size()),
                chunk.spec_size(),
                chunk.spec_size() as nat,
            );
            &&& (final(buffer).used_vertices(), final(buffer).used_indices()) == after_quads(
                (old(buffer).used_vertices(), old(buffer).used_indices()),
                faces,
            )
            &&& r is Ok <==> all_fit(old(buffer).vertex_count as int, old(buffer).index_count as int, faces.len() as int)
            &&& r is Ok ==> final(buffer).vertex_count == old(buffer).vertex_count + 4 * faces.len()
                && final(buffer).index_count == old(buffer).index_count + 6 * faces.len()
        }),
        r is Ok ==> final(buffer).vertex_count == old(buffer).vertex_count + 4 * open_faces(chunk_blocks_of(chunk), neighbor_blocks_of(neighbors@), chunk.spec_size()).len()
            && final(buffer).index_count == old(buffer).index_count + 6 * open_faces(chunk_blocks_of(chunk), neighbor_blocks_of(neighbors@), chunk.spec_size()).len(),
        final(buffer).metadata.chunk_pos@ == seq![chunk_pos.x, chunk_pos.y, chunk_pos.z],
        final(buffer).metadata.flags == old(buffer).metadata.flags,
        r is Ok ==> final(buffer).metadata.vertex_count == final(buffer).vertex_count as u32
            && final(buffer).metadata.index_count == final(buffer).index_count as u32,
        r is Err ==> final(buffer).metadata.vertex_count == old(buffer).metadata.vertex_count
            && final(buffer).metadata.index_count == old(buffer).metadata.index_count,
        r matches Err(e) ==> e@ == "Mesh buffer full"@,
{
    let l = ChunkBlocks { chunk, neighbors };
    build_mesh_with(buffer, chunk_pos, chunk.size(), &l)
}

} // verus!
