//! Chunk meshing with face culling across chunk borders: a face at the
//! edge of a chunk looks into the neighbouring chunk on that side, when it
//! is loaded.
use vstd::prelude::*;
use crate::world::{AIR, BlockId, Chunk, ChunkPos};
use crate::data_mesh_builder::{after_quads, BlockFace, FaceQuad, MeshBuffer};
use crate::data_mesh_builder::operations::add_quads;
use crate::chunk_rendering::{grid_faces, layer_faces, lemma_flatten_new_step, row_faces};
use crate::open_faces::{face_step, lemma_concat_contains, lemma_flatten_members};
use crate::clock::{elapsed_nanos, now};
use crate::mesh::ChunkMesh;
use crate::mesh::chunk_mesh_ops::create_empty;

verus! {

/// Neighbor chunk data for face culling
pub struct NeighborData<'a> {
    pub north: Option<&'a Chunk>,
    pub south: Option<&'a Chunk>,
    pub east: Option<&'a Chunk>,
    pub west: Option<&'a Chunk>,
    pub up: Option<&'a Chunk>,
    pub down: Option<&'a Chunk>,
}

/// Where a coordinate that left a chunk of size `s` lands in the
/// neighbouring chunk: below 0 on its last layer, past the end on its first.
pub open spec fn wrap_into(c: int, s: int) -> int {
    if c < 0 {
        s - 1
    } else if c >= s {
        0
    } else {
        c
    }
}

/// Whether the face of block `(x, y, z)` towards `(x + dx, y + dy, z + dz)`
/// shows: the block there is air, in this chunk or in the neighbour; faces
/// on a border without a loaded neighbour show.
pub open spec fn face_shows(
    chunk: &Chunk,
    neighbor: Option<&Chunk>,
    x: int,
    y: int,
    z: int,
    dx: int,
    dy: int,
    dz: int,
    s: int,
) -> bool {
    let (nx, ny, nz) = (x + dx, y + dy, z + dz);
    if nx < 0 || ny < 0 || nz < 0 || nx >= s || ny >= s || nz >= s {
        match neighbor {
            Some(n) => n.block_at(wrap_into(nx, s), wrap_into(ny, s), wrap_into(nz, s)) == AIR,
            None => true,
        }
    } else {
        chunk.block_at(nx, ny, nz) == AIR
    }
}

/// Check if a face should be rendered
pub fn should_render_face(
    chunk: &Chunk,
    neighbor: Option<&Chunk>,
    x: u32,
    y: u32,
    z: u32,
    dx: i32,
    dy: i32,
    dz: i32,
    chunk_size: u32,
) -> (r: bool)
    requires
        chunk.wf(),
        chunk.spec_size() == chunk_size,
        chunk_size <= i32::MAX,
        x < chunk_size,
        y < chunk_size,
        z < chunk_size,
        i32::MIN <= x + dx <= i32::MAX,
        i32::MIN <= y + dy <= i32::MAX,
        i32::MIN <= z + dz <= i32::MAX,
        neighbor matches Some(n) ==> n.wf() && n.spec_size() == chunk_size,
    ensures
        r == face_shows(chunk, neighbor, x as int, y as int, z as int, dx as int, dy as int, dz as int, chunk_size as int),
{
    let nx = x as i32 + dx;
    let ny = y as i32 + dy;
    let nz = z as i32 + dz;
    let s = chunk_size as i32;
    if nx < 0 || ny < 0 || nz < 0 || nx >= s || ny >= s || nz >= s {
        match neighbor {
            Some(n) => {
                let neighbor_x = if nx < 0 { chunk_size - 1 } else if nx >= s { 0 } else { nx as u32 };
                let neighbor_y = if ny < 0 { chunk_size - 1 } else if ny >= s { 0 } else { ny as u32 };
                let neighbor_z = if nz < 0 { chunk_size - 1 } else if nz >= s { 0 } else { nz as u32 };
                n.get_block(neighbor_x, neighbor_y, neighbor_z) == AIR
            },
            None => true,
        }
    } else {
        chunk.get_block(nx as u32, ny as u32, nz as u32) == AIR
    }
}

/// The light a lookup `l` reports at `(x, y, z)`.
pub open spec fn light_of<L: Fn(u32, u32, u32) -> u8>(l: L, x: u32, y: u32, z: u32) -> u8 {
    choose|v: u8| call_ensures(l, (x, y, z), v)
}

/// A light lookup that may be called anywhere inside a chunk of size `s`
/// and gives one answer per position.
pub open spec fn light_lookup_ok<L: Fn(u32, u32, u32) -> u8>(l: L, s: u32) -> bool {
    &&& forall|x: u32, y: u32, z: u32| x < s && y < s && z < s ==> call_requires(l, (x, y, z))
    &&& forall|x: u32, y: u32, z: u32, v1: u8, v2: u8|
        #![trigger call_ensures(l, (x, y, z), v1), call_ensures(l, (x, y, z), v2)]
        call_ensures(l, (x, y, z), v1) && call_ensures(l, (x, y, z), v2) ==> v1 == v2
}

/// Every loaded neighbour is a well-formed chunk of size `s`.
pub open spec fn neighbors_fit(n: &NeighborData, s: u32) -> bool {
    &&& (n.north matches Some(c) ==> c.wf() && c.spec_size() == s)
    &&& (n.south matches Some(c) ==> c.wf() && c.spec_size() == s)
    &&& (n.east matches Some(c) ==> c.wf() && c.spec_size() == s)
    &&& (n.west matches Some(c) ==> c.wf() && c.spec_size() == s)
    &&& (n.up matches Some(c) ==> c.wf() && c.spec_size() == s)
    &&& (n.down matches Some(c) ==> c.wf() && c.spec_size() == s)
}

/// The face of block `(x, y, z)` towards `(dx, dy, dz)`, if it shows.
pub open spec fn neighbor_face(
    chunk: &Chunk,
    neighbor: Option<&Chunk>,
    s: u32,
    x: u32,
    y: u32,
    z: u32,
    b: BlockId,
    light: u8,
    face: BlockFace,
    dx: int,
    dy: int,
    dz: int,
) -> Seq<FaceQuad> {
    if face_shows(chunk, neighbor, x as int, y as int, z as int, dx, dy, dz, s as int) {
        seq![FaceQuad { face, x, y, z, block: b, light, ao: [255u8, 255u8, 255u8, 255u8] }]
    } else {
        Seq::empty()
    }
}

/// The faces of block `(x, y, z)` in order top, bottom, north (-z), south
/// (+z), east (+x), west (-x), lit by the block's light; none for air.
pub open spec fn neighbor_block_faces<L: Fn(u32, u32, u32) -> u8>(
    chunk: &Chunk,
    n: &NeighborData,
    l: L,
    s: u32,
    x: u32,
    y: u32,
    z: u32,
) -> Seq<FaceQuad> {
    let b = chunk.block_at(x as int, y as int, z as int);
    let light = light_of(l, x, y, z);
    if b == AIR {
        Seq::empty()
    } else {
        neighbor_face(chunk, n.up, s, x, y, z, b, light, BlockFace::Top, 0, 1, 0) + neighbor_face(
            chunk,
            n.down,
            s,
            x,
            y,
            z,
            b,
            light,
            BlockFace::Bottom,
            0,
            -1,
            0,
        ) + neighbor_face(chunk, n.north, s, x, y, z, b, light, BlockFace::North, 0, 0, -1) + neighbor_face(
            chunk,
            n.south,
            s,
            x,
            y,
            z,
            b,
            light,
            BlockFace::South,
            0,
            0,
            1,
        ) + neighbor_face(chunk, n.east, s, x, y, z, b, light, BlockFace::East, 1, 0, 0) + neighbor_face(
            chunk,
            n.west,
            s,
            x,
            y,
            z,
            b,
            light,
            BlockFace::West,
            -1,
            0,
            0,
        )
    }
}

pub open spec fn neighbor_faces_fn<'a, L: Fn(u32, u32, u32) -> u8>(
    chunk: &'a Chunk,
    n: &'a NeighborData<'a>,
    l: L,
    s: u32,
) -> spec_fn(u32, u32, u32) -> Seq<FaceQuad> {
    |x: u32, y: u32, z: u32| neighbor_block_faces(chunk, n, l, s, x, y, z)
}

fn push_neighbor_face(
    out: &mut Vec<FaceQuad>,
    chunk: &Chunk,
    neighbor: Option<&Chunk>,
    s: u32,
    x: u32,
    y: u32,
    z: u32,
    b: BlockId,
    light: u8,
    face: BlockFace,
    dx: i32,
    dy: i32,
    dz: i32,
)
    requires
        chunk.wf(),
        chunk.spec_size() == s,
        s <= i32::MAX,
        x < s,
        y < s,
        z < s,
        -1 <= dx <= 1,
        -1 <= dy <= 1,
        -1 <= dz <= 1,
        neighbor matches Some(c) ==> c.wf() && c.spec_size() == s,
    ensures
        final(out)@ == old(out)@ + neighbor_face(chunk, neighbor, s, x, y, z, b, light, face, dx as int, dy as int, dz as int),
{
    if should_render_face(chunk, neighbor, x, y, z, dx, dy, dz, s) {
        out.push(FaceQuad { face, x, y, z, block: b, light, ao: [255, 255, 255, 255] });
    }
    proof {
        assert(final(out)@ =~= old(out)@ + neighbor_face(chunk, neighbor, s, x, y, z, b, light, face, dx as int, dy as int, dz as int));
    }
}

fn push_neighbor_block_faces<L: Fn(u32, u32, u32) -> u8>(
    out: &mut Vec<FaceQuad>,
    chunk: &Chunk,
    n: &NeighborData,
    light_at: &L,
    s: u32,
    x: u32,
    y: u32,
    z: u32,
)
    requires
        chunk.wf(),
        chunk.spec_size() == s,
        s <= i32::MAX,
        x < s,
        y < s,
        z < s,
        neighbors_fit(n, s),
        light_lookup_ok(*light_at, s),
    ensures
        final(out)@ == old(out)@ + neighbor_block_faces(chunk, n, *light_at, s, x, y, z),
        forall|k: int| old(out)@.len() <= k < final(out)@.len() ==> final(out)@[k].x == x && final(out)@[k].y == y
            && final(out)@[k].z == z,
{
    let b = chunk.get_block(x, y, z);
    if b == AIR {
        proof {
            assert(final(out)@ =~= old(out)@ + neighbor_block_faces(chunk, n, *light_at, s, x, y, z));
        }
        return;
    }
    let light = light_at(x, y, z);
    proof {
        let c = light_of(*light_at, x, y, z);
        assert(call_ensures(*light_at, (x, y, z), c));
    }
    let ghost start = out@;
    push_neighbor_face(out, chunk, n.up, s, x, y, z, b, light, BlockFace::Top, 0, 1, 0);
    push_neighbor_face(out, chunk, n.down, s, x, y, z, b, light, BlockFace::Bottom, 0, -1, 0);
    push_neighbor_face(out, chunk, n.north, s, x, y, z, b, light, BlockFace::North, 0, 0, -1);
    push_neighbor_face(out, chunk, n.south, s, x, y, z, b, light, BlockFace::South, 0, 0, 1);
    push_neighbor_face(out, chunk, n.east, s, x, y, z, b, light, BlockFace::East, 1, 0, 0);
    push_neighbor_face(out, chunk, n.west, s, x, y, z, b, light, BlockFace::West, -1, 0, 0);
    proof {
        assert(out@ =~= start + neighbor_block_faces(chunk, n, *light_at, s, x, y, z));
    }
}

/// Builds a chunk's mesh with proper neighbour face culling: for each solid
/// block (layer by layer, row by row), the faces towards air in this chunk
/// or in the loaded neighbour on that side, or towards a side without a
/// loaded neighbour, lit by `light_at` (the brighter of sky and block
/// light) and without occlusion; each quad is added while the buffer has
/// room. The metadata records the chunk's position, the counts in use and
/// the time taken.
pub fn build_chunk_mesh_with_neighbors<L: Fn(u32, u32, u32) -> u8>(
    buffer: &mut MeshBuffer,
    chunk: &Chunk,
    chunk_pos: ChunkPos,
    neighbors: &NeighborData,
    light_at: L,
)
    requires
        old(buffer).wf(),
        chunk.wf(),
        chunk.spec_size() <= i32::MAX,
        neighbors_fit(neighbors, chunk.spec_size()),
        light_lookup_ok(light_at, chunk.spec_size()),
    ensures
        final(buffer).wf(),
        (final(buffer).used_vertices(), final(buffer).used_indices()) == after_quads(
            (old(buffer).used_vertices(), old(buffer).used_indices()),
            grid_faces(
                neighbor_faces_fn(chunk, neighbors, light_at, chunk.spec_size()),
                chunk.spec_size(),
                chunk.spec_size() as nat,
            ),
        ),
        final(buffer).metadata.chunk_pos@ == seq![chunk_pos.x, chunk_pos.y, chunk_pos.z],
        final(buffer).metadata.vertex_count == final(buffer).vertex_count as u32,
        final(buffer).metadata.index_count == final(buffer).index_count as u32,
        final(buffer).metadata.flags == old(buffer).metadata.flags,
{
    let start = now();
    buffer.metadata.chunk_pos = [chunk_pos.x, chunk_pos.y, chunk_pos.z];
    let s = chunk.size();
    let ghost per = neighbor_faces_fn(chunk, neighbors, light_at, s);
    let mut out: Vec<FaceQuad> = Vec::new();
    let mut y: u32 = 0;
    proof {
        assert(Seq::new(0, |yy: int| layer_faces(per, s, yy as u32, s as nat)).flatten() =~= Seq::<FaceQuad>::empty());
    }
    while y < s
        invariant
            y <= s,
            s == chunk.spec_size(),
            s <= i32::MAX,
            chunk.wf(),
            per == neighbor_faces_fn(chunk, neighbors, light_at, s),
            neighbors_fit(neighbors, s),
            light_lookup_ok(light_at, s),
            out@ == grid_faces(per, s, y as nat),
            forall|k: int| 0 <= k < out@.len() ==> out@[k].x < s && out@[k].y < s && out@[k].z < s,
        decreases s - y,
    {
        let mut z: u32 = 0;
        proof {
            assert(Seq::new(0, |zz: int| row_faces(per, y, zz as u32, s as nat)).flatten() =~= Seq::<FaceQuad>::empty());
        }
        while z < s
            invariant
                y < s,
                z <= s,
                s == chunk.spec_size(),
                s <= i32::MAX,
                chunk.wf(),
                per == neighbor_faces_fn(chunk, neighbors, light_at, s),
                neighbors_fit(neighbors, s),
                light_lookup_ok(light_at, s),
                out@ == grid_faces(per, s, y as nat) + layer_faces(per, s, y, z as nat),
                forall|k: int| 0 <= k < out@.len() ==> out@[k].x < s && out@[k].y < s && out@[k].z < s,
            decreases s - z,
        {
            let mut x: u32 = 0;
            proof {
                assert(Seq::new(0, |xx: int| per(xx as u32, y, z)).flatten() =~= Seq::<FaceQuad>::empty());
            }
            while x < s
                invariant
                    y < s,
                    z < s,
                    x <= s,
                    s == chunk.spec_size(),
                    s <= i32::MAX,
                    chunk.wf(),
                    per == neighbor_faces_fn(chunk, neighbors, light_at, s),
                    neighbors_fit(neighbors, s),
                    light_lookup_ok(light_at, s),
                    out@ == grid_faces(per, s, y as nat) + layer_faces(per, s, y, z as nat) + row_faces(
                        per,
                        y,
                        z,
                        x as nat,
                    ),
                    forall|k: int| 0 <= k < out@.len() ==> out@[k].x < s && out@[k].y < s && out@[k].z < s,
                decreases s - x,
            {
                push_neighbor_block_faces(&mut out, chunk, neighbors, &light_at, s, x, y, z);
                proof {
                    lemma_flatten_new_step(x as nat, |xx: int| per(xx as u32, y, z));
                    assert(per(x, y, z) == neighbor_block_faces(chunk, neighbors, light_at, s, x, y, z));
                }
                x = x + 1;
            }
            proof {
                lemma_flatten_new_step(z as nat, |zz: int| row_faces(per, y, zz as u32, s as nat));
            }
            z = z + 1;
        }
        proof {
            lemma_flatten_new_step(y as nat, |yy: int| layer_faces(per, s, yy as u32, s as nat));
        }
        y = y + 1;
    }
    add_quads(buffer, &out);
    buffer.metadata.vertex_count = buffer.vertex_count as u32;
    buffer.metadata.index_count = buffer.index_count as u32;
    let micros = elapsed_nanos(&start) / 1000;
    buffer.metadata.generation_time_us = #[verifier::truncate] (micros as u32);
}

/// Convert MeshBuffer to ChunkMesh: the used vertices and indices, in order.
pub fn mesh_buffer_to_chunk_mesh(buffer: &MeshBuffer) -> (mesh: ChunkMesh)
    requires
        buffer.wf(),
    ensures
        mesh.vertices@ == buffer.used_vertices(),
        mesh.indices@ == buffer.used_indices(),
{
    let mut mesh = create_empty();
    let mut i: usize = 0;
    while i < buffer.vertex_count
        invariant
            buffer.wf(),
            i <= buffer.vertex_count,
            mesh.vertices@ == buffer.vertices@.take(i as int),
            mesh.indices@.len() == 0,
        decreases buffer.vertex_count - i,
    {
        mesh.vertices.push(buffer.vertices[i]);
        i = i + 1;
        proof {
            assert(mesh.vertices@ =~= buffer.vertices@.take(i as int));
        }
    }
    let mut j: usize = 0;
    while j < buffer.index_count
        invariant
            buffer.wf(),
            j <= buffer.index_count,
            mesh.vertices@ == buffer.used_vertices(),
            mesh.indices@ == buffer.indices@.take(j as int),
        decreases buffer.index_count - j,
    {
        mesh.indices.push(buffer.indices[j]);
        j = j + 1;
        proof {
            assert(mesh.indices@ =~= buffer.indices@.take(j as int));
        }
    }
    mesh
}

/// The loaded neighbour that holds a position just outside a chunk of size
/// `s`: north past `z = 0` (-Z), south past the far `z` side (+Z), east past
/// the far `x` side (+X), west past `x = 0` (-X), up past the top (+Y) and
/// down below the bottom (-Y).
pub open spec fn neighbor_at<'a>(n: &NeighborData<'a>, s: int, x: int, y: int, z: int) -> Option<&'a Chunk> {
    if z < 0 {
        n.north
    } else if z >= s {
        n.south
    } else if x >= s {
        n.east
    } else if x < 0 {
        n.west
    } else if y >= s {
        n.up
    } else {
        n.down
    }
}

/// Position `(x, y, z)` holds air as seen from a chunk of size `s`: its own
/// block inside the chunk; outside, the block of the neighbour holding it at
/// the wrapped position, or air when that neighbour is not loaded.
pub open spec fn air_at(chunk: &Chunk, n: &NeighborData, s: int, x: int, y: int, z: int) -> bool {
    if 0 <= x < s && 0 <= y < s && 0 <= z < s {
        chunk.block_at(x, y, z) == AIR
    } else {
        match neighbor_at(n, s, x, y, z) {
            Some(c) => c.block_at(wrap_into(x, s), wrap_into(y, s), wrap_into(z, s)) == AIR,
            None => true,
        }
    }
}

/// One side's entry: the face, of that side and at the block, exactly when
/// the position it looks at holds air.
proof fn lemma_side_entry(
    chunk: &Chunk,
    n: &NeighborData,
    nb: Option<&Chunk>,
    s: u32,
    x: u32,
    y: u32,
    z: u32,
    b: BlockId,
    light: u8,
    face: BlockFace,
    dx: int,
    dy: int,
    dz: int,
)
    requires
        x < s && y < s && z < s,
        !(0 <= x + dx < s && 0 <= y + dy < s && 0 <= z + dz < s) ==> nb == neighbor_at(n, s as int, x + dx, y + dy, z + dz),
    ensures
        neighbor_face(chunk, nb, s, x, y, z, b, light, face, dx, dy, dz).len() > 0 <==> air_at(chunk, n, s as int, x + dx, y + dy, z + dz),
        forall|q: FaceQuad| #[trigger] neighbor_face(chunk, nb, s, x, y, z, b, light, face, dx, dy, dz).contains(q)
            ==> q.x == x && q.y == y && q.z == z && q.face == face,
{
    let e = neighbor_face(chunk, nb, s, x, y, z, b, light, face, dx, dy, dz);
    assert forall|q: FaceQuad| #[trigger] e.contains(q) implies q.x == x && q.y == y && q.z == z && q.face == face by {
        let k = choose|k: int| 0 <= k < e.len() && e[k] == q;
    }
}

/// The faces of one block in a chunk with neighbours: all of that block, and
/// one of side `face` exactly when the block is solid and the position that
/// side looks at (one step along `face_step`) holds air, read from the
/// neighbour lying in that direction when it is outside the chunk.
#[verifier::rlimit(40)]
pub proof fn lemma_neighbor_face_culling<L: Fn(u32, u32, u32) -> u8>(
    chunk: &Chunk,
    n: &NeighborData,
    l: L,
    s: u32,
    x: u32,
    y: u32,
    z: u32,
    face: BlockFace,
)
    requires
        x < s && y < s && z < s,
    ensures
        forall|q: FaceQuad| #[trigger] neighbor_block_faces(chunk, n, l, s, x, y, z).contains(q) ==> q.x == x && q.y
            == y && q.z == z,
        (exists|q: FaceQuad| #[trigger] neighbor_block_faces(chunk, n, l, s, x, y, z).contains(q) && q.face == face)
            <==> chunk.block_at(x as int, y as int, z as int) != AIR && air_at(
            chunk,
            n,
            s as int,
            x + face_step(face).0,
            y + face_step(face).1,
            z + face_step(face).2,
        ),
{
    let b = chunk.block_at(x as int, y as int, z as int);
    let light = light_of(l, x, y, z);
    let all = neighbor_block_faces(chunk, n, l, s, x, y, z);
    if b == AIR {
        assert(all =~= Seq::<FaceQuad>::empty());
    } else {
        let e0 = neighbor_face(chunk, n.up, s, x, y, z, b, light, BlockFace::Top, 0, 1, 0);
        let e1 = neighbor_face(chunk, n.down, s, x, y, z, b, light, BlockFace::Bottom, 0, -1, 0);
        let e2 = neighbor_face(chunk, n.north, s, x, y, z, b, light, BlockFace::North, 0, 0, -1);
        let e3 = neighbor_face(chunk, n.south, s, x, y, z, b, light, BlockFace::South, 0, 0, 1);
        let e4 = neighbor_face(chunk, n.east, s, x, y, z, b, light, BlockFace::East, 1, 0, 0);
        let e5 = neighbor_face(chunk, n.west, s, x, y, z, b, light, BlockFace::West, -1, 0, 0);
        let p1 = e0 + e1;
        let p2 = p1 + e2;
        let p3 = p2 + e3;
        let p4 = p3 + e4;
        assert(all == p4 + e5);
        lemma_side_entry(chunk, n, n.up, s, x, y, z, b, light, BlockFace::Top, 0, 1, 0);
        lemma_side_entry(chunk, n, n.down, s, x, y, z, b, light, BlockFace::Bottom, 0, -1, 0);
        lemma_side_entry(chunk, n, n.north, s, x, y, z, b, light, BlockFace::North, 0, 0, -1);
        lemma_side_entry(chunk, n, n.south, s, x, y, z, b, light, BlockFace::South, 0, 0, 1);
        lemma_side_entry(chunk, n, n.east, s, x, y, z, b, light, BlockFace::East, 1, 0, 0);
        lemma_side_entry(chunk, n, n.west, s, x, y, z, b, light, BlockFace::West, -1, 0, 0);
        assert forall|q: FaceQuad| all.contains(q) implies q.x == x && q.y == y && q.z == z && (
            (q.face == BlockFace::Top && e0.contains(q)) || (q.face == BlockFace::Bottom && e1.contains(q)) || (q.face
                == BlockFace::North && e2.contains(q)) || (q.face == BlockFace::South && e3.contains(q)) || (q.face
                == BlockFace::East && e4.contains(q)) || (q.face == BlockFace::West && e5.contains(q))) by {
            lemma_concat_contains(p4, e5, q);
            lemma_concat_contains(p3, e4, q);
            lemma_concat_contains(p2, e3, q);
            lemma_concat_contains(p1, e2, q);
            lemma_concat_contains(e0, e1, q);
        }
        let t: int = match face {
            BlockFace::Top => 0,
            BlockFace::Bottom => 1,
            BlockFace::North => 2,
            BlockFace::South => 3,
            BlockFace::East => 4,
            BlockFace::West => 5,
        };
        let es = seq![e0, e1, e2, e3, e4, e5];
        assert(es[0] == e0 && es[1] == e1 && es[2] == e2 && es[3] == e3 && es[4] == e4 && es[5] == e5);
        if es[t].len() > 0 {
            let q = es[t][0];
            assert(es[t].contains(q));
            lemma_concat_contains(p4, e5, q);
            lemma_concat_contains(p3, e4, q);
            lemma_concat_contains(p2, e3, q);
            lemma_concat_contains(p1, e2, q);
            lemma_concat_contains(e0, e1, q);
            assert(all.contains(q) && q.face == face);
        }
        if exists|q: FaceQuad| #[trigger] all.contains(q) && q.face == face {
            let q = choose|q: FaceQuad| #[trigger] all.contains(q) && q.face == face;
            assert(es[t].contains(q));
        }
    }
}

/// The mesh built with neighbours holds a face of side `face` at block
/// `(x, y, z)` exactly when the block is solid and the position that side
/// looks at holds air, read across the border from the neighbour lying in
/// that direction.
pub proof fn lemma_neighbor_mesh_faces<L: Fn(u32, u32, u32) -> u8>(
    chunk: &Chunk,
    n: &NeighborData,
    l: L,
    s: u32,
    x: u32,
    y: u32,
    z: u32,
    face: BlockFace,
)
    requires
        x < s && y < s && z < s,
    ensures
        (exists|q: FaceQuad|
            #[trigger] grid_faces(neighbor_faces_fn(chunk, n, l, s), s, s as nat).contains(q) && q.x == x && q.y == y && q.z
                == z && q.face == face) <==> chunk.block_at(x as int, y as int, z as int) != AIR && air_at(
            chunk,
            n,
            s as int,
            x + face_step(face).0,
            y + face_step(face).1,
            z + face_step(face).2,
        ),
{
    let per = neighbor_faces_fn(chunk, n, l, s);
    let g = grid_faces(per, s, s as nat);
    let fy = |yy: int| layer_faces(per, s, yy as u32, s as nat);
    assert(g == Seq::new(s as nat, fy).flatten());
    lemma_neighbor_face_culling(chunk, n, l, s, x, y, z, face);
    if exists|q: FaceQuad| #[trigger] g.contains(q) && q.x == x && q.y == y && q.z == z && q.face == face {
        let q = choose|q: FaceQuad| #[trigger] g.contains(q) && q.x == x && q.y == y && q.z == z && q.face == face;
        lemma_flatten_members(s as nat, fy, q);
        let yy = choose|yy: int| 0 <= yy < s && #[trigger] fy(yy).contains(q);
        let fz = |zz: int| row_faces(per, yy as u32, zz as u32, s as nat);
        assert(fy(yy) == Seq::new(s as nat, fz).flatten());
        lemma_flatten_members(s as nat, fz, q);
        let zz = choose|zz: int| 0 <= zz < s && #[trigger] fz(zz).contains(q);
        let fx = |xx: int| per(xx as u32, yy as u32, zz as u32);
        assert(fz(zz) == Seq::new(s as nat, fx).flatten());
        lemma_flatten_members(s as nat, fx, q);
        let xx = choose|xx: int| 0 <= xx < s && #[trigger] fx(xx).contains(q);
        lemma_neighbor_face_culling(chunk, n, l, s, xx as u32, yy as u32, zz as u32, face);
        assert(neighbor_block_faces(chunk, n, l, s, xx as u32, yy as u32, zz as u32).contains(q));
    }
    if chunk.block_at(x as int, y as int, z as int) != AIR && air_at(
        chunk,
        n,
        s as int,
        x + face_step(face).0,
        y + face_step(face).1,
        z + face_step(face).2,
    ) {
        let q = choose|q: FaceQuad| #[trigger] neighbor_block_faces(chunk, n, l, s, x, y, z).contains(q) && q.face == face;
        let fx = |xx: int| per(xx as u32, y, z);
        assert(fx(x as int).contains(q));
        lemma_flatten_members(s as nat, fx, q);
        let fz = |zz: int| row_faces(per, y, zz as u32, s as nat);
        assert(fz(z as int) == Seq::new(s as nat, fx).flatten());
        lemma_flatten_members(s as nat, fz, q);
        assert(fy(y as int) == Seq::new(s as nat, fz).flatten());
        lemma_flatten_members(s as nat, fy, q);
        assert(g.contains(q));
    }
}

} // verus!
