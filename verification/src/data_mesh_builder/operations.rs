//! Pure mesh building operations on a `MeshBuffer`.
use vstd::prelude::*;
use crate::open_faces::face_step;
use crate::data_mesh_builder::lemma_quad_vertex_on_face;
use crate::world::{AIR, BlockId, ChunkPos};
use crate::clock::{elapsed_nanos, now};
use crate::data_mesh_builder::{
    after_quad, after_quads, all_fit, corner_offset_exec, corner_tex, corner_tex_exec, face_normal, face_normal_exec,
    has_room, lemma_after_quads_append, lemma_full_stays, quad_indices, quad_vertex, quad_vertices, BlockFace, FaceQuad,
    GridVertex, MeshBuffer, MAX_INDICES, MAX_VERTICES,
};
use crate::chunk_rendering::{collect_top_bottom_faces, grid_faces, lookup_callable, lookup_is_function, top_bottom_faces_fn};

verus! {

/// Add a quad to the mesh buffer; fails with "Mesh buffer full", leaving
/// the buffer as it was, when four vertices or six indices do not fit.
pub fn add_quad(
    buffer: &mut MeshBuffer,
    face: BlockFace,
    x: u32,
    y: u32,
    z: u32,
    block_id: BlockId,
    light: u8,
    ao: [u8; 4],
) -> (r: Result<(), &'static str>)
    requires
        old(buffer).wf(),
        x < u32::MAX,
        y < u32::MAX,
        z < u32::MAX,
    ensures
        final(buffer).wf(),
        final(buffer).metadata == old(buffer).metadata,
        ({
            let q = FaceQuad { face, x, y, z, block: block_id, light, ao };
            let before = (old(buffer).used_vertices(), old(buffer).used_indices());
            (final(buffer).used_vertices(), final(buffer).used_indices()) == after_quad(before, q)
        }),
        r is Ok <==> has_room(old(buffer).vertex_count as int, old(buffer).index_count as int),
        r is Ok ==> final(buffer).vertex_count == old(buffer).vertex_count + 4 && final(buffer).index_count
            == old(buffer).index_count + 6,
        r is Err ==> final(buffer).vertex_count == old(buffer).vertex_count && final(buffer).index_count
            == old(buffer).index_count,
        r is Err ==> final(buffer).vertices@ == old(buffer).vertices@ && final(buffer).indices@ == old(
            buffer,
        ).indices@,
        r matches Err(e) ==> e@ == "Mesh buffer full"@,
        r is Ok ==> ({
            let vc = old(buffer).vertex_count as int;
            let ic = old(buffer).index_count as int;
            let q = FaceQuad { face, x, y, z, block: block_id, light, ao };
            &&& final(buffer).vertices@.take(vc) == old(buffer).vertices@.take(vc)
            &&& final(buffer).indices@.take(ic) == old(buffer).indices@.take(ic)
            &&& forall|i: int| 0 <= i < 4 ==> #[trigger] final(buffer).vertices@[vc + i] == quad_vertex(q, i)
            &&& final(buffer).indices@.subrange(ic, ic + 6) == quad_indices(vc as u32)
            &&& forall|i: int| 0 <= i < 4 ==> {
                let v = #[trigger] final(buffer).vertices@[vc + i];
                &&& v.normal[0] == face_step(face).0
                &&& v.normal[1] == face_step(face).1
                &&& v.normal[2] == face_step(face).2
            }
        }),
        forall|k: int|
            final(buffer).vertex_count <= k < MAX_VERTICES ==> #[trigger] final(buffer).vertices@[k]
                == old(buffer).vertices@[k],
        forall|k: int|
            final(buffer).index_count <= k < MAX_INDICES ==> #[trigger] final(buffer).indices@[k]
                == old(buffer).indices@[k],
{
    if buffer.vertex_count + 4 > MAX_VERTICES || buffer.index_count + 6 > MAX_INDICES {
        return Err("Mesh buffer full");
    }
    let ghost q = FaceQuad { face, x, y, z, block: block_id, light, ao };
    let ghost v0 = buffer.used_vertices();
    let ghost i0 = buffer.used_indices();
    let base_vertex = buffer.vertex_count as u32;
    let normal = face_normal_exec(face);
    let mut i: usize = 0;
    while i < 4
        invariant
            buffer.wf(),
            buffer.metadata == old(buffer).metadata,
            i <= 4,
            buffer.vertex_count == v0.len() + i,
            buffer.index_count == i0.len(),
            v0.len() + 4 <= MAX_VERTICES,
            buffer.used_vertices() == v0 + quad_vertices(q).take(i as int),
            buffer.used_indices() == i0,
            base_vertex == v0.len(),
            normal == face_normal(face),
            q == (FaceQuad { face, x, y, z, block: block_id, light, ao }),
            x < u32::MAX,
            y < u32::MAX,
            z < u32::MAX,
            buffer.indices@ == old(buffer).indices@,
            forall|t: int| buffer.vertex_count <= t < MAX_VERTICES ==> #[trigger] buffer.vertices@[t]
                == old(buffer).vertices@[t],
        decreases 4 - i,
    {
        let (dx, dy, dz) = corner_offset_exec(face, i);
        let v = GridVertex {
            position: [x + dx, y + dy, z + dz],
            tex_coords: corner_tex_exec(i),
            normal,
            ao: ao[i],
            light,
        };
        proof {
            assert(v == quad_vertex(q, i as int));
        }
        let ghost before = buffer.vertices@;
        let vc = buffer.vertex_count;
        buffer.vertices.set(vc, v);
        buffer.vertex_count = vc + 1;
        proof {
            assert(buffer.used_vertices() =~= before.take(vc as int).push(v));
            assert(quad_vertices(q).take(i + 1) =~= quad_vertices(q).take(i as int).push(v));
            assert(before.take(vc as int) == v0 + quad_vertices(q).take(i as int));
            assert(buffer.indices@.take(buffer.index_count as int) == i0);
        }
        i = i + 1;
    }
    proof {
        assert(quad_vertices(q).take(4) =~= quad_vertices(q));
    }
    let idx: [u32; 6] = [
        base_vertex,
        base_vertex + 1,
        base_vertex + 2,
        base_vertex,
        base_vertex + 2,
        base_vertex + 3,
    ];
    let mut k: usize = 0;
    while k < 6
        invariant
            buffer.wf(),
            buffer.metadata == old(buffer).metadata,
            k <= 6,
            buffer.index_count == i0.len() + k,
            i0.len() + 6 <= MAX_INDICES,
            buffer.used_indices() == i0 + quad_indices(base_vertex).take(k as int),
            buffer.used_vertices() == v0 + quad_vertices(q),
            idx@ == quad_indices(base_vertex),
            forall|t: int| buffer.vertex_count <= t < MAX_VERTICES ==> #[trigger] buffer.vertices@[t]
                == old(buffer).vertices@[t],
            forall|t: int| buffer.index_count <= t < MAX_INDICES ==> #[trigger] buffer.indices@[t]
                == old(buffer).indices@[t],
        decreases 6 - k,
    {
        let ghost before = buffer.indices@;
        let ic = buffer.index_count;
        buffer.indices.set(ic, idx[k]);
        buffer.index_count = ic + 1;
        proof {
            assert(buffer.used_indices() =~= before.take(ic as int).push(idx@[k as int]));
            assert(quad_indices(base_vertex).take(k + 1) =~= quad_indices(base_vertex).take(k as int).push(
                idx@[k as int],
            ));
            assert(buffer.vertices@.take(buffer.vertex_count as int) == v0 + quad_vertices(q));
        }
        k = k + 1;
    }
    proof {
        assert(quad_indices(base_vertex).take(6) =~= quad_indices(base_vertex));
        let vc = v0.len() as int;
        let ic = i0.len() as int;
        assert(buffer.vertices@.take(vc) =~= buffer.used_vertices().take(vc));
        assert(buffer.used_vertices() == v0 + quad_vertices(q));
        assert(buffer.indices@.take(ic) =~= buffer.used_indices().take(ic));
        assert(buffer.indices@.subrange(ic, ic + 6) =~= buffer.used_indices().subrange(ic, ic + 6));
        assert forall|i: int| 0 <= i < 4 implies #[trigger] buffer.vertices@[vc + i] == quad_vertex(q, i) by {
            assert(buffer.vertices@[vc + i] == buffer.used_vertices()[vc + i]);
            lemma_quad_vertex_on_face(q, i);
        }
    }
    Ok(())
}

/// Adds the quads in order, each while there is room; quads that do not
/// fit are dropped.
pub fn add_quads(buffer: &mut MeshBuffer, quads: &Vec<FaceQuad>)
    requires
        old(buffer).wf(),
        forall|k: int| 0 <= k < quads@.len() ==> quads@[k].x < u32::MAX && quads@[k].y < u32::MAX && quads@[k].z < u32::MAX,
    ensures
        final(buffer).wf(),
        final(buffer).metadata == old(buffer).metadata,
        (final(buffer).used_vertices(), final(buffer).used_indices()) == after_quads(
            (old(buffer).used_vertices(), old(buffer).used_indices()),
            quads@,
        ),
{
    let ghost start = (buffer.used_vertices(), buffer.used_indices());
    let mut k: usize = 0;
    while k < quads.len()
        invariant
            buffer.wf(),
            k <= quads@.len(),
            buffer.metadata == old(buffer).metadata,
            start == (old(buffer).used_vertices(), old(buffer).used_indices()),
            (buffer.used_vertices(), buffer.used_indices()) == after_quads(start, quads@.take(k as int)),
            forall|j: int| 0 <= j < quads@.len() ==> quads@[j].x < u32::MAX && quads@[j].y < u32::MAX && quads@[j].z < u32::MAX,
        decreases quads@.len() - k,
    {
        let q = quads[k];
        let _ = add_quad(buffer, q.face, q.x, q.y, q.z, q.block, q.light, q.ao);
        proof {
            assert(quads@.take(k + 1).drop_last() =~= quads@.take(k as int));
            assert(quads@.take(k + 1).last() == q);
        }
        k = k + 1;
    }
    proof {
        assert(quads@.take(k as int) =~= quads@);
    }
}

/// Adds the quads in order and fails with "Mesh buffer full" at the first
/// that does not fit; the quads before it stay in the buffer.
pub fn add_quads_until_full(buffer: &mut MeshBuffer, quads: &Vec<FaceQuad>) -> (r: Result<(), &'static str>)
    requires
        old(buffer).wf(),
        forall|k: int| 0 <= k < quads@.len() ==> quads@[k].x < u32::MAX && quads@[k].y < u32::MAX && quads@[k].z < u32::MAX,
    ensures
        final(buffer).wf(),
        final(buffer).metadata == old(buffer).metadata,
        (final(buffer).used_vertices(), final(buffer).used_indices()) == after_quads(
            (old(buffer).used_vertices(), old(buffer).used_indices()),
            quads@,
        ),
        r is Ok <==> all_fit(old(buffer).vertex_count as int, old(buffer).index_count as int, quads@.len() as int),
        r is Ok ==> final(buffer).vertex_count == old(buffer).vertex_count + 4 * quads@.len()
            && final(buffer).index_count == old(buffer).index_count + 6 * quads@.len(),
{
    let ghost start = (buffer.used_vertices(), buffer.used_indices());
    let ghost vc0 = buffer.vertex_count as int;
    let ghost ic0 = buffer.index_count as int;
    let mut k: usize = 0;
    while k < quads.len()
        invariant
            buffer.wf(),
            k <= quads@.len(),
            buffer.metadata == old(buffer).metadata,
            start == (old(buffer).used_vertices(), old(buffer).used_indices()),
            vc0 == old(buffer).vertex_count,
            ic0 == old(buffer).index_count,
            start.0.len() == vc0,
            start.1.len() == ic0,
            buffer.vertex_count == vc0 + 4 * k,
            buffer.index_count == ic0 + 6 * k,
            (buffer.used_vertices(), buffer.used_indices()) == after_quads(start, quads@.take(k as int)),
            forall|j: int| 0 <= j < quads@.len() ==> quads@[j].x < u32::MAX && quads@[j].y < u32::MAX && quads@[j].z < u32::MAX,
        decreases quads@.len() - k,
    {
        let q = quads[k];
        let r = add_quad(buffer, q.face, q.x, q.y, q.z, q.block, q.light, q.ao);
        proof {
            assert(quads@.take(k + 1).drop_last() =~= quads@.take(k as int));
            assert(quads@.take(k + 1).last() == q);
        }
        if r.is_err() {
            proof {
                let cur = after_quads(start, quads@.take(k as int));
                assert(cur.0.len() == buffer.vertex_count);
                assert(cur.1.len() == buffer.index_count);
                lemma_full_stays(cur, quads@.skip(k as int));
                lemma_after_quads_append(start, quads@.take(k as int), quads@.skip(k as int));
                assert(quads@.take(k as int) + quads@.skip(k as int) =~= quads@);
            }
            return Err("Mesh buffer full");
        }
        k = k + 1;
    }
    proof {
        assert(quads@.take(k as int) =~= quads@);
    }
    Ok(())
}

/// Build mesh from chunk data: the top and bottom faces of the solid
/// blocks (see `top_bottom_block_faces`), with full light and no occlusion,
/// each added while the buffer has room. The metadata records the chunk's
/// position, the counts in use and the time taken.
pub fn build_chunk_mesh<F: Fn(u32, u32, u32) -> BlockId>(
    buffer: &mut MeshBuffer,
    chunk_pos: ChunkPos,
    chunk_size: u32,
    get_block: F,
)
    requires
        old(buffer).wf(),
        chunk_size < u32::MAX,
        lookup_callable(get_block, chunk_size),
        lookup_is_function(get_block),
    ensures
        final(buffer).wf(),
        (final(buffer).used_vertices(), final(buffer).used_indices()) == after_quads(
            (old(buffer).used_vertices(), old(buffer).used_indices()),
            grid_faces(top_bottom_faces_fn(get_block, chunk_size), chunk_size, chunk_size as nat),
        ),
        final(buffer).metadata.chunk_pos@ == seq![chunk_pos.x, chunk_pos.y, chunk_pos.z],
        final(buffer).metadata.vertex_count == final(buffer).vertex_count as u32,
        final(buffer).metadata.index_count == final(buffer).index_count as u32,
        final(buffer).metadata.flags == old(buffer).metadata.flags,
{
    let start = now();
    buffer.metadata.chunk_pos = [chunk_pos.x, chunk_pos.y, chunk_pos.z];
    let quads = collect_top_bottom_faces(chunk_size, &get_block);
    add_quads(buffer, &quads);
    buffer.metadata.vertex_count = buffer.vertex_count as u32;
    buffer.metadata.index_count = buffer.index_count as u32;
    let micros = elapsed_nanos(&start) / 1000;
    buffer.metadata.generation_time_us = #[verifier::truncate] (micros as u32);
}

} // verus!
