//! The buffer-reusing greedy mesher: its configuration, and the greedy
//! extraction of rectangles from a slice's face mask into reused buffers.
//!
//! The mask of a `size`×`size` slice holds cell `(u, v)` at `u * size + v`
//! (`cell(mask, size, v, u)` in the greedy mesher's notation). A rectangle
//! grows from its first free cell along `u` first, then along `v`; the quad
//! records the `v` extent in `min_x..max_x` and the `u` extent in
//! `min_y..max_y`.
use vstd::prelude::*;
use crate::world::{BlockId, Chunk, AIR};
use crate::greedy_mesher::{
    FaceDirection, GreedyQuad, cell, vcell, covers, on_slice, quad_slice, quad_well_placed, inv_quads,
    mask_partitioned, lemma_cell_index, lemma_cell_index_injective, lemma_add_rect, lemma_inv_quads_final,
    quad_at, covered_in, covered_on, joinable, greedy_pick, mask_greedy, lemma_greedy_pick_congruent, lemma_mask_greedy_push,
};

verus! {

/// Optimized greedy mesher that reuses buffers
pub struct OptimizedGreedyMesher {
    chunk_size: u32,
}

/// Faces towards +X, +Y and +Z are scanned from the low end of their axis,
/// the others from the high end.
pub open spec fn is_positive(face: FaceDirection) -> bool {
    face == FaceDirection::East || face == FaceDirection::Up || face == FaceDirection::South
}

/// The voxel behind mask cell `(u, v)` of `slice` for `face` in a chunk of
/// size `n`: along the face's axis at `slice` (counted from the far end for
/// negative faces), `u` along the next axis and `v` along the one after.
pub open spec fn opt_voxel(face: FaceDirection, n: int, slice: int, u: int, v: int) -> (int, int, int) {
    let p = if is_positive(face) { slice } else { n - 1 - slice };
    match face.spec_axis() {
        0 => (p, u, v),
        1 => (v, p, u),
        _ => (u, v, p),
    }
}

/// The mask cell `(u, v)` of `slice` for `face`: the voxel's block when it
/// is solid and its neighbour towards `face` is air or outside the chunk.
pub open spec fn opt_face_cell(chunk: &Chunk, face: FaceDirection, slice: int, u: int, v: int) -> Option<BlockId> {
    let s = chunk.spec_size() as int;
    let (x, y, z) = opt_voxel(face, s, slice, u, v);
    let b = chunk.block_at(x, y, z);
    let (ox, oy, oz) = face.spec_offset();
    let (nx, ny, nz) = (x + ox, y + oy, z + oz);
    let visible = if 0 <= nx < s && 0 <= ny < s && 0 <= nz < s {
        chunk.block_at(nx, ny, nz) == AIR
    } else {
        true
    };
    if b != AIR && visible {
        Some(b)
    } else {
        None
    }
}

/// The quads of `qs` on `slice` of `face` tile that slice's mask: each covers
/// only visible faces of its own block (a quad's `min_x..max_x` runs along
/// `v`, `min_y..max_y` along `u`), every visible face is covered, none twice.
pub open spec fn opt_slice_tiled(qs: Seq<GreedyQuad>, chunk: &Chunk, face: FaceDirection, slice: int) -> bool {
    let s = chunk.spec_size() as int;
    &&& forall|k: int, i: int, j: int|
        0 <= k < qs.len() && on_slice(qs[k], face, slice) && #[trigger] covers(qs[k], i, j) ==> 0 <= i < s && 0
            <= j < s && opt_face_cell(chunk, face, slice, j, i) == Some(qs[k].block_id)
    &&& forall|i: int, j: int|
        0 <= i < s && 0 <= j < s && (#[trigger] opt_face_cell(chunk, face, slice, j, i)) is Some ==> exists|k: int|
            0 <= k < qs.len() && on_slice(qs[k], face, slice) && #[trigger] covers(qs[k], i, j)
    &&& forall|k1: int, k2: int, i: int, j: int|
        0 <= k1 < qs.len() && 0 <= k2 < qs.len() && k1 != k2 && on_slice(qs[k1], face, slice) && on_slice(
            qs[k2],
            face,
            slice,
        ) && #[trigger] covers(qs[k1], i, j) ==> !#[trigger] covers(qs[k2], i, j)
}

/// A slice's tiling read off its mask.
proof fn lemma_tiled_from_mask(sq: Seq<GreedyQuad>, m: Seq<Option<BlockId>>, chunk: &Chunk, face: FaceDirection, slice: int)
    requires
        mask_partitioned(sq, m, chunk.spec_size() as int, chunk.spec_size() as int, face, slice),
        forall|i: int, j: int|
            0 <= i < chunk.spec_size() && 0 <= j < chunk.spec_size() ==> #[trigger] cell(m, chunk.spec_size() as int, i, j)
                == opt_face_cell(chunk, face, slice, j, i),
    ensures
        opt_slice_tiled(sq, chunk, face, slice),
{
    let s = chunk.spec_size() as int;
    assert forall|k: int, i: int, j: int|
        0 <= k < sq.len() && on_slice(sq[k], face, slice) && #[trigger] covers(sq[k], i, j) implies 0 <= i < s && 0
        <= j < s && opt_face_cell(chunk, face, slice, j, i) == Some(sq[k].block_id) by {
        assert(cell(m, s, i, j) == opt_face_cell(chunk, face, slice, j, i));
    }
    assert forall|i: int, j: int|
        0 <= i < s && 0 <= j < s && (#[trigger] opt_face_cell(chunk, face, slice, j, i)) is Some implies exists|k: int|
        0 <= k < sq.len() && on_slice(sq[k], face, slice) && #[trigger] covers(sq[k], i, j) by {
        assert(cell(m, s, i, j) == opt_face_cell(chunk, face, slice, j, i));
        let k0 = choose|k: int| 0 <= k < sq.len() && #[trigger] covers(sq[k], i, j);
        assert(on_slice(sq[k0], face, slice));
    }
}

/// Quads appended after a slice's tiling, none on that slice, keep it.
proof fn lemma_tiled_append_after(a: Seq<GreedyQuad>, b: Seq<GreedyQuad>, chunk: &Chunk, face: FaceDirection, slice: int)
    requires
        opt_slice_tiled(a, chunk, face, slice),
        forall|k: int| 0 <= k < b.len() ==> !on_slice(#[trigger] b[k], face, slice),
    ensures
        opt_slice_tiled(a + b, chunk, face, slice),
{
    let qs = a + b;
    let n = a.len();
    let s = chunk.spec_size() as int;
    assert forall|k: int| n <= k < qs.len() implies !on_slice(#[trigger] qs[k], face, slice) by {
        assert(qs[k] == b[k - n]);
    }
    assert forall|k: int, i: int, j: int|
        0 <= k < qs.len() && on_slice(qs[k], face, slice) && #[trigger] covers(qs[k], i, j) implies 0 <= i < s && 0
        <= j < s && opt_face_cell(chunk, face, slice, j, i) == Some(qs[k].block_id) by {
        if k < n {
            assert(qs[k] == a[k]);
            assert(covers(a[k], i, j));
        }
    }
    assert forall|i: int, j: int|
        0 <= i < s && 0 <= j < s && (#[trigger] opt_face_cell(chunk, face, slice, j, i)) is Some implies exists|k: int|
        0 <= k < qs.len() && on_slice(qs[k], face, slice) && #[trigger] covers(qs[k], i, j) by {
        let k0 = choose|k: int| 0 <= k < a.len() && on_slice(a[k], face, slice) && #[trigger] covers(a[k], i, j);
        assert(qs[k0] == a[k0]);
    }
    assert forall|k1: int, k2: int, i: int, j: int|
        0 <= k1 < qs.len() && 0 <= k2 < qs.len() && k1 != k2 && on_slice(qs[k1], face, slice) && on_slice(
            qs[k2],
            face,
            slice,
        ) && #[trigger] covers(qs[k1], i, j) implies !#[trigger] covers(qs[k2], i, j) by {
        if k1 < n && k2 < n {
            assert(qs[k1] == a[k1]);
            assert(qs[k2] == a[k2]);
            assert(covers(a[k1], i, j));
        }
    }
}

/// Quads placed before a slice's tiling, none on that slice, keep it.
proof fn lemma_tiled_append_before(a: Seq<GreedyQuad>, b: Seq<GreedyQuad>, chunk: &Chunk, face: FaceDirection, slice: int)
    requires
        opt_slice_tiled(b, chunk, face, slice),
        forall|k: int| 0 <= k < a.len() ==> !on_slice(#[trigger] a[k], face, slice),
    ensures
        opt_slice_tiled(a + b, chunk, face, slice),
{
    let qs = a + b;
    let n = a.len();
    let s = chunk.spec_size() as int;
    assert forall|k: int| 0 <= k < n implies !on_slice(#[trigger] qs[k], face, slice) by {
        assert(qs[k] == a[k]);
    }
    assert forall|k: int, i: int, j: int|
        0 <= k < qs.len() && on_slice(qs[k], face, slice) && #[trigger] covers(qs[k], i, j) implies 0 <= i < s && 0
        <= j < s && opt_face_cell(chunk, face, slice, j, i) == Some(qs[k].block_id) by {
        if k >= n {
            assert(qs[k] == b[k - n]);
            assert(covers(b[k - n], i, j));
        }
    }
    assert forall|i: int, j: int|
        0 <= i < s && 0 <= j < s && (#[trigger] opt_face_cell(chunk, face, slice, j, i)) is Some implies exists|k: int|
        0 <= k < qs.len() && on_slice(qs[k], face, slice) && #[trigger] covers(qs[k], i, j) by {
        let k0 = choose|k: int| 0 <= k < b.len() && on_slice(b[k], face, slice) && #[trigger] covers(b[k], i, j);
        assert(qs[n + k0] == b[k0]);
        assert(covers(qs[n + k0], i, j));
    }
    assert forall|k1: int, k2: int, i: int, j: int|
        0 <= k1 < qs.len() && 0 <= k2 < qs.len() && k1 != k2 && on_slice(qs[k1], face, slice) && on_slice(
            qs[k2],
            face,
            slice,
        ) && #[trigger] covers(qs[k1], i, j) implies !#[trigger] covers(qs[k2], i, j) by {
        if k1 >= n && k2 >= n {
            assert(qs[k1] == b[k1 - n]);
            assert(qs[k2] == b[k2 - n]);
            assert(covers(b[k1 - n], i, j));
        }
    }
}

/// Each quad of `qs` is the greedy choice on its slice of `chunk` as this
/// mesher scans it (growing along `u` first), given the quads before it on
/// that slice.
pub open spec fn opt_chunk_greedy(qs: Seq<GreedyQuad>, chunk: &Chunk) -> bool {
    forall|k: int|
        0 <= k < qs.len() ==> greedy_pick(
            |i: int, j: int| opt_face_cell(chunk, qs[k].face_direction, quad_slice(qs[k]), j, i),
            |i: int, j: int| covered_on(qs.take(k), qs[k].face_direction, quad_slice(qs[k]), i, j),
            chunk.spec_size() as int,
            #[trigger] qs[k],
            false,
        )
}

proof fn lemma_opt_greedy_append(a: Seq<GreedyQuad>, b: Seq<GreedyQuad>, chunk: &Chunk)
    requires
        opt_chunk_greedy(a, chunk),
        opt_chunk_greedy(b, chunk),
        forall|x: int, y: int|
            0 <= x < a.len() && 0 <= y < b.len() ==> !on_slice(#[trigger] a[x], (#[trigger] b[y]).face_direction, quad_slice(b[y])),
    ensures
        opt_chunk_greedy(a + b, chunk),
{
    let ab = a + b;
    let n0 = a.len() as int;
    let s = chunk.spec_size() as int;
    assert forall|k: int| 0 <= k < ab.len() implies greedy_pick(
        |i: int, j: int| opt_face_cell(chunk, ab[k].face_direction, quad_slice(ab[k]), j, i),
        |i: int, j: int| covered_on(ab.take(k), ab[k].face_direction, quad_slice(ab[k]), i, j),
        s,
        #[trigger] ab[k],
        false,
    ) by {
        if k < n0 {
            assert(ab.take(k) =~= a.take(k));
            assert(ab[k] == a[k]);
        } else {
            let k2 = k - n0;
            let q = b[k2];
            assert(ab[k] == q);
            let d = q.face_direction;
            let sl = quad_slice(q);
            assert(ab.take(k) =~= a + b.take(k2));
            assert forall|i: int, j: int| 0 <= i < s && 0 <= j < s implies covered_on(b.take(k2), d, sl, i, j)
                == covered_on(ab.take(k), d, sl, i, j) by {
                let p = ab.take(k);
                if covered_on(p, d, sl, i, j) {
                    let t = choose|t: int| 0 <= t < p.len() && on_slice(p[t], d, sl) && #[trigger] covers(p[t], i, j);
                    if t < n0 {
                        assert(p[t] == a[t]);
                        assert(!on_slice(a[t], b[k2].face_direction, quad_slice(b[k2])));
                    } else {
                        assert(p[t] == b.take(k2)[t - n0]);
                        assert(covers(b.take(k2)[t - n0], i, j));
                    }
                }
                if covered_on(b.take(k2), d, sl, i, j) {
                    let t = choose|t: int|
                        0 <= t < b.take(k2).len() && on_slice(b.take(k2)[t], d, sl) && #[trigger] covers(b.take(k2)[t], i, j);
                    assert(p[n0 + t] == b.take(k2)[t]);
                    assert(covers(p[n0 + t], i, j));
                }
            }
            lemma_greedy_pick_congruent(
                |i: int, j: int| opt_face_cell(chunk, d, sl, j, i),
                |i: int, j: int| covered_on(b.take(k2), d, sl, i, j),
                |i: int, j: int| opt_face_cell(chunk, d, sl, j, i),
                |i: int, j: int| covered_on(ab.take(k), d, sl, i, j),
                s,
                q,
                false,
            );
        }
    }
}

proof fn lemma_opt_greedy_from_mask(
    sq: Seq<GreedyQuad>,
    m: Seq<Option<BlockId>>,
    chunk: &Chunk,
    face: FaceDirection,
    slice: int,
)
    requires
        mask_greedy(sq, m, chunk.spec_size() as int, false),
        forall|k: int| 0 <= k < sq.len() ==> on_slice(#[trigger] sq[k], face, slice),
        forall|i: int, j: int|
            0 <= i < chunk.spec_size() && 0 <= j < chunk.spec_size() ==> #[trigger] cell(m, chunk.spec_size() as int, i, j)
                == opt_face_cell(chunk, face, slice, j, i),
    ensures
        opt_chunk_greedy(sq, chunk),
{
    let s = chunk.spec_size() as int;
    assert forall|k: int| 0 <= k < sq.len() implies greedy_pick(
        |i: int, j: int| opt_face_cell(chunk, sq[k].face_direction, quad_slice(sq[k]), j, i),
        |i: int, j: int| covered_on(sq.take(k), sq[k].face_direction, quad_slice(sq[k]), i, j),
        s,
        #[trigger] sq[k],
        false,
    ) by {
        let p = sq.take(k);
        assert forall|i: int, j: int| 0 <= i < s && 0 <= j < s implies cell(m, s, i, j) == opt_face_cell(chunk, face, slice, j, i)
            && covered_in(p, i, j) == covered_on(p, face, slice, i, j) by {
            if covered_in(p, i, j) {
                let t = choose|t: int| 0 <= t < p.len() && #[trigger] covers(p[t], i, j);
                assert(p[t] == sq[t]);
                assert(on_slice(sq[t], face, slice));
            }
        }
        lemma_greedy_pick_congruent(
            |i: int, j: int| cell(m, s, i, j),
            |i: int, j: int| covered_in(p, i, j),
            |i: int, j: int| opt_face_cell(chunk, face, slice, j, i),
            |i: int, j: int| covered_on(p, face, slice, i, j),
            s,
            sq[k],
            false,
        );
    }
}

/// The rectangle grown at the first free filled cell of a scan, as far as
/// its block goes along `j` and then along `i`, is the greedy choice.
proof fn lemma_greedy_choice_j_first(
    qs: Seq<GreedyQuad>,
    q: GreedyQuad,
    v: Seq<bool>,
    m: Seq<Option<BlockId>>,
    w: int,
    block: BlockId,
)
    requires
        forall|k: int, i: int, j: int|
            0 <= k < qs.len() && #[trigger] covers(qs[k], i, j) ==> 0 <= i < w && 0 <= j < w && vcell(v, w, i, j),
        forall|i: int, j: int|
            0 <= i < w && 0 <= j < w && #[trigger] vcell(v, w, i, j) ==> exists|k: int|
                0 <= k < qs.len() && #[trigger] covers(qs[k], i, j),
        q.block_id == block,
        0 <= q.min_x < q.max_x <= w,
        0 <= q.min_y < q.max_y <= w,
        forall|a: int, c: int|
            0 <= a < w && 0 <= c < q.min_y && (#[trigger] cell(m, w, a, c)) is Some ==> vcell(v, w, a, c),
        forall|a: int| 0 <= a < q.min_x && (#[trigger] cell(m, w, a, q.min_y as int)) is Some ==> vcell(v, w, a, q.min_y as int),
        !(q.max_y < w && !vcell(v, w, q.min_x as int, q.max_y as int) && cell(m, w, q.min_x as int, q.max_y as int) == Some(block)),
        q.max_x < w ==> exists|c: int|
            q.min_y <= c < q.max_y && (vcell(v, w, q.max_x as int, c) || #[trigger] cell(m, w, q.max_x as int, c) != Some(block)),
    ensures
        greedy_pick(|i: int, j: int| cell(m, w, i, j), |i: int, j: int| covered_in(qs, i, j), w, q, false),
{
    let c1 = |i: int, j: int| cell(m, w, i, j);
    let t1 = |i: int, j: int| vcell(v, w, i, j);
    let t2 = |i: int, j: int| covered_in(qs, i, j);
    assert forall|a: int, c: int|
        0 <= a < w && 0 <= c < w && (c < q.min_y || (c == q.min_y && a < q.min_x)) && (#[trigger] c1(a, c)) is Some
            implies t1(a, c) by {
        if c < q.min_y {
            assert(cell(m, w, a, c) is Some);
        } else {
            assert(cell(m, w, a, q.min_y as int) is Some);
        }
    }
    if q.max_x < w {
        let c = choose|c: int|
            q.min_y <= c < q.max_y && (vcell(v, w, q.max_x as int, c) || #[trigger] cell(m, w, q.max_x as int, c) != Some(block));
        assert(!joinable(c1, t1, w, q.max_x as int, c, block));
    } else {
        assert(!joinable(c1, t1, w, q.max_x as int, q.min_y as int, block));
    }
    assert(greedy_pick(c1, t1, w, q, false));
    assert forall|i: int, j: int| #![trigger t1(i, j)] #![trigger t2(i, j)] #![trigger c1(i, j)]
        0 <= i < w && 0 <= j < w implies c1(i, j) == c1(i, j) && t1(i, j) == t2(i, j) by {
        if t1(i, j) {
            let k = choose|k: int| 0 <= k < qs.len() && #[trigger] covers(qs[k], i, j);
        }
        if t2(i, j) {
            let k = choose|k: int| 0 <= k < qs.len() && #[trigger] covers(qs[k], i, j);
        }
    }
    lemma_greedy_pick_congruent(c1, t1, c1, t2, w, q, false);
}

/// Grows the rectangle of `block_id` at free cell `(start_i, start_j)` of an
/// `n`×`n` mask: first along `j` while cells are free and hold the block,
/// then along `i` while whole columns of that height do; marks it used.
fn grow_rect(
    mask: &Vec<Option<BlockId>>,
    start_i: usize,
    start_j: usize,
    n: usize,
    block_id: BlockId,
    used: &mut Vec<bool>,
) -> (res: (usize, usize))
    requires
        start_i < n,
        start_j < n,
        n * n <= u32::MAX,
        mask@.len() == n * n,
        old(used)@.len() == n * n,
        !vcell(old(used)@, n as int, start_i as int, start_j as int),
        cell(mask@, n as int, start_i as int, start_j as int) == Some(block_id),
    ensures
        final(used)@.len() == old(used)@.len(),
        1 <= res.0,
        start_i + res.0 <= n,
        1 <= res.1,
        start_j + res.1 <= n,
        forall|i: int, j: int|
            start_i <= i < start_i + res.0 && start_j <= j < start_j + res.1 ==> !vcell(old(used)@, n as int, i, j)
                && #[trigger] cell(mask@, n as int, i, j) == Some(block_id),
        forall|i: int, j: int|
            0 <= i < n && 0 <= j < n ==> #[trigger] vcell(final(used)@, n as int, i, j) == (vcell(
                old(used)@,
                n as int,
                i,
                j,
            ) || (start_i <= i < start_i + res.0 && start_j <= j < start_j + res.1)),
        // The first column stops at the edge, a used cell or another block.
        !(start_j + res.1 < n && !vcell(old(used)@, n as int, start_i as int, start_j + res.1) && cell(
            mask@,
            n as int,
            start_i as int,
            start_j + res.1,
        ) == Some(block_id)),
        // The next column stops it somewhere within its rows.
        start_i + res.0 < n ==> exists|b: int|
            start_j <= b < start_j + res.1 && (vcell(old(used)@, n as int, start_i + res.0, b)
                || #[trigger] cell(mask@, n as int, start_i + res.0, b) != Some(block_id)),
{
    let ghost w = n as int;
    let ghost v0 = used@;
    // Along j (the mask's u axis) first.
    let mut ext_j: usize = 1;
    let mut j = start_j + 1;
    while j < n
        invariant
            start_j < j <= n,
            ext_j == j - start_j,
            n * n <= u32::MAX,
            used@ == v0,
            v0.len() == w * w,
            w == n,
            start_i < n,
            mask@.len() == n * n,
            forall|b: int|
                start_j <= b < j ==> !vcell(v0, w, start_i as int, b) && #[trigger] cell(mask@, w, start_i as int, b)
                    == Some(block_id),
        ensures
            start_j < j <= n,
            ext_j == j - start_j,
            j == n || vcell(v0, w, start_i as int, j as int) || cell(mask@, w, start_i as int, j as int) != Some(block_id),
            forall|b: int|
                start_j <= b < j ==> !vcell(v0, w, start_i as int, b) && #[trigger] cell(mask@, w, start_i as int, b)
                    == Some(block_id),
        decreases n - j,
    {
        proof {
            lemma_cell_index(w, w, start_i as int, j as int);
        }
        let idx = j * n + start_i;
        let matches = match mask[idx] {
            Some(b) => b == block_id,
            None => false,
        };
        if used[idx] || !matches {
            break;
        }
        ext_j += 1;
        j = j + 1;
    }
    // Then along i (the mask's v axis), keeping the whole j extent.
    let mut ext_i: usize = 1;
    let mut i = start_i + 1;
    while i < n
        invariant
            start_i + 1 <= i <= n,
            ext_i == i - start_i,
            1 <= ext_j,
            start_j + ext_j <= n,
            n * n <= u32::MAX,
            used@ == v0,
            v0.len() == w * w,
            w == n,
            mask@.len() == n * n,
            forall|a: int, b: int|
                start_i <= a < i && start_j <= b < start_j + ext_j ==> !vcell(v0, w, a, b) && #[trigger] cell(
                    mask@,
                    w,
                    a,
                    b,
                ) == Some(block_id),
        ensures
            start_i + 1 <= i <= n,
            ext_i == i - start_i,
            forall|a: int, b: int|
                start_i <= a < i && start_j <= b < start_j + ext_j ==> !vcell(v0, w, a, b) && #[trigger] cell(
                    mask@,
                    w,
                    a,
                    b,
                ) == Some(block_id),
            i == n || exists|b: int|
                start_j <= b < start_j + ext_j && (vcell(v0, w, i as int, b) || #[trigger] cell(mask@, w, i as int, b)
                    != Some(block_id)),
        decreases n - i,
    {
        let mut can_extend = true;
        let mut j = start_j;
        while j < start_j + ext_j
            invariant_except_break
                can_extend,
            invariant
                start_j <= j <= start_j + ext_j,
                start_j + ext_j <= n,
                i < n,
                n * n <= u32::MAX,
                used@ == v0,
                v0.len() == w * w,
                w == n,
                mask@.len() == n * n,
                forall|b: int|
                    start_j <= b < j ==> !vcell(v0, w, i as int, b) && #[trigger] cell(mask@, w, i as int, b)
                        == Some(block_id),
            ensures
                can_extend ==> j == start_j + ext_j,
                !can_extend ==> start_j <= j < start_j + ext_j && (vcell(v0, w, i as int, j as int) || cell(
                    mask@,
                    w,
                    i as int,
                    j as int,
                ) != Some(block_id)),
            decreases start_j + ext_j - j,
        {
            proof {
                lemma_cell_index(w, w, i as int, j as int);
            }
            let idx = j * n + i;
            let matches = match mask[idx] {
                Some(b) => b == block_id,
                None => false,
            };
            if used[idx] || !matches {
                can_extend = false;
                break;
            }
            j = j + 1;
        }
        if !can_extend {
            break;
        }
        ext_i += 1;
        i = i + 1;
    }
    // Mark the rectangle as used.
    let mut j = start_j;
    while j < start_j + ext_j
        invariant
            start_j <= j <= start_j + ext_j,
            start_j + ext_j <= n,
            start_i + ext_i <= n,
            n * n <= u32::MAX,
            w == n,
            used@.len() == w * w,
            forall|a: int, b: int|
                0 <= a < w && 0 <= b < w ==> #[trigger] vcell(used@, w, a, b) == (vcell(v0, w, a, b) || (start_i
                    <= a < start_i + ext_i && start_j <= b < j)),
        decreases start_j + ext_j - j,
    {
        let mut i = start_i;
        while i < start_i + ext_i
            invariant
                start_i <= i <= start_i + ext_i,
                start_j <= j < start_j + ext_j,
                start_j + ext_j <= n,
                start_i + ext_i <= n,
                n * n <= u32::MAX,
                w == n,
                used@.len() == w * w,
                forall|a: int, b: int|
                    0 <= a < w && 0 <= b < w ==> #[trigger] vcell(used@, w, a, b) == (vcell(v0, w, a, b) || (
                    start_i <= a < start_i + ext_i && start_j <= b < j) || (b == j && start_i <= a < i)),
            decreases start_i + ext_i - i,
        {
            proof {
                lemma_cell_index(w, w, i as int, j as int);
            }
            let idx = j * n + i;
            let ghost before = used@;
            used.set(idx, true);
            proof {
                assert forall|a: int, b: int| 0 <= a < w && 0 <= b < w implies #[trigger] vcell(used@, w, a, b) == (
                vcell(v0, w, a, b) || (start_i <= a < start_i + ext_i && start_j <= b < j) || (b == j && start_i
                    <= a < i + 1)) by {
                    lemma_cell_index(w, w, a, b);
                    lemma_cell_index_injective(w, a, b, i as int, j as int);
                    assert(vcell(before, w, a, b) == (vcell(v0, w, a, b) || (start_i <= a < start_i + ext_i
                        && start_j <= b < j) || (b == j && start_i <= a < i)));
                }
            }
            i = i + 1;
        }
        j = j + 1;
    }
    (ext_i, ext_j)
}

/// Mask coordinates `(u, v)` of `slice` for `face` as voxel coordinates.
fn opt_voxel_exec(face: FaceDirection, n: usize, slice: usize, u: usize, v: usize) -> (r: (usize, usize, usize))
    requires
        slice < n,
        u < n,
        v < n,
    ensures
        r.0 as int == opt_voxel(face, n as int, slice as int, u as int, v as int).0,
        r.1 as int == opt_voxel(face, n as int, slice as int, u as int, v as int).1,
        r.2 as int == opt_voxel(face, n as int, slice as int, u as int, v as int).2,
        r.0 < n && r.1 < n && r.2 < n,
{
    let positive = match face {
        FaceDirection::East | FaceDirection::Up | FaceDirection::South => true,
        _ => false,
    };
    let p = if positive { slice } else { n - 1 - slice };
    match face {
        FaceDirection::East | FaceDirection::West => (p, u, v),
        FaceDirection::Up | FaceDirection::Down => (v, p, u),
        FaceDirection::North | FaceDirection::South => (u, v, p),
    }
}

impl OptimizedGreedyMesher {
    /// Fill the mask of `slice` for `face` from the chunk's blocks.
    fn fill_mask(&self, chunk: &Chunk, face: FaceDirection, slice: usize, mask: &mut Vec<Option<BlockId>>)
        requires
            chunk.wf(),
            chunk.spec_size() == self.spec_chunk_size(),
            slice < self.spec_chunk_size(),
            self.spec_chunk_size() * self.spec_chunk_size() <= u32::MAX,
            old(mask)@.len() == self.spec_chunk_size() * self.spec_chunk_size(),
        ensures
            final(mask)@.len() == old(mask)@.len(),
            forall|i: int, j: int|
                0 <= i < chunk.spec_size() && 0 <= j < chunk.spec_size() ==> #[trigger] cell(
                    final(mask)@,
                    chunk.spec_size() as int,
                    i,
                    j,
                ) == opt_face_cell(chunk, face, slice as int, j, i),
    {
        let n = self.chunk_size as usize;
        let ghost w = n as int;
        let offset = face.offset();
        let cs = n as i64;
        let mut u: usize = 0;
        while u < n
            invariant
                chunk.wf(),
                w == n,
                n == chunk.spec_size(),
                cs == w,
                n * n <= u32::MAX,
                slice < n,
                offset[0] as int == face.spec_offset().0,
                offset[1] as int == face.spec_offset().1,
                offset[2] as int == face.spec_offset().2,
                u <= n,
                mask@.len() == n * n,
                forall|a: int, b: int|
                    0 <= a < w && 0 <= b < u ==> #[trigger] cell(mask@, w, a, b) == opt_face_cell(chunk, face, slice as int, b, a),
            decreases n - u,
        {
            let mut v: usize = 0;
            while v < n
                invariant
                    chunk.wf(),
                    w == n,
                    n == chunk.spec_size(),
                    cs == w,
                    n * n <= u32::MAX,
                    slice < n,
                    offset[0] as int == face.spec_offset().0,
                    offset[1] as int == face.spec_offset().1,
                    offset[2] as int == face.spec_offset().2,
                    u < n,
                    v <= n,
                    mask@.len() == n * n,
                    forall|a: int, b: int|
                        0 <= a < w && 0 <= b < u ==> #[trigger] cell(mask@, w, a, b) == opt_face_cell(chunk, face, slice as int, b, a),
                    forall|a: int|
                        0 <= a < v ==> #[trigger] cell(mask@, w, a, u as int) == opt_face_cell(chunk, face, slice as int, u as int, a),
                decreases n - v,
            {
                proof {
                    lemma_cell_index(w, w, v as int, u as int);
                }
                let idx = u * n + v;
                let (x, y, z) = opt_voxel_exec(face, n, slice, u, v);
                let block = chunk.get_block(x as u32, y as u32, z as u32);
                let value = if block != AIR {
                    let nx: i64 = x as i64 + offset[0] as i64;
                    let ny: i64 = y as i64 + offset[1] as i64;
                    let nz: i64 = z as i64 + offset[2] as i64;
                    let visible = if nx < 0 || nx >= cs || ny < 0 || ny >= cs || nz < 0 || nz >= cs {
                        true
                    } else {
                        chunk.get_block(nx as u32, ny as u32, nz as u32) == AIR
                    };
                    if visible {
                        Some(block)
                    } else {
                        None
                    }
                } else {
                    None
                };
                let ghost before = mask@;
                mask.set(idx, value);
                proof {
                    assert(cell(mask@, w, v as int, u as int) == opt_face_cell(chunk, face, slice as int, u as int, v as int));
                    assert forall|a: int, b: int|
                        0 <= a < w && 0 <= b < u implies #[trigger] cell(mask@, w, a, b) == opt_face_cell(chunk, face, slice as int, b, a) by {
                        lemma_cell_index(w, w, a, b);
                        lemma_cell_index_injective(w, a, b, v as int, u as int);
                        assert(cell(before, w, a, b) == opt_face_cell(chunk, face, slice as int, b, a));
                    }
                    assert forall|a: int|
                        0 <= a < v + 1 implies #[trigger] cell(mask@, w, a, u as int) == opt_face_cell(chunk, face, slice as int, u as int, a) by {
                        lemma_cell_index(w, w, a, u as int);
                        lemma_cell_index_injective(w, a, u as int, v as int, u as int);
                        if a < v {
                            assert(cell(before, w, a, u as int) == opt_face_cell(chunk, face, slice as int, u as int, a));
                        }
                    }
                }
                v = v + 1;
            }
            u = u + 1;
        }
    }

    /// Extract quads for one face direction: every slice's mask is filled
    /// from the chunk and its rectangles appended. The appended quads all lie
    /// on `face`, on each slice they tile the slice's visible faces, and each
    /// is the greedy choice on its slice given the ones before it.
    pub fn extract_quads_for_face_buffered(
        &self,
        chunk: &Chunk,
        face: FaceDirection,
        mask: &mut Vec<Option<BlockId>>,
        used: &mut Vec<bool>,
        quads: &mut Vec<GreedyQuad>,
    )
        requires
            chunk.wf(),
            chunk.spec_size() == self.spec_chunk_size(),
            self.spec_chunk_size() * self.spec_chunk_size() <= u32::MAX,
            old(mask)@.len() == self.spec_chunk_size() * self.spec_chunk_size(),
            old(used)@.len() == old(mask)@.len(),
        ensures
            final(mask)@.len() == old(mask)@.len(),
            final(used)@.len() == old(used)@.len(),
            final(quads)@.len() >= old(quads)@.len(),
            final(quads)@.take(old(quads)@.len() as int) == old(quads)@,
            forall|k: int|
                old(quads)@.len() <= k < final(quads)@.len() ==> (#[trigger] final(quads)@[k]).face_direction == face
                    && 0 <= quad_slice(final(quads)@[k]) < chunk.spec_size()
                    && quad_well_placed(final(quads)@[k], chunk.spec_size() as int),
            forall|sl: int|
                0 <= sl < chunk.spec_size() ==> #[trigger] opt_slice_tiled(
                    final(quads)@.skip(old(quads)@.len() as int),
                    chunk,
                    face,
                    sl,
                ),
            opt_chunk_greedy(final(quads)@.skip(old(quads)@.len() as int), chunk),
    {
        let n = self.chunk_size as usize;
        let ghost q0 = quads@;
        let ghost len0 = q0.len() as int;
        let mut slice: usize = 0;
        while slice < n
            invariant
                chunk.wf(),
                n == chunk.spec_size(),
                n == self.spec_chunk_size(),
                n * n <= u32::MAX,
                slice <= n,
                mask@.len() == n * n,
                used@.len() == n * n,
                len0 == q0.len(),
                quads@.len() >= len0,
                quads@.take(len0) == q0,
                forall|k: int|
                    len0 <= k < quads@.len() ==> (#[trigger] quads@[k]).face_direction == face
                        && 0 <= quad_slice(quads@[k]) < slice
                        && quad_well_placed(quads@[k], n as int),
                forall|sl: int| 0 <= sl < slice ==> #[trigger] opt_slice_tiled(quads@.skip(len0), chunk, face, sl),
                opt_chunk_greedy(quads@.skip(len0), chunk),
            decreases n - slice,
        {
            self.fill_mask(chunk, face, slice, mask);
            let ghost before = quads@;
            let ghost b_len = before.len() as int;
            self.extract_rectangles_buffered(mask, used, slice, face, quads);
            proof {
                let old_new = before.skip(len0);
                let sq = quads@.skip(b_len);
                assert(quads@.take(b_len) == before);
                assert(quads@ == before + sq);
                assert(quads@.skip(len0) == old_new + sq);
                assert(quads@.take(len0) == q0);
                assert forall|k: int| 0 <= k < sq.len() implies on_slice(#[trigger] sq[k], face, slice as int)
                    && quad_well_placed(sq[k], n as int) by {}
                assert forall|k: int|
                    len0 <= k < quads@.len() implies (#[trigger] quads@[k]).face_direction == face
                        && 0 <= quad_slice(quads@[k]) < slice + 1
                        && quad_well_placed(quads@[k], n as int) by {
                    if k < b_len {
                        assert(quads@[k] == before[k]);
                    } else {
                        assert(quads@[k] == sq[k - b_len]);
                    }
                }
                assert forall|k: int| 0 <= k < old_new.len() implies !on_slice(#[trigger] old_new[k], face, slice as int) by {
                    assert(old_new[k] == before[len0 + k]);
                }
                lemma_tiled_from_mask(sq, mask@, chunk, face, slice as int);
                lemma_tiled_append_before(old_new, sq, chunk, face, slice as int);
                assert forall|sl: int| 0 <= sl < slice + 1 implies #[trigger] opt_slice_tiled(quads@.skip(len0), chunk, face, sl) by {
                    if sl < slice {
                        assert forall|k: int| 0 <= k < sq.len() implies !on_slice(#[trigger] sq[k], face, sl) by {}
                        lemma_tiled_append_after(old_new, sq, chunk, face, sl);
                    }
                }
                lemma_opt_greedy_from_mask(sq, mask@, chunk, face, slice as int);
                assert forall|x: int, y: int| 0 <= x < old_new.len() && 0 <= y < sq.len() implies !on_slice(
                    #[trigger] old_new[x],
                    (#[trigger] sq[y]).face_direction,
                    quad_slice(sq[y]),
                ) by {
                    assert(old_new[x] == before[len0 + x]);
                    assert(on_slice(sq[y], face, slice as int));
                }
                lemma_opt_greedy_append(old_new, sq, chunk);
            }
            slice = slice + 1;
        }
    }
}

impl OptimizedGreedyMesher {
    pub closed spec fn spec_chunk_size(&self) -> u32 {
        self.chunk_size
    }

    pub fn new(chunk_size: u32) -> (m: Self)
        ensures
            m.spec_chunk_size() == chunk_size,
    {
        Self { chunk_size }
    }

    /// Extract greedy quads for all six face directions (+X, -X, +Y, -Y,
    /// +Z, -Z in turn) into `quads`, reusing the mask buffers. The appended
    /// quads tile the visible faces of every slice of every direction, each
    /// the greedy choice on its slice given the ones before it.
    pub fn extract_quads_buffered(
        &self,
        chunk: &Chunk,
        mask: &mut Vec<Option<BlockId>>,
        used: &mut Vec<bool>,
        quads: &mut Vec<GreedyQuad>,
    )
        requires
            chunk.wf(),
            chunk.spec_size() == self.spec_chunk_size(),
            self.spec_chunk_size() * self.spec_chunk_size() <= u32::MAX,
            old(mask)@.len() == self.spec_chunk_size() * self.spec_chunk_size(),
            old(used)@.len() == old(mask)@.len(),
        ensures
            final(mask)@.len() == old(mask)@.len(),
            final(used)@.len() == old(used)@.len(),
            final(quads)@.len() >= old(quads)@.len(),
            final(quads)@.take(old(quads)@.len() as int) == old(quads)@,
            forall|k: int|
                old(quads)@.len() <= k < final(quads)@.len() ==> 0 <= quad_slice(#[trigger] final(quads)@[k])
                    < chunk.spec_size() && quad_well_placed(final(quads)@[k], chunk.spec_size() as int),
            forall|face: FaceDirection, sl: int|
                0 <= sl < chunk.spec_size() ==> #[trigger] opt_slice_tiled(
                    final(quads)@.skip(old(quads)@.len() as int),
                    chunk,
                    face,
                    sl,
                ),
            opt_chunk_greedy(final(quads)@.skip(old(quads)@.len() as int), chunk),
    {
        let faces = [
            FaceDirection::East,
            FaceDirection::West,
            FaceDirection::Up,
            FaceDirection::Down,
            FaceDirection::South,
            FaceDirection::North,
        ];
        let ghost q0 = quads@;
        let ghost len0 = q0.len() as int;
        let ghost n = chunk.spec_size() as int;
        let mut t: usize = 0;
        while t < 6
            invariant
                chunk.wf(),
                chunk.spec_size() == self.spec_chunk_size(),
                self.spec_chunk_size() * self.spec_chunk_size() <= u32::MAX,
                n == chunk.spec_size(),
                t <= 6,
                faces@ == seq![
                    FaceDirection::East,
                    FaceDirection::West,
                    FaceDirection::Up,
                    FaceDirection::Down,
                    FaceDirection::South,
                    FaceDirection::North,
                ],
                mask@.len() == self.spec_chunk_size() * self.spec_chunk_size(),
                used@.len() == mask@.len(),
                len0 == q0.len(),
                quads@.len() >= len0,
                quads@.take(len0) == q0,
                forall|k: int|
                    len0 <= k < quads@.len() ==> 0 <= quad_slice(#[trigger] quads@[k]) < n
                        && quad_well_placed(quads@[k], n)
                        && exists|a: int| 0 <= a < t && faces@[a] == quads@[k].face_direction,
                forall|a: int, sl: int|
                    0 <= a < t && 0 <= sl < n ==> #[trigger] opt_slice_tiled(quads@.skip(len0), chunk, faces@[a], sl),
                opt_chunk_greedy(quads@.skip(len0), chunk),
            decreases 6 - t,
        {
            let face = faces[t];
            let ghost before = quads@;
            let ghost b_len = before.len() as int;
            self.extract_quads_for_face_buffered(chunk, face, mask, used, quads);
            proof {
                let old_new = before.skip(len0);
                let fq = quads@.skip(b_len);
                assert(quads@.take(b_len) == before);
                assert(quads@ == before + fq);
                assert(quads@.skip(len0) == old_new + fq);
                assert(quads@.take(len0) == q0);
                assert forall|k: int|
                    len0 <= k < quads@.len() implies 0 <= quad_slice(#[trigger] quads@[k]) < n
                        && quad_well_placed(quads@[k], n)
                        && exists|a: int| 0 <= a < t + 1 && faces@[a] == quads@[k].face_direction by {
                    if k < b_len {
                        assert(quads@[k] == before[k]);
                        let a = choose|a: int| 0 <= a < t && faces@[a] == before[k].face_direction;
                        assert(faces@[a] == quads@[k].face_direction);
                    } else {
                        assert(faces@[t as int] == quads@[k].face_direction);
                    }
                }
                assert forall|a: int, sl: int|
                    0 <= a < t + 1 && 0 <= sl < n implies #[trigger] opt_slice_tiled(quads@.skip(len0), chunk, faces@[a], sl) by {
                    if a < t {
                        assert forall|k: int| 0 <= k < fq.len() implies !on_slice(#[trigger] fq[k], faces@[a], sl) by {
                            assert(fq[k] == quads@[b_len + k]);
                        }
                        lemma_tiled_append_after(old_new, fq, chunk, faces@[a], sl);
                    } else {
                        assert forall|k: int| 0 <= k < old_new.len() implies !on_slice(#[trigger] old_new[k], face, sl) by {
                            assert(old_new[k] == before[len0 + k]);
                            let a2 = choose|a2: int| 0 <= a2 < t && faces@[a2] == before[len0 + k].face_direction;
                        }
                        lemma_tiled_append_before(old_new, fq, chunk, face, sl);
                    }
                }
                assert forall|x: int, y: int| 0 <= x < old_new.len() && 0 <= y < fq.len() implies !on_slice(
                    #[trigger] old_new[x],
                    (#[trigger] fq[y]).face_direction,
                    quad_slice(fq[y]),
                ) by {
                    assert(old_new[x] == before[len0 + x]);
                    assert(fq[y] == quads@[b_len + y]);
                    let a2 = choose|a2: int| 0 <= a2 < t && faces@[a2] == before[len0 + x].face_direction;
                }
                lemma_opt_greedy_append(old_new, fq, chunk);
            }
            t = t + 1;
        }
        proof {
            assert forall|face: FaceDirection, sl: int|
                0 <= sl < n implies #[trigger] opt_slice_tiled(quads@.skip(len0), chunk, face, sl) by {
                let a: int = match face {
                    FaceDirection::East => 0,
                    FaceDirection::West => 1,
                    FaceDirection::Up => 2,
                    FaceDirection::Down => 3,
                    FaceDirection::South => 4,
                    FaceDirection::North => 5,
                };
                assert(faces@[a] == face);
            }
        }
    }

    /// Extract rectangles from the face mask of `slice` without allocating
    /// beyond the quads: clears `used`, then from each free, filled cell in
    /// scan order grows a rectangle of its block and appends its quad. The
    /// appended quads tile the mask's filled cells exactly, each over cells
    /// of its own block, all on `slice` of `face`; each is the greedy choice
    /// given the ones before it (first free cell, grown along `u` as far as
    /// the block goes, then along `v` while whole columns follow); and a cell
    /// ends up used exactly when the mask holds a block there.
    pub fn extract_rectangles_buffered(
        &self,
        mask: &Vec<Option<BlockId>>,
        used: &mut Vec<bool>,
        slice: usize,
        face: FaceDirection,
        quads: &mut Vec<GreedyQuad>,
    )
        requires
            slice < self.spec_chunk_size(),
            self.spec_chunk_size() * self.spec_chunk_size() <= u32::MAX,
            mask@.len() == self.spec_chunk_size() * self.spec_chunk_size(),
            old(used)@.len() == mask@.len(),
        ensures
            final(used)@.len() == old(used)@.len(),
            forall|i: int, j: int|
                0 <= i < self.spec_chunk_size() && 0 <= j < self.spec_chunk_size() ==> #[trigger] vcell(
                    final(used)@,
                    self.spec_chunk_size() as int,
                    i,
                    j,
                ) == (cell(mask@, self.spec_chunk_size() as int, i, j) is Some),
            final(quads)@.len() >= old(quads)@.len(),
            final(quads)@.take(old(quads)@.len() as int) == old(quads)@,
            mask_partitioned(
                final(quads)@.skip(old(quads)@.len() as int),
                mask@,
                self.spec_chunk_size() as int,
                self.spec_chunk_size() as int,
                face,
                slice as int,
            ),
            mask_greedy(final(quads)@.skip(old(quads)@.len() as int), mask@, self.spec_chunk_size() as int, false),
    {
        let n = self.chunk_size as usize;
        let total = n * n;
        let mut c: usize = 0;
        while c < total
            invariant
                c <= total,
                total == used@.len(),
                forall|t: int| 0 <= t < c ==> !used@[t],
            decreases total - c,
        {
            used.set(c, false);
            c = c + 1;
        }
        let ghost w = n as int;
        let ghost m = mask@;
        let mut found: Vec<GreedyQuad> = Vec::new();
        proof {
            assert forall|a: int, b: int| 0 <= a < w && 0 <= b < w implies !#[trigger] vcell(used@, w, a, b) by {
                lemma_cell_index(w, w, a, b);
            }
        }
        let mut start_u: usize = 0;
        while start_u < n
            invariant
                w == n,
                m == mask@,
                slice < n,
                total == n * n,
                total <= u32::MAX,
                mask@.len() == total,
                used@.len() == total,
                start_u <= n,
                inv_quads(found@, used@, m, w, w, face, slice as int),
                mask_greedy(found@, m, w, false),
                forall|a: int, b: int|
                    0 <= a < w && 0 <= b < start_u && (#[trigger] cell(m, w, a, b)) is Some ==> vcell(used@, w, a, b),
            decreases n - start_u,
        {
            let mut start_v: usize = 0;
            while start_v < n
                invariant
                    w == n,
                    m == mask@,
                    slice < n,
                    total == n * n,
                    total <= u32::MAX,
                    mask@.len() == total,
                    used@.len() == total,
                    start_u < n,
                    start_v <= n,
                    inv_quads(found@, used@, m, w, w, face, slice as int),
                    mask_greedy(found@, m, w, false),
                    forall|a: int, b: int|
                        0 <= a < w && 0 <= b < start_u && (#[trigger] cell(m, w, a, b)) is Some ==> vcell(
                            used@,
                            w,
                            a,
                            b,
                        ),
                    forall|a: int|
                        0 <= a < start_v && (#[trigger] cell(m, w, a, start_u as int)) is Some ==> vcell(
                            used@,
                            w,
                            a,
                            start_u as int,
                        ),
                decreases n - start_v,
            {
                proof {
                    lemma_cell_index(w, w, start_v as int, start_u as int);
                }
                let idx = start_u * n + start_v;
                let skip = match mask[idx] {
                    None => true,
                    Some(_) => used[idx],
                };
                if !skip {
                    let material = match mask[idx] {
                        Some(b) => b,
                        None => 0,
                    };
                    let ghost old_used = used@;
                    let (ext_v, ext_u) = grow_rect(mask, start_v, start_u, n, material, used);
                    let quad = quad_at(face, slice, start_v, start_u, ext_v, ext_u, material);
                    let ghost old_found = found@;
                    found.push(quad);
                    proof {
                        lemma_greedy_choice_j_first(old_found, quad, old_used, m, w, material);
                        lemma_mask_greedy_push(old_found, quad, m, w, false);
                        lemma_add_rect(old_found, quad, old_used, used@, m, w, w, face, slice as int, material);
                        assert forall|a: int, b: int|
                            0 <= a < w && 0 <= b < start_u && (#[trigger] cell(m, w, a, b)) is Some implies vcell(
                            used@,
                            w,
                            a,
                            b,
                        ) by {
                            assert(vcell(old_used, w, a, b));
                        }
                        assert forall|a: int|
                            0 <= a < start_v + 1 && (#[trigger] cell(m, w, a, start_u as int)) is Some implies vcell(
                            used@,
                            w,
                            a,
                            start_u as int,
                        ) by {
                            if a < start_v {
                                assert(vcell(old_used, w, a, start_u as int));
                            } else {
                                assert(covers(quad, a, start_u as int));
                            }
                        }
                    }
                } else {
                    proof {
                        assert forall|a: int|
                            0 <= a < start_v + 1 && (#[trigger] cell(m, w, a, start_u as int)) is Some implies vcell(
                            used@,
                            w,
                            a,
                            start_u as int,
                        ) by {
                            if a == start_v {
                                assert(vcell(used@, w, start_v as int, start_u as int) == used@[idx as int]);
                            }
                        }
                    }
                }
                start_v = start_v + 1;
            }
            start_u = start_u + 1;
        }
        proof {
            lemma_inv_quads_final(found@, used@, m, w, w, face, slice as int);
            assert forall|i: int, j: int| 0 <= i < w && 0 <= j < w implies #[trigger] vcell(used@, w, i, j) == (cell(
                m,
                w,
                i,
                j,
            ) is Some) by {
                if vcell(used@, w, i, j) {
                    let k = choose|k: int| 0 <= k < found@.len() && #[trigger] covers(found@[k], i, j);
                    assert(cell(m, w, i, j) == Some(found@[k].block_id));
                }
            }
        }
        let ghost q0 = quads@;
        let mut k: usize = 0;
        while k < found.len()
            invariant
                k <= found@.len(),
                quads@ == q0 + found@.take(k as int),
            decreases found@.len() - k,
        {
            quads.push(found[k]);
            proof {
                assert(found@.take(k + 1) == found@.take(k as int).push(found@[k as int]));
            }
            k = k + 1;
        }
        proof {
            assert(found@.take(found@.len() as int) == found@);
            assert(quads@.take(q0.len() as int) == q0);
            assert(quads@.skip(q0.len() as int) == found@);
        }
    }
}

} // verus!
