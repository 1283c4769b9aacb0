//! The faces a chunk mesh holds, counted as a set: one entry for every face
//! of a solid block that looks onto air, and no other.
use vstd::prelude::*;
use crate::world::{AIR, BlockId};
use crate::data_mesh_builder::{BlockFace, FaceQuad};
use crate::chunk_rendering::{
    chunk_block_faces, chunk_faces_fn, face_entry, face_open, grid_faces, layer_faces, lemma_flatten_new_step,
    row_faces,
};

verus! {

/// The step from a block to the neighbour a face looks at.
pub open spec fn face_step(face: BlockFace) -> (int, int, int) {
    match face {
        BlockFace::Top => (0, 1, 0),
        BlockFace::Bottom => (0, -1, 0),
        BlockFace::North => (0, 0, -1),
        BlockFace::South => (0, 0, 1),
        BlockFace::East => (1, 0, 0),
        BlockFace::West => (-1, 0, 0),
    }
}

/// Face `face` of block `(x, y, z)` of a chunk of size `s` shows: the block
/// is in the chunk and solid, and the neighbour it looks at is air.
pub open spec fn face_shows_at(
    cb: spec_fn(u32, u32, u32) -> BlockId,
    wb: spec_fn(i32, i32, i32) -> BlockId,
    s: u32,
    x: u32,
    y: u32,
    z: u32,
    face: BlockFace,
) -> bool {
    let (dx, dy, dz) = face_step(face);
    &&& x < s && y < s && z < s
    &&& cb(x, y, z) != AIR
    &&& face_open(cb, wb, s, x + dx, y + dy, z + dz)
}

/// Which block and side a face entry stands for.
pub open spec fn quad_key(q: FaceQuad) -> (u32, u32, u32, BlockFace) {
    (q.x, q.y, q.z, q.face)
}

/// All the faces that show in a chunk of size `s`.
pub open spec fn open_faces(
    cb: spec_fn(u32, u32, u32) -> BlockId,
    wb: spec_fn(i32, i32, i32) -> BlockId,
    s: u32,
) -> Set<(u32, u32, u32, BlockFace)> {
    Set::new(|k: (u32, u32, u32, BlockFace)| face_shows_at(cb, wb, s, k.0, k.1, k.2, k.3))
}

/// No two entries stand for the same face.
pub open spec fn keys_distinct(s: Seq<FaceQuad>) -> bool {
    forall|i: int, j: int| 0 <= i < j < s.len() ==> quad_key(#[trigger] s[i]) != quad_key(#[trigger] s[j])
}

pub(crate) proof fn lemma_concat_contains(a: Seq<FaceQuad>, b: Seq<FaceQuad>, q: FaceQuad)
    ensures
        (a + b).contains(q) <==> (a.contains(q) || b.contains(q)),
{
    if (a + b).contains(q) {
        let k = choose|k: int| 0 <= k < (a + b).len() && (a + b)[k] == q;
        if k < a.len() {
            assert(a[k] == q);
        } else {
            assert(b[k - a.len()] == q);
        }
    }
    if a.contains(q) {
        let k = choose|k: int| 0 <= k < a.len() && a[k] == q;
        assert((a + b)[k] == q);
    }
    if b.contains(q) {
        let k = choose|k: int| 0 <= k < b.len() && b[k] == q;
        assert((a + b)[a.len() + k] == q);
    }
}

proof fn lemma_concat_distinct(a: Seq<FaceQuad>, b: Seq<FaceQuad>)
    requires
        keys_distinct(a),
        keys_distinct(b),
        forall|p: FaceQuad, q: FaceQuad| a.contains(p) && b.contains(q) ==> quad_key(p) != quad_key(q),
    ensures
        keys_distinct(a + b),
{
    let c = a + b;
    assert forall|i: int, j: int| 0 <= i < j < c.len() implies quad_key(#[trigger] c[i]) != quad_key(#[trigger] c[j]) by {
        if j < a.len() {
            assert(c[i] == a[i] && c[j] == a[j]);
        } else if i >= a.len() {
            assert(c[i] == b[i - a.len()] && c[j] == b[j - a.len()]);
        } else {
            assert(c[i] == a[i] && a.contains(a[i]));
            assert(c[j] == b[j - a.len()] && b.contains(b[j - a.len()]));
        }
    }
}

pub(crate) proof fn lemma_flatten_members(n: nat, f: spec_fn(int) -> Seq<FaceQuad>, q: FaceQuad)
    ensures
        Seq::new(n, f).flatten().contains(q) <==> exists|i: int| 0 <= i < n && #[trigger] f(i).contains(q),
    decreases n,
{
    if n == 0 {
        assert(Seq::new(0, f) =~= Seq::<Seq<FaceQuad>>::empty());
    } else {
        let m = (n - 1) as nat;
        lemma_flatten_new_step(m, f);
        lemma_flatten_members(m, f, q);
        lemma_concat_contains(Seq::new(m, f).flatten(), f(m as int), q);
        if exists|i: int| 0 <= i < n && #[trigger] f(i).contains(q) {
            let i = choose|i: int| 0 <= i < n && #[trigger] f(i).contains(q);
            if i < m {
                assert(exists|i: int| 0 <= i < m && #[trigger] f(i).contains(q));
            }
        }
    }
}

proof fn lemma_flatten_distinct(n: nat, f: spec_fn(int) -> Seq<FaceQuad>)
    requires
        forall|i: int| 0 <= i < n ==> keys_distinct(#[trigger] f(i)),
        forall|i: int, j: int, p: FaceQuad, q: FaceQuad|
            0 <= i < j < n && #[trigger] f(i).contains(p) && #[trigger] f(j).contains(q) ==> quad_key(p) != quad_key(q),
    ensures
        keys_distinct(Seq::new(n, f).flatten()),
    decreases n,
{
    if n == 0 {
        assert(Seq::new(0, f) =~= Seq::<Seq<FaceQuad>>::empty());
    } else {
        let m = (n - 1) as nat;
        lemma_flatten_new_step(m, f);
        lemma_flatten_distinct(m, f);
        let a = Seq::new(m, f).flatten();
        let b = f(m as int);
        assert forall|p: FaceQuad, q: FaceQuad| a.contains(p) && b.contains(q) implies quad_key(p) != quad_key(q) by {
            lemma_flatten_members(m, f, p);
            let i = choose|i: int| 0 <= i < m && #[trigger] f(i).contains(p);
        }
        lemma_concat_distinct(a, b);
    }
}

/// Facts on the faces of one block: they stand for that block, for
/// different sides, and exactly for its sides that show.
proof fn lemma_block_faces(
    cb: spec_fn(u32, u32, u32) -> BlockId,
    wb: spec_fn(i32, i32, i32) -> BlockId,
    s: u32,
    x: u32,
    y: u32,
    z: u32,
)
    requires
        x < s && y < s && z < s,
    ensures
        keys_distinct(chunk_block_faces(cb, wb, s, x, y, z)),
        forall|q: FaceQuad| #[trigger] chunk_block_faces(cb, wb, s, x, y, z).contains(q) ==> q.x == x && q.y == y
            && q.z == z && face_shows_at(cb, wb, s, x, y, z, q.face),
        forall|face: BlockFace| #[trigger] face_shows_at(cb, wb, s, x, y, z, face) ==> exists|q: FaceQuad|
            #[trigger] chunk_block_faces(cb, wb, s, x, y, z).contains(q) && quad_key(q) == (x, y, z, face),
{
    let b = cb(x, y, z);
    let faces = chunk_block_faces(cb, wb, s, x, y, z);
    if b == AIR {
        assert forall|face: BlockFace| #[trigger] face_shows_at(cb, wb, s, x, y, z, face) implies exists|q: FaceQuad|
            #[trigger] faces.contains(q) && quad_key(q) == (x, y, z, face) by {}
    } else {
        let e0 = face_entry(cb, wb, s, x, y, z, b, BlockFace::Top, 0, 1, 0);
        let e1 = face_entry(cb, wb, s, x, y, z, b, BlockFace::Bottom, 0, -1, 0);
        let e2 = face_entry(cb, wb, s, x, y, z, b, BlockFace::North, 0, 0, -1);
        let e3 = face_entry(cb, wb, s, x, y, z, b, BlockFace::South, 0, 0, 1);
        let e4 = face_entry(cb, wb, s, x, y, z, b, BlockFace::East, 1, 0, 0);
        let e5 = face_entry(cb, wb, s, x, y, z, b, BlockFace::West, -1, 0, 0);
        let es = seq![e0, e1, e2, e3, e4, e5];
        let fs = seq![BlockFace::Top, BlockFace::Bottom, BlockFace::North, BlockFace::South, BlockFace::East, BlockFace::West];
        // Each entry holds at most the one face of its side, when it shows.
        assert forall|t: int| 0 <= t < 6 implies {
            &&& (#[trigger] es[t]).len() <= 1
            &&& forall|q: FaceQuad| es[t].contains(q) ==> q.x == x && q.y == y && q.z == z && q.face == fs[t]
                && face_shows_at(cb, wb, s, x, y, z, fs[t])
            &&& face_shows_at(cb, wb, s, x, y, z, fs[t]) ==> es[t].len() == 1 && es[t][0].x == x && es[t][0].y == y
                && es[t][0].z == z && es[t][0].face == fs[t]
        } by {
            assert forall|q: FaceQuad| es[t].contains(q) implies q.x == x && q.y == y && q.z == z && q.face == fs[t]
                && face_shows_at(cb, wb, s, x, y, z, fs[t]) by {
                let k = choose|k: int| 0 <= k < es[t].len() && es[t][k] == q;
            }
        }
        let p1 = e0 + e1;
        let p2 = p1 + e2;
        let p3 = p2 + e3;
        let p4 = p3 + e4;
        let p5 = p4 + e5;
        assert(faces == p5);
        assert forall|t: int| 0 <= t < 6 implies keys_distinct(#[trigger] es[t]) by {}
        // Prefix k holds only faces of the first k sides.
        assert forall|q: FaceQuad| p1.contains(q) implies q.face == BlockFace::Top || q.face == BlockFace::Bottom by {
            lemma_concat_contains(e0, e1, q);
            assert(es[0] == e0 && es[1] == e1);
        }
        assert(keys_distinct(e0) && keys_distinct(e1)) by {
            assert(es[0] == e0 && es[1] == e1);
        }
        assert forall|p: FaceQuad, q: FaceQuad| e0.contains(p) && e1.contains(q) implies quad_key(p) != quad_key(q) by {
            assert(es[0] == e0 && es[1] == e1);
        }
        lemma_concat_distinct(e0, e1);
        assert forall|q: FaceQuad| p2.contains(q) implies q.face == BlockFace::Top || q.face == BlockFace::Bottom
            || q.face == BlockFace::North by {
            lemma_concat_contains(p1, e2, q);
            assert(es[2] == e2);
        }
        assert forall|p: FaceQuad, q: FaceQuad| p1.contains(p) && e2.contains(q) implies quad_key(p) != quad_key(q) by {
            assert(es[2] == e2);
        }
        assert(keys_distinct(e2)) by { assert(es[2] == e2); }
        lemma_concat_distinct(p1, e2);
        assert forall|q: FaceQuad| p3.contains(q) implies q.face == BlockFace::Top || q.face == BlockFace::Bottom
            || q.face == BlockFace::North || q.face == BlockFace::South by {
            lemma_concat_contains(p2, e3, q);
            assert(es[3] == e3);
        }
        assert forall|p: FaceQuad, q: FaceQuad| p2.contains(p) && e3.contains(q) implies quad_key(p) != quad_key(q) by {
            assert(es[3] == e3);
        }
        assert(keys_distinct(e3)) by { assert(es[3] == e3); }
        lemma_concat_distinct(p2, e3);
        assert forall|q: FaceQuad| p4.contains(q) implies q.face != BlockFace::West by {
            lemma_concat_contains(p3, e4, q);
            assert(es[4] == e4);
        }
        assert forall|p: FaceQuad, q: FaceQuad| p3.contains(p) && e4.contains(q) implies quad_key(p) != quad_key(q) by {
            assert(es[4] == e4);
        }
        assert(keys_distinct(e4)) by { assert(es[4] == e4); }
        lemma_concat_distinct(p3, e4);
        assert forall|p: FaceQuad, q: FaceQuad| p4.contains(p) && e5.contains(q) implies quad_key(p) != quad_key(q) by {
            assert(es[5] == e5);
        }
        assert(keys_distinct(e5)) by { assert(es[5] == e5); }
        lemma_concat_distinct(p4, e5);
        // Membership in the whole is membership in one of the entries.
        assert forall|q: FaceQuad| #[trigger] faces.contains(q) implies q.x == x && q.y == y && q.z == z
            && face_shows_at(cb, wb, s, x, y, z, q.face) by {
            lemma_concat_contains(p4, e5, q);
            lemma_concat_contains(p3, e4, q);
            lemma_concat_contains(p2, e3, q);
            lemma_concat_contains(p1, e2, q);
            lemma_concat_contains(e0, e1, q);
            assert(es[0] == e0 && es[1] == e1 && es[2] == e2 && es[3] == e3 && es[4] == e4 && es[5] == e5);
        }
        assert forall|face: BlockFace| #[trigger] face_shows_at(cb, wb, s, x, y, z, face) implies exists|q: FaceQuad|
            #[trigger] faces.contains(q) && quad_key(q) == (x, y, z, face) by {
            let t: int = match face {
                BlockFace::Top => 0,
                BlockFace::Bottom => 1,
                BlockFace::North => 2,
                BlockFace::South => 3,
                BlockFace::East => 4,
                BlockFace::West => 5,
            };
            assert(fs[t] == face);
            let q = es[t][0];
            assert(es[t].contains(q));
            assert(es[0] == e0 && es[1] == e1 && es[2] == e2 && es[3] == e3 && es[4] == e4 && es[5] == e5);
            lemma_concat_contains(p4, e5, q);
            lemma_concat_contains(p3, e4, q);
            lemma_concat_contains(p2, e3, q);
            lemma_concat_contains(p1, e2, q);
            lemma_concat_contains(e0, e1, q);
            assert(faces.contains(q));
        }
    }
}

proof fn lemma_row(cb: spec_fn(u32, u32, u32) -> BlockId, wb: spec_fn(i32, i32, i32) -> BlockId, s: u32, y: u32, z: u32)
    requires
        y < s && z < s,
    ensures
        keys_distinct(row_faces(chunk_faces_fn(cb, wb, s), y, z, s as nat)),
        forall|q: FaceQuad| #[trigger] row_faces(chunk_faces_fn(cb, wb, s), y, z, s as nat).contains(q) ==> q.y == y
            && q.z == z && face_shows_at(cb, wb, s, q.x, q.y, q.z, q.face),
        forall|x: u32, face: BlockFace| #[trigger] face_shows_at(cb, wb, s, x, y, z, face) ==> exists|q: FaceQuad|
            #[trigger] row_faces(chunk_faces_fn(cb, wb, s), y, z, s as nat).contains(q) && quad_key(q) == (x, y, z, face),
{
    let per = chunk_faces_fn(cb, wb, s);
    let f = |x: int| per(x as u32, y, z);
    assert(row_faces(per, y, z, s as nat) == Seq::new(s as nat, f).flatten());
    assert forall|i: int| 0 <= i < s implies keys_distinct(#[trigger] f(i)) by {
        lemma_block_faces(cb, wb, s, i as u32, y, z);
    }
    assert forall|i: int, j: int, p: FaceQuad, q: FaceQuad|
        0 <= i < j < s && #[trigger] f(i).contains(p) && #[trigger] f(j).contains(q) implies quad_key(p) != quad_key(q) by {
        lemma_block_faces(cb, wb, s, i as u32, y, z);
        lemma_block_faces(cb, wb, s, j as u32, y, z);
    }
    lemma_flatten_distinct(s as nat, f);
    assert forall|q: FaceQuad| #[trigger] Seq::new(s as nat, f).flatten().contains(q) implies q.y == y && q.z == z
        && face_shows_at(cb, wb, s, q.x, q.y, q.z, q.face) by {
        lemma_flatten_members(s as nat, f, q);
        let i = choose|i: int| 0 <= i < s && #[trigger] f(i).contains(q);
        lemma_block_faces(cb, wb, s, i as u32, y, z);
    }
    assert forall|x: u32, face: BlockFace| #[trigger] face_shows_at(cb, wb, s, x, y, z, face) implies exists|q: FaceQuad|
        #[trigger] Seq::new(s as nat, f).flatten().contains(q) && quad_key(q) == (x, y, z, face) by {
        lemma_block_faces(cb, wb, s, x, y, z);
        let q = choose|q: FaceQuad| #[trigger] chunk_block_faces(cb, wb, s, x, y, z).contains(q) && quad_key(q) == (x, y, z, face);
        assert(f(x as int).contains(q));
        lemma_flatten_members(s as nat, f, q);
    }
}

proof fn lemma_layer(cb: spec_fn(u32, u32, u32) -> BlockId, wb: spec_fn(i32, i32, i32) -> BlockId, s: u32, y: u32)
    requires
        y < s,
    ensures
        keys_distinct(layer_faces(chunk_faces_fn(cb, wb, s), s, y, s as nat)),
        forall|q: FaceQuad| #[trigger] layer_faces(chunk_faces_fn(cb, wb, s), s, y, s as nat).contains(q) ==> q.y == y
            && face_shows_at(cb, wb, s, q.x, q.y, q.z, q.face),
        forall|x: u32, z: u32, face: BlockFace| #[trigger] face_shows_at(cb, wb, s, x, y, z, face) ==> exists|q: FaceQuad|
            #[trigger] layer_faces(chunk_faces_fn(cb, wb, s), s, y, s as nat).contains(q) && quad_key(q) == (x, y, z, face),
{
    let per = chunk_faces_fn(cb, wb, s);
    let f = |z: int| row_faces(per, y, z as u32, s as nat);
    assert(layer_faces(per, s, y, s as nat) == Seq::new(s as nat, f).flatten());
    assert forall|i: int| 0 <= i < s implies keys_distinct(#[trigger] f(i)) by {
        lemma_row(cb, wb, s, y, i as u32);
    }
    assert forall|i: int, j: int, p: FaceQuad, q: FaceQuad|
        0 <= i < j < s && #[trigger] f(i).contains(p) && #[trigger] f(j).contains(q) implies quad_key(p) != quad_key(q) by {
        lemma_row(cb, wb, s, y, i as u32);
        lemma_row(cb, wb, s, y, j as u32);
    }
    lemma_flatten_distinct(s as nat, f);
    assert forall|q: FaceQuad| #[trigger] Seq::new(s as nat, f).flatten().contains(q) implies q.y == y
        && face_shows_at(cb, wb, s, q.x, q.y, q.z, q.face) by {
        lemma_flatten_members(s as nat, f, q);
        let i = choose|i: int| 0 <= i < s && #[trigger] f(i).contains(q);
        lemma_row(cb, wb, s, y, i as u32);
    }
    assert forall|x: u32, z: u32, face: BlockFace| #[trigger] face_shows_at(cb, wb, s, x, y, z, face) implies exists|q: FaceQuad|
        #[trigger] Seq::new(s as nat, f).flatten().contains(q) && quad_key(q) == (x, y, z, face) by {
        lemma_row(cb, wb, s, y, z);
        let q = choose|q: FaceQuad| #[trigger] row_faces(per, y, z, s as nat).contains(q) && quad_key(q) == (x, y, z, face);
        assert(f(z as int).contains(q));
        lemma_flatten_members(s as nat, f, q);
    }
}

/// The faces a chunk mesh is built from are the faces that show, each
/// once: as many entries as the set of solid blocks' sides that look onto
/// air has members.
pub proof fn lemma_grid_faces_are_open_faces(
    cb: spec_fn(u32, u32, u32) -> BlockId,
    wb: spec_fn(i32, i32, i32) -> BlockId,
    s: u32,
)
    ensures
        grid_faces(chunk_faces_fn(cb, wb, s), s, s as nat).map_values(|q: FaceQuad| quad_key(q)).no_duplicates(),
        grid_faces(chunk_faces_fn(cb, wb, s), s, s as nat).map_values(|q: FaceQuad| quad_key(q)).to_set()
            == open_faces(cb, wb, s),
        grid_faces(chunk_faces_fn(cb, wb, s), s, s as nat).len() == open_faces(cb, wb, s).len(),
{
    let per = chunk_faces_fn(cb, wb, s);
    let f = |y: int| layer_faces(per, s, y as u32, s as nat);
    let g = grid_faces(per, s, s as nat);
    assert(g == Seq::new(s as nat, f).flatten());
    assert forall|i: int| 0 <= i < s implies keys_distinct(#[trigger] f(i)) by {
        lemma_layer(cb, wb, s, i as u32);
    }
    assert forall|i: int, j: int, p: FaceQuad, q: FaceQuad|
        0 <= i < j < s && #[trigger] f(i).contains(p) && #[trigger] f(j).contains(q) implies quad_key(p) != quad_key(q) by {
        lemma_layer(cb, wb, s, i as u32);
        lemma_layer(cb, wb, s, j as u32);
    }
    lemma_flatten_distinct(s as nat, f);
    let ks = g.map_values(|q: FaceQuad| quad_key(q));
    assert(ks.no_duplicates()) by {
        assert forall|i: int, j: int| 0 <= i < ks.len() && 0 <= j < ks.len() && i != j implies ks[i] != ks[j] by {
            if i < j {
                assert(quad_key(g[i]) != quad_key(g[j]));
            } else {
                assert(quad_key(g[j]) != quad_key(g[i]));
            }
        }
    }
    assert forall|k: (u32, u32, u32, BlockFace)| ks.to_set().contains(k) <==> open_faces(cb, wb, s).contains(k) by {
        if ks.to_set().contains(k) {
            let i = choose|i: int| 0 <= i < ks.len() && ks[i] == k;
            let q = g[i];
            assert(g.contains(q));
            lemma_flatten_members(s as nat, f, q);
            let y = choose|y: int| 0 <= y < s && #[trigger] f(y).contains(q);
            lemma_layer(cb, wb, s, y as u32);
        }
        if open_faces(cb, wb, s).contains(k) {
            assert(face_shows_at(cb, wb, s, k.0, k.1, k.2, k.3));
            lemma_layer(cb, wb, s, k.1);
            let q = choose|q: FaceQuad| #[trigger] layer_faces(per, s, k.1, s as nat).contains(q) && quad_key(q) == (k.0, k.1, k.2, k.3);
            assert(f(k.1 as int).contains(q));
            lemma_flatten_members(s as nat, f, q);
            let i = choose|i: int| 0 <= i < g.len() && g[i] == q;
            assert(ks[i] == k);
        }
    }
    assert(ks.to_set() =~= open_faces(cb, wb, s));
    ks.unique_seq_to_set();
}

} // verus!
