//! Index data of the indirect cube renderer.
use vstd::prelude::*;

verus! {

/// Indices of a cube of six four-vertex faces: two triangles per face.
pub open spec fn cube_indices() -> Seq<u16> {
    Seq::new(36, |i: int| {
        let base = (i / 6) * 4;
        let k = i % 6;
        (base + if k == 0 || k == 3 { 0int } else if k == 1 { 1int } else if k == 2 || k == 4 { 2int } else { 3int }) as u16
    })
}

pub fn create_cube_indices() -> (indices: Vec<u16>)
    ensures
        indices@ == cube_indices(),
{
    let mut indices: Vec<u16> = Vec::new();
    let mut face: u16 = 0;
    while face < 6
        invariant
            face <= 6,
            indices@ == cube_indices().take(6 * face as int),
        decreases 6 - face,
    {
        let base = face * 4;
        let ghost before = indices@;
        indices.push(base);
        indices.push(base + 1);
        indices.push(base + 2);
        indices.push(base);
        indices.push(base + 2);
        indices.push(base + 3);
        proof {
            let f = face as int;
            assert forall|j: int| 0 <= j < 6 implies #[trigger] cube_indices()[6 * f + j] == indices@[6 * f + j] by {
                assert((6 * f + j) / 6 == f) by (nonlinear_arith)
                    requires 0 <= j < 6, 0 <= f;
                assert((6 * f + j) % 6 == j) by (nonlinear_arith)
                    requires 0 <= j < 6, 0 <= f;
            }
            assert(indices@ =~= cube_indices().take(6 * (face + 1)));
        }
        face = face + 1;
    }
    proof {
        assert(cube_indices().take(36) =~= cube_indices());
    }
    indices
}

} // verus!
