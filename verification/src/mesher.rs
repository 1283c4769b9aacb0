//! Face visibility for the per-block chunk mesher.
use vstd::prelude::*;
use crate::world::{AIR, Chunk};

verus! {

/// Builds chunk meshes face by face.
pub struct ChunkMesher {}

/// A face of a block, as the mesher names them.
#[derive(Debug, Clone, Copy, PartialEq, Eq, Structural)]
pub enum Face {
    Right,
    Left,
    Top,
    Bottom,
    Front,
    Back,
}

/// A face towards `(x, y, z)` shows at the chunk's far border or next to air.
pub open spec fn face_visible(chunk: &Chunk, x: int, y: int, z: int, size: int) -> bool {
    x >= size || y >= size || z >= size || chunk.block_at(x, y, z) == AIR
}

/// The faces the mesher draws for the solid block at `(x, y, z)`: towards
/// +x, +y, +z when visible; towards -x, -y, -z at the near border or when
/// visible.
pub open spec fn mesher_faces(chunk: &Chunk, x: int, y: int, z: int, size: int) -> Seq<Face> {
    (if face_visible(chunk, x + 1, y, z, size) { seq![Face::Right] } else { Seq::empty() })
        + (if x == 0 || face_visible(chunk, x - 1, y, z, size) { seq![Face::Left] } else { Seq::empty() })
        + (if face_visible(chunk, x, y + 1, z, size) { seq![Face::Top] } else { Seq::empty() })
        + (if y == 0 || face_visible(chunk, x, y - 1, z, size) { seq![Face::Bottom] } else { Seq::empty() })
        + (if face_visible(chunk, x, y, z + 1, size) { seq![Face::Front] } else { Seq::empty() })
        + (if z == 0 || face_visible(chunk, x, y, z - 1, size) { seq![Face::Back] } else { Seq::empty() })
}

impl ChunkMesher {
    pub fn new() -> (m: Self) {
        Self {}
    }

    /// Whether the face towards `(x, y, z)` is visible.
    pub fn is_face_visible(chunk: &Chunk, x: u32, y: u32, z: u32, size: u32) -> (r: bool)
        requires
            chunk.wf(),
            chunk.spec_size() == size,
        ensures
            r == face_visible(chunk, x as int, y as int, z as int, size as int),
    {
        if x >= size || y >= size || z >= size {
            return true;
        }
        chunk.get_block(x, y, z) == AIR
    }

    /// The faces drawn for the solid block at `(x, y, z)`, in the order
    /// right, left, top, bottom, front, back.
    pub fn visible_faces(chunk: &Chunk, x: u32, y: u32, z: u32) -> (faces: Vec<Face>)
        requires
            chunk.wf(),
            x < chunk.spec_size(),
            y < chunk.spec_size(),
            z < chunk.spec_size(),
            chunk.spec_size() < u32::MAX,
        ensures
            faces@ == mesher_faces(chunk, x as int, y as int, z as int, chunk.spec_size() as int),
    {
        let size = chunk.size();
        let mut faces: Vec<Face> = Vec::new();
        if Self::is_face_visible(chunk, x + 1, y, z, size) {
            faces.push(Face::Right);
        }
        if x == 0 || Self::is_face_visible(chunk, x - 1, y, z, size) {
            faces.push(Face::Left);
        }
        if Self::is_face_visible(chunk, x, y + 1, z, size) {
            faces.push(Face::Top);
        }
        if y == 0 || Self::is_face_visible(chunk, x, y - 1, z, size) {
            faces.push(Face::Bottom);
        }
        if Self::is_face_visible(chunk, x, y, z + 1, size) {
            faces.push(Face::Front);
        }
        if z == 0 || Self::is_face_visible(chunk, x, y, z - 1, size) {
            faces.push(Face::Back);
        }
        proof {
            assert(faces@ =~= mesher_faces(chunk, x as int, y as int, z as int, size as int));
        }
        faces
    }
}

} // verus!
