//! Operations on chunk meshes.
use vstd::prelude::*;
use crate::data_mesh_builder::GridVertex;
use crate::mesh::ChunkMesh;

verus! {

/// The six indices of a quad whose four vertices start at `start`: two
/// triangles, (0, 1, 2) and (0, 2, 3).
pub open spec fn quad_index_pattern(start: u32) -> Seq<u32> {
    seq![start, (start + 1) as u32, (start + 2) as u32, start, (start + 2) as u32, (start + 3) as u32]
}

/// A mesh with no vertex and no index.
pub fn create_empty() -> (mesh: ChunkMesh)
    ensures
        mesh.vertices@.len() == 0,
        mesh.indices@.len() == 0,
{
    ChunkMesh { vertices: Vec::new(), indices: Vec::new() }
}

/// Removes every vertex and index.
pub fn clear(mesh: &mut ChunkMesh)
    ensures
        final(mesh).vertices@.len() == 0,
        final(mesh).indices@.len() == 0,
{
    mesh.vertices.clear();
    mesh.indices.clear();
}

/// Appends a quad: its four vertices, and the indices of its two triangles
/// numbered from the vertex count before the call.
pub fn add_quad(mesh: &mut ChunkMesh, vertices: [GridVertex; 4])
    requires
        old(mesh).vertices@.len() + 3 <= u32::MAX,
    ensures
        final(mesh).vertices@ == old(mesh).vertices@ + vertices@,
        final(mesh).indices@ == old(mesh).indices@ + quad_index_pattern(old(mesh).vertices@.len() as u32),
{
    let start_index = mesh.vertices.len() as u32;
    mesh.vertices.push(vertices[0]);
    mesh.vertices.push(vertices[1]);
    mesh.vertices.push(vertices[2]);
    mesh.vertices.push(vertices[3]);
    mesh.indices.push(start_index);
    mesh.indices.push(start_index + 1);
    mesh.indices.push(start_index + 2);
    mesh.indices.push(start_index);
    mesh.indices.push(start_index + 2);
    mesh.indices.push(start_index + 3);
    proof {
        assert(mesh.vertices@ =~= old(mesh).vertices@ + vertices@);
        assert(mesh.indices@ =~= old(mesh).indices@ + quad_index_pattern(start_index));
    }
}

/// Whether the mesh has no vertex.
pub fn is_empty(mesh: &ChunkMesh) -> (empty: bool)
    ensures
        empty == (mesh.vertices@.len() == 0),
{
    mesh.vertices.len() == 0
}

} // verus!
