use hearth_engine::chunk_mesh_adapter::{
    build_chunk_mesh_with_neighbors, mesh_buffer_to_chunk_mesh, should_render_face, NeighborData,
};
use hearth_engine::mesh::chunk_mesh_ops;
use hearth_engine::chunk_rendering::{
    build_chunk_mesh_data, build_chunk_mesh_data_from_blocks, calculate_face_ao, calculate_face_light,
    calculate_face_light_from_blocks, collect_chunk_faces, collect_chunk_faces_from_blocks,
    should_render_face_from_blocks, NeighborBlock,
};
use hearth_engine::data_mesh_builder::operations::{add_quad, build_chunk_mesh};
use hearth_engine::data_mesh_builder::{BlockFace, MeshBuffer, MeshBufferPool, MAX_INDICES, MAX_VERTICES, MESH_POOL_SIZE};
use hearth_engine::mesher::{ChunkMesher, Face};
use hearth_engine::world::{BlockId, Chunk, ChunkPos, AIR};

#[test]
fn add_quad_writes_four_vertices_and_two_triangles() {
    let mut b = MeshBuffer::new();
    assert!(add_quad(&mut b, BlockFace::Top, 1, 2, 3, 7, 15, [255, 200, 150, 100]).is_ok());
    assert!(add_quad(&mut b, BlockFace::West, 0, 0, 0, 7, 8, [255; 4]).is_ok());
    assert_eq!(b.vertex_count, 8);
    assert_eq!(b.index_count, 12);
    assert_eq!(b.vertices[0].position, [1, 3, 3]);
    assert_eq!(b.vertices[2].position, [2, 3, 4]);
    assert_eq!(b.vertices[1].ao, 200);
    assert_eq!(b.vertices[3].tex_coords, [0, 1]);
    assert_eq!(b.vertices[0].normal, [0, 1, 0]);
    assert_eq!(b.vertices[4].normal, [-1, 0, 0]);
    assert_eq!(b.vertices[4].position, [0, 0, 1]);
    assert_eq!(&b.indices[..12], &[0, 1, 2, 0, 2, 3, 4, 5, 6, 4, 6, 7]);
}

#[test]
fn add_quad_refuses_when_full() {
    let mut b = MeshBuffer::new();
    b.vertex_count = MAX_VERTICES - 3;
    assert_eq!(add_quad(&mut b, BlockFace::Top, 0, 0, 0, 1, 15, [255; 4]), Err("Mesh buffer full"));
    assert_eq!(b.vertex_count, MAX_VERTICES - 3);
    b.vertex_count = 0;
    b.index_count = MAX_INDICES - 6;
    assert!(add_quad(&mut b, BlockFace::Top, 0, 0, 0, 1, 15, [255; 4]).is_ok());
    assert!(add_quad(&mut b, BlockFace::Top, 0, 0, 0, 1, 15, [255; 4]).is_err());
}

#[test]
fn top_bottom_mesh_of_a_column() {
    // A two-block column at (0, 0..2, 0) in a chunk of size 2.
    let mut b = MeshBuffer::new();
    build_chunk_mesh(&mut b, ChunkPos { x: 1, y: -2, z: 3 }, 2, |x: u32, _y: u32, z: u32| if x == 0 && z == 0 { 5 } else { AIR });
    assert_eq!(b.metadata.chunk_pos, [1, -2, 3]);
    // Bottom face of the lower block, top face of the upper block.
    assert_eq!(b.vertex_count, 8);
    assert_eq!(b.metadata.vertex_count, 8);
    assert_eq!(b.metadata.index_count, 12);
    assert_eq!(b.vertices[0].normal, [0, -1, 0]);
    assert_eq!(b.vertices[4].normal, [0, 1, 0]);
}

#[test]
fn chunk_faces_of_a_single_block() {
    let get = |x: u32, y: u32, z: u32| if (x, y, z) == (0, 0, 0) { 3 } else { AIR };
    let world = |_x: i32, _y: i32, _z: i32| AIR;
    let faces = collect_chunk_faces(2, &get, &world);
    let kinds: Vec<BlockFace> = faces.iter().map(|q| q.face).collect();
    assert_eq!(
        kinds,
        vec![BlockFace::Top, BlockFace::Bottom, BlockFace::North, BlockFace::South, BlockFace::East, BlockFace::West]
    );
    assert!(faces.iter().all(|q| q.light == 15 && q.ao == [255; 4] && q.block == 3));
    let mut b = MeshBuffer::new();
    assert!(build_chunk_mesh_data(&mut b, ChunkPos { x: 0, y: 0, z: 0 }, 2, get, world).is_ok());
    assert_eq!(b.vertex_count, 24);
    assert_eq!(b.metadata.index_count, 36);
}

#[test]
fn faces_between_solid_blocks_are_hidden() {
    let get = |_x: u32, _y: u32, _z: u32| 1;
    let world = |_x: i32, y: i32, _z: i32| if y >= 0 { 1 } else { AIR };
    let faces = collect_chunk_faces(2, &get, &world);
    // Only the faces towards y < 0 are open: four bottom faces.
    assert_eq!(faces.len(), 4);
    assert!(faces.iter().all(|q| q.face == BlockFace::Bottom && q.y == 0 && q.light == 8));
}

#[test]
fn face_light_looks_up_to_the_sky() {
    let open = |_x: i32, _y: i32, _z: i32| AIR;
    assert_eq!(calculate_face_light(0, 40, 0, 16, &open), 15);
    let roof = |_x: i32, y: i32, _z: i32| if y == 50 { 2 } else { AIR };
    assert_eq!(calculate_face_light(0, 10, 0, 16, &roof), 8);
    assert_eq!(calculate_face_light(0, 16, 0, 16, &roof), 15);
    assert_eq!(calculate_face_light(0, 50, 0, 64, &roof), 15);
    assert_eq!(calculate_face_ao(0, 0, 0, BlockFace::Top, 16), [255; 4]);
}

#[test]
fn full_buffer_fails_chunk_mesh_data() {
    let mut b = MeshBuffer::new();
    b.vertex_count = MAX_VERTICES - 8;
    let get = |x: u32, y: u32, z: u32| if (x, y, z) == (0, 0, 0) { 3 } else { AIR };
    let world = |_x: i32, _y: i32, _z: i32| AIR;
    assert_eq!(build_chunk_mesh_data(&mut b, ChunkPos { x: 4, y: 5, z: 6 }, 2, get, world), Err("Mesh buffer full"));
    assert_eq!(b.vertex_count, MAX_VERTICES);
    assert_eq!(b.metadata.chunk_pos, [4, 5, 6]);
    assert_eq!(b.metadata.vertex_count, 0);
}

#[test]
fn neighbor_culling_at_chunk_borders() {
    let mut chunk = Chunk::new(2);
    chunk.set_block(1, 0, 0, 4);
    let mut east = Chunk::new(2);
    east.set_block(0, 0, 0, 9);
    // Towards +x the neighbour's first layer is solid.
    assert!(!should_render_face(&chunk, Some(&east), 1, 0, 0, 1, 0, 0, 2));
    assert!(should_render_face(&chunk, None, 1, 0, 0, 1, 0, 0, 2));
    // Towards -x the block inside the chunk is air.
    assert!(should_render_face(&chunk, None, 1, 0, 0, -1, 0, 0, 2));
    chunk.set_block(0, 0, 0, 4);
    assert!(!should_render_face(&chunk, None, 1, 0, 0, -1, 0, 0, 2));
    let n = NeighborData { north: None, south: None, east: Some(&east), west: None, up: None, down: None };
    let mut b = MeshBuffer::new();
    build_chunk_mesh_with_neighbors(&mut b, &chunk, ChunkPos { x: 0, y: 0, z: 0 }, &n, |_x: u32, _y: u32, _z: u32| 12);
    // Two blocks: 6 faces each, minus the shared pair, minus the east face covered by the neighbour.
    assert_eq!(b.vertex_count, 9 * 4);
    assert!(b.vertices[..b.vertex_count].iter().all(|v| v.light == 12));
}

#[test]
fn mesher_face_visibility() {
    let mut chunk = Chunk::new(3);
    chunk.set_block(1, 1, 1, 2);
    chunk.set_block(2, 1, 1, 2);
    assert!(ChunkMesher::is_face_visible(&chunk, 3, 1, 1, 3));
    assert!(!ChunkMesher::is_face_visible(&chunk, 2, 1, 1, 3));
    assert!(ChunkMesher::is_face_visible(&chunk, 0, 1, 1, 3));
    let faces = ChunkMesher::visible_faces(&chunk, 1, 1, 1);
    assert_eq!(faces, vec![Face::Left, Face::Top, Face::Bottom, Face::Front, Face::Back]);
    let _ = ChunkMesher::new();
}

#[test]
fn buffer_pool_hands_out_and_takes_back() {
    let mut pool = MeshBufferPool::new();
    let mut b = pool.acquire();
    assert_eq!(b.vertex_count, 0);
    assert!(add_quad(&mut b, BlockFace::Top, 0, 0, 0, 1, 15, [255; 4]).is_ok());
    pool.release(b);
    let again = pool.acquire();
    assert_eq!(again.vertex_count, 0);
    assert_eq!(again.index_count, 0);
    assert_eq!(MESH_POOL_SIZE, 128);
}

#[test]
fn test_mesh_buffer_conversion() {
    let mut pool = MeshBufferPool::new();
    let mut buffer = pool.acquire();
    // Any solid block: the conversion does not depend on it.
    let grass: BlockId = 1;

    // Add a simple quad
    let _ = add_quad(&mut buffer, BlockFace::Top, 0, 0, 0, grass, 15, [255; 4]);

    let mesh = mesh_buffer_to_chunk_mesh(&buffer);
    assert_eq!(mesh.vertices.len(), 4);
    assert_eq!(mesh.indices.len(), 6);

    pool.release(buffer);
}

#[test]
fn chunk_mesh_quads_share_vertices_by_index() {
    let mut pool = MeshBufferPool::new();
    let mut buffer = pool.acquire();
    let _ = add_quad(&mut buffer, BlockFace::Top, 0, 0, 0, 1, 15, [255; 4]);
    let converted = mesh_buffer_to_chunk_mesh(&buffer);
    let mut mesh = chunk_mesh_ops::create_empty();
    assert!(chunk_mesh_ops::is_empty(&mesh));
    let quad = [converted.vertices[0], converted.vertices[1], converted.vertices[2], converted.vertices[3]];
    chunk_mesh_ops::add_quad(&mut mesh, quad);
    chunk_mesh_ops::add_quad(&mut mesh, quad);
    assert_eq!(mesh.vertices.len(), 8);
    assert_eq!(mesh.indices, vec![0, 1, 2, 0, 2, 3, 4, 5, 6, 4, 6, 7]);
    assert_eq!(&mesh.indices[..6], &converted.indices[..]);
    chunk_mesh_ops::clear(&mut mesh);
    assert!(chunk_mesh_ops::is_empty(&mesh));
    assert!(mesh.indices.is_empty());
}

#[test]
fn solid_two_cube_from_blocks_shows_its_outer_faces() {
    let mut chunk = Chunk::new(2);
    for x in 0..2 {
        for y in 0..2 {
            for z in 0..2 {
                chunk.set_block(x, y, z, 1);
            }
        }
    }
    let mut b = MeshBuffer::new();
    let r = build_chunk_mesh_data_from_blocks(&mut b, ChunkPos { x: 0, y: 0, z: 0 }, &chunk, &[]);
    assert_eq!(r, Ok(()));
    assert_eq!(b.vertex_count, 96);
    assert_eq!(b.index_count, 144);
    assert_eq!(b.metadata.vertex_count, 96);
    assert_eq!(b.metadata.index_count, 144);
    assert_eq!(b.metadata.chunk_pos, [0, 0, 0]);
}

#[test]
fn from_blocks_matches_the_closure_form() {
    let mut chunk = Chunk::new(2);
    chunk.set_block(1, 0, 0, 4);
    chunk.set_block(0, 1, 1, 7);
    let neighbors = [NeighborBlock { x: 2, y: 0, z: 0, block: 9 }, NeighborBlock { x: 2, y: 0, z: 0, block: AIR }];
    let get = |x: u32, y: u32, z: u32| chunk.get_block(x, y, z);
    let world = |x: i32, y: i32, z: i32| if (x, y, z) == (2, 0, 0) { 9 } else { AIR };
    let a = collect_chunk_faces(2, &get, &world);
    let d = collect_chunk_faces_from_blocks(&chunk, &neighbors);
    assert_eq!(a, d);
    // Two separate blocks, one of them covered towards +x by the neighbour.
    assert_eq!(d.len(), 11);
}

#[test]
fn full_buffer_fails_from_blocks_without_a_partial_quad() {
    let mut chunk = Chunk::new(1);
    chunk.set_block(0, 0, 0, 1);
    let mut b = MeshBuffer::new();
    b.vertex_count = MAX_VERTICES - 2;
    let r = build_chunk_mesh_data_from_blocks(&mut b, ChunkPos { x: 1, y: 2, z: 3 }, &chunk, &[]);
    assert_eq!(r, Err("Mesh buffer full"));
    assert_eq!(b.vertex_count, MAX_VERTICES - 2);
    assert_eq!(b.index_count, 0);
    assert_eq!(b.metadata.chunk_pos, [1, 2, 3]);
}

#[test]
fn face_visibility_and_light_from_blocks() {
    let mut chunk = Chunk::new(2);
    chunk.set_block(0, 0, 0, 1);
    chunk.set_block(1, 0, 0, 1);
    let around = [NeighborBlock { x: -1, y: 0, z: 0, block: 6 }, NeighborBlock { x: 0, y: 10, z: 0, block: 2 }];
    // Inside the chunk: solid neighbour hides, air shows.
    assert!(!should_render_face_from_blocks(1, 0, 0, &chunk, &around));
    assert!(should_render_face_from_blocks(0, 1, 0, &chunk, &around));
    // Outside: the listed block hides, anything unlisted is air.
    assert!(!should_render_face_from_blocks(-1, 0, 0, &chunk, &around));
    assert!(should_render_face_from_blocks(2, 0, 0, &chunk, &around));
    // Above the chunk is lit; below a block up the column is dimmer.
    assert_eq!(calculate_face_light_from_blocks(0, 2, 0, &chunk, &around), 15);
    assert_eq!(calculate_face_light_from_blocks(0, 1, 0, &chunk, &around), 8);
    assert_eq!(calculate_face_light_from_blocks(1, 1, 0, &chunk, &around), 15);
}
