use hearth_engine::allocation_optimizations::AllocationError;
use hearth_engine::error::{buffer_mapping_error, gpu_operation_error, pipeline_creation_error, EngineError};
use hearth_engine::gpu_driven_renderer::chunk_pos_to_hash;
use hearth_engine::gpu_meshing::{FaceDirection, MeshingStats};
use hearth_engine::indirect_renderer::create_cube_indices;
use hearth_engine::mesh_simplifier::order_edge;
use hearth_engine::mesh_soa::{memory_stats, VertexBufferStats};
use hearth_engine::simple_async_renderer::SimpleAsyncRenderer;
use hearth_engine::text::{push_decimal, push_hex4, str_contains};
use hearth_engine::world::ChunkPos;
use std::sync::Arc;

#[test]
fn substring_search() {
    assert!(str_contains("nvidia geforce rtx 4090", "rtx 40"));
    assert!(str_contains("abc", ""));
    assert!(!str_contains("rtx", "rtx 40"));
    assert!(!str_contains("radeon", "rx "));
    assert!(str_contains("äbc", "bc"));
}

#[test]
fn number_formatting() {
    let mut s = String::from("n=");
    push_decimal(&mut s, 0);
    s.push(',');
    push_decimal(&mut s, 18446744073709551615);
    assert_eq!(s, "n=0,18446744073709551615");
    let mut h = String::new();
    push_hex4(&mut h, 0xabc);
    assert_eq!(h, "0abc");
}

#[test]
fn cube_indices() {
    let i = create_cube_indices();
    assert_eq!(i.len(), 36);
    assert_eq!(&i[..6], &[0, 1, 2, 0, 2, 3]);
    assert_eq!(&i[30..], &[20, 21, 22, 20, 22, 23]);
}

#[test]
fn chunk_hash() {
    assert_eq!(chunk_pos_to_hash(ChunkPos { x: 1, y: 2, z: 3 }), (1u64 << 42) | (2u64 << 21) | 3);
    assert_eq!(chunk_pos_to_hash(ChunkPos { x: 0, y: 0, z: -1 }), u64::MAX);
}

#[test]
fn edges_are_ordered() {
    assert_eq!(order_edge(5, 2), (2, 5));
    assert_eq!(order_edge(2, 5), (2, 5));
    assert_eq!(order_edge(3, 3), (3, 3));
}

#[test]
fn mesh_memory_stats() {
    let s = memory_stats(VertexBufferStats { vertex_count: 400, total_size: 1000 }, 600);
    assert_eq!(s.vertex_stats.vertex_count, 400);
    assert_eq!(s.index_count, 600);
    assert_eq!(s.index_size, 2400);
    assert_eq!(s.total_size, 3400);
}

#[test]
fn face_direction_indices_and_stats() {
    assert_eq!(FaceDirection::PosX.index(), 0);
    assert_eq!(FaceDirection::NegZ.index(), 5);
    let s = MeshingStats::default();
    assert_eq!(s.total_meshes, 0);
}

#[test]
fn async_renderer_mesh_counts() {
    let mut r = SimpleAsyncRenderer::new(Arc::new(()), 32, None);
    assert_eq!(r.mesh_count(), 0);
    r.queue_dirty_chunks(&(), &());
    assert_eq!(r.mesh_count(), 5);
    r.cleanup_unloaded_chunks(&());
    assert_eq!(r.mesh_count(), 0);
}

#[test]
fn error_messages() {
    assert_eq!(
        AllocationError::InvalidState("x".to_string()).message(),
        "Pooled object is in invalid state: x"
    );
    assert_eq!(
        AllocationError::InitializationFailed("y".to_string()).message(),
        "Buffer initialization failed: y"
    );
    assert!(matches!(
        gpu_operation_error("map", "lost"),
        EngineError::GpuOperationFailed { operation, error } if operation == "map" && error == "lost"
    ));
    assert!(matches!(
        buffer_mapping_error("vertices"),
        EngineError::Internal { message } if message == "Failed to map GPU buffer: vertices"
    ));
    assert!(matches!(
        pipeline_creation_error("terrain", 5),
        EngineError::Internal { message } if message == "Failed to create pipeline 'terrain': 5"
    ));
}
