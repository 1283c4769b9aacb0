use hearth_engine::chunk_mesh_state::{ChunkMeshState, NoObjectsAlert, RECOVERY_FRAMES};
use hearth_engine::gpu_meshing::{
    build_mesh_requests, is_mesh_ready, meshing_params, update_mesh_statistics, BufferAllocator, MeshingStats,
    MAX_CONCURRENT_MESHES, MAX_INDICES_PER_CHUNK, MAX_VERTICES_PER_CHUNK,
};
use hearth_engine::world::ChunkPos;

fn pos(x: i32, z: i32) -> ChunkPos {
    ChunkPos { x, y: 0, z }
}

#[test]
fn new_chunks_and_dirty_chunks_need_rebuild() {
    let mut state = ChunkMeshState::new();
    let loaded = vec![pos(0, 0), pos(1, 0), pos(2, 0)];
    assert_eq!(state.chunks_needing_rebuild(&loaded), loaded);
    state.record_mesh(pos(0, 0), 7);
    state.record_mesh(pos(1, 0), 8);
    assert_eq!(state.chunks_needing_rebuild(&loaded), vec![pos(2, 0)]);
    state.mark_dirty(pos(1, 0));
    assert_eq!(state.chunks_needing_rebuild(&loaded), vec![pos(1, 0), pos(2, 0)]);
    assert_eq!(state.buffer_index(pos(1, 0)), Some(8));
    state.record_mesh(pos(1, 0), 9);
    assert_eq!(state.buffer_index(pos(1, 0)), Some(9));
    assert_eq!(state.buffer_index(pos(2, 0)), None);
    assert_eq!(state.chunks_needing_rebuild(&loaded), vec![pos(2, 0)]);
}

#[test]
fn stalled_renderer_rebuilds_every_meshed_chunk() {
    let mut state = ChunkMeshState::new();
    state.record_mesh(pos(0, 0), 1);
    state.record_mesh(pos(0, 1), 2);
    for _ in 0..RECOVERY_FRAMES - 1 {
        state.finish_frame(0);
    }
    assert!(!state.recover_if_stalled());
    state.finish_frame(0);
    assert!(state.recover_if_stalled());
    assert_eq!(state.buffer_index(pos(0, 0)), None);
    let loaded = vec![pos(0, 0), pos(0, 1)];
    assert_eq!(state.chunks_needing_rebuild(&loaded), loaded);
    // Nothing meshed any more: no second recovery.
    assert!(!state.recover_if_stalled());
}

#[test]
fn empty_frames_raise_alerts_at_thresholds() {
    let mut state = ChunkMeshState::new();
    let mut alerts = Vec::new();
    for frame in 1..=1200u32 {
        let alert = state.finish_frame(0);
        if alert != NoObjectsAlert::Quiet {
            alerts.push((frame, alert));
        }
    }
    assert_eq!(
        alerts,
        vec![
            (60, NoObjectsAlert::Warning),
            (300, NoObjectsAlert::Error),
            (600, NoObjectsAlert::StillNothing),
            (1200, NoObjectsAlert::StillNothing),
        ]
    );
    assert_eq!(state.finish_frame(5), NoObjectsAlert::Quiet);
    assert_eq!(state.finish_frame(0), NoObjectsAlert::Quiet);
}

#[test]
fn allocator_hands_out_each_buffer_once() {
    let mut allocator = BufferAllocator::new(2);
    assert_eq!(allocator.allocate(pos(0, 0)), Some(1));
    assert_eq!(allocator.allocate(pos(5, 5)), Some(0));
    assert_eq!(allocator.allocate(pos(0, 0)), Some(1));
    assert_eq!(allocator.allocate(pos(9, 9)), None);
    assert_eq!(allocator.allocated_buffers.len(), 2);
    assert!(allocator.free_buffers.is_empty());
}

#[test]
fn mesh_requests_are_batched() {
    let chunks: Vec<ChunkPos> = (0..300).map(|i| pos(i, -i)).collect();
    let requests = build_mesh_requests(&chunks, 2);
    assert_eq!(requests.len(), MAX_CONCURRENT_MESHES);
    assert_eq!(requests[10].chunk_pos, [10, 0, -10]);
    assert_eq!(requests[10].buffer_index, 10);
    assert_eq!(requests[10].lod_level, 2);
    assert_eq!(build_mesh_requests(&chunks[..3], 0).len(), 3);
    let params = meshing_params(3);
    assert_eq!(params.chunk_size, 32);
    assert_eq!(params.request_count, 3);
    assert_eq!(params.max_vertices as usize, MAX_VERTICES_PER_CHUNK);
    assert_eq!(params.max_indices as usize, MAX_INDICES_PER_CHUNK);
    let mut stats = MeshingStats::default();
    update_mesh_statistics(&mut stats, 4);
    update_mesh_statistics(&mut stats, 3);
    assert_eq!(stats.total_meshes, 7);
    assert!(is_mesh_ready(256, 255));
    assert!(!is_mesh_ready(256, 256));
}
