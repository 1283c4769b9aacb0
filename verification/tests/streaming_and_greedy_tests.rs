use hearth_engine::error::RendererErrorContext;
use hearth_engine::greedy_mesher::{FaceDirection, GreedyMesher};
use hearth_engine::optimized_greedy_mesher::OptimizedGreedyMesher;
use hearth_engine::instance_streamer::{coalesce_ranges, DirtyRange, StreamingSchedule};
use hearth_engine::world::Chunk;

fn r(offset: usize, size: usize) -> DirtyRange {
    DirtyRange { offset, size }
}

#[test]
fn ranges_merge_when_touching_or_overlapping() {
    assert_eq!(coalesce_ranges(vec![]), vec![]);
    assert_eq!(coalesce_ranges(vec![r(10, 5), r(0, 10), r(30, 2)]), vec![r(0, 15), r(30, 2)]);
    assert_eq!(coalesce_ranges(vec![r(0, 100), r(10, 5)]), vec![r(0, 100)]);
    assert_eq!(coalesce_ranges(vec![r(0, 4), r(5, 4)]), vec![r(0, 4), r(5, 4)]);
}

#[test]
fn empty_ranges_merge_only_where_they_touch() {
    assert_eq!(coalesce_ranges(vec![r(5, 0), r(0, 0)]), vec![r(0, 0), r(5, 0)]);
    assert_eq!(coalesce_ranges(vec![r(0, 5), r(5, 0), r(9, 0)]), vec![r(0, 5), r(9, 0)]);
    assert_eq!(coalesce_ranges(vec![r(3, 0), r(3, 0)]), vec![r(3, 0)]);
    assert_eq!(coalesce_ranges(vec![r(2, 0), r(0, 4)]), vec![r(0, 4)]);
}

#[test]
fn schedule_cycles_three_buffers() {
    let mut s = StreamingSchedule::new(10, 16);
    assert_eq!(s.staging_size(), 160);
    assert_eq!(s.update_instance(2), Some(r(32, 16)));
    assert_eq!(s.update_instance(10), None);
    assert_eq!(s.update_instances(8, 5), Some(r(128, 32)));
    // Rendering reads the buffer written two frames ago.
    assert_eq!(s.current_buffer_index(), 2);
    let (slot, ranges) = s.flush().unwrap();
    assert_eq!(slot, 0);
    assert_eq!(ranges, vec![r(32, 16), r(128, 32)]);
    assert_eq!(s.current_buffer_index(), 0);
    assert!(s.flush().is_none());
    assert_eq!(s.current_buffer_index(), 0);
    s.update_instance(0);
    assert_eq!(s.flush().unwrap().0, 1);
    s.update_instance(0);
    assert_eq!(s.flush().unwrap().0, 2);
    assert_eq!(s.current_buffer_index(), 2);
}

#[test]
fn greedy_merges_a_flat_layer() {
    let mut chunk = Chunk::new(4);
    for x in 0..4 {
        for z in 0..4 {
            chunk.set_block(x, 0, z, 7);
        }
    }
    let mut mesher = GreedyMesher::new();
    let (quads, stats) = mesher.mesh_chunk(&chunk);
    let up: Vec<_> = quads.iter().filter(|q| q.face_direction == FaceDirection::Up).collect();
    assert_eq!(up.len(), 1);
    assert_eq!((up[0].min_x, up[0].min_y, up[0].max_x, up[0].max_y), (0, 0, 4, 4));
    assert_eq!(up[0].block_id, 7);
    assert_eq!(stats.optimized_quads, quads.len());
    assert_eq!(stats.original_quads, quads.len() * 4);
    assert_eq!(FaceDirection::Up.offset(), [0, 1, 0]);
}

#[test]
fn renderer_context_wraps_errors() {
    let ok: Result<u8, String> = Ok(3);
    assert!(matches!(ok.renderer_context("upload"), Ok(3)));
    let err: Result<u8, String> = Err("boom".to_string());
    match err.renderer_context("upload") {
        Err(hearth_engine::error::EngineError::SystemError { component, error }) => {
            assert_eq!(component, "renderer");
            assert_eq!(error, "upload: boom");
        },
        _ => panic!("expected a renderer error"),
    }
}

#[test]
fn optimized_mesher_grows_rectangles_along_u_first() {
    // 3x3 mask, cell (u, v) at u * 3 + v.
    let a = Some(1u16);
    let b = Some(2u16);
    let mask = vec![
        a, a, None, // u = 0
        a, a, b, // u = 1
        a, None, b, // u = 2
    ];
    let m = OptimizedGreedyMesher::new(3);
    let mut used = vec![true; 9];
    let mut quads = Vec::new();
    m.extract_rectangles_buffered(&mask, &mut used, 1, FaceDirection::Up, &mut quads);
    let spans: Vec<(u32, u32, u32, u32, u16)> =
        quads.iter().map(|q| (q.min_x, q.max_x, q.min_y, q.max_y, q.block_id)).collect();
    // From (0,0): along u three cells of block 1, then v = 1 fails at u = 2.
    // Then (0,1) grows over u = 0..2; then block 2 over u = 1..3 at v = 2.
    assert_eq!(spans, vec![(0, 1, 0, 3, 1), (1, 2, 0, 2, 1), (2, 3, 1, 3, 2)]);
    assert!(quads.iter().all(|q| q.face_direction == FaceDirection::Up));
    let covered: usize = spans.iter().map(|s| ((s.1 - s.0) * (s.3 - s.2)) as usize).sum();
    assert_eq!(covered, mask.iter().filter(|c| c.is_some()).count());
    // A cell is marked used exactly when the mask holds a block there.
    for k in 0..9 {
        assert_eq!(used[k], mask[k].is_some());
    }
    // Appending keeps what was there.
    let before = quads.len();
    m.extract_rectangles_buffered(&vec![None; 9], &mut used, 0, FaceDirection::Down, &mut quads);
    assert_eq!(quads.len(), before);
}

#[test]
fn optimized_mesher_merges_each_outer_side_of_a_solid_cube() {
    let mut chunk = Chunk::new(2);
    for x in 0..2 {
        for y in 0..2 {
            for z in 0..2 {
                chunk.set_block(x, y, z, 5);
            }
        }
    }
    let m = OptimizedGreedyMesher::new(2);
    let mut mask = vec![None; 4];
    let mut used = vec![false; 4];
    let mut quads = Vec::new();
    m.extract_quads_buffered(&chunk, &mut mask, &mut used, &mut quads);
    assert_eq!(quads.len(), 6);
    for q in &quads {
        assert_eq!((q.max_x - q.min_x, q.max_y - q.min_y, q.block_id), (2, 2, 5));
    }
    let order: Vec<FaceDirection> = quads.iter().map(|q| q.face_direction).collect();
    assert_eq!(
        order,
        vec![
            FaceDirection::East,
            FaceDirection::West,
            FaceDirection::Up,
            FaceDirection::Down,
            FaceDirection::South,
            FaceDirection::North
        ]
    );
}

#[test]
fn optimized_mesher_single_block_faces() {
    let mut chunk = Chunk::new(2);
    chunk.set_block(1, 0, 0, 3);
    let m = OptimizedGreedyMesher::new(2);
    let mut mask = vec![None; 4];
    let mut used = vec![false; 4];
    let mut quads = Vec::new();
    m.extract_quads_for_face_buffered(&chunk, FaceDirection::West, &mut mask, &mut used, &mut quads);
    // The -X face of the block at x = 1 looks at air at x = 0.
    assert_eq!(quads.len(), 1);
    assert_eq!((quads[0].max_x - quads[0].min_x, quads[0].max_y - quads[0].min_y), (1, 1));
    assert_eq!(quads[0].block_id, 3);
    m.extract_quads_buffered(&chunk, &mut mask, &mut used, &mut quads);
    assert_eq!(quads.len(), 7);
}

#[test]
fn greedy_grows_the_first_row_then_stops_at_a_short_row() {
    let mut chunk = Chunk::new(4);
    for x in 0..3 {
        chunk.set_block(x, 0, 0, 7);
    }
    chunk.set_block(0, 0, 1, 7);
    let mut mesher = GreedyMesher::new();
    let (quads, _) = mesher.mesh_chunk(&chunk);
    let up: Vec<_> = quads
        .iter()
        .filter(|q| q.face_direction == FaceDirection::Up)
        .map(|q| (q.min_x, q.min_y, q.max_x, q.max_y))
        .collect();
    // The row at z = 0 is taken whole; the row at z = 1 is too short to join it.
    assert_eq!(up, vec![(0, 0, 3, 1), (0, 1, 1, 2)]);
}
