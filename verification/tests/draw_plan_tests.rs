use hearth_engine::gpu_driven_renderer::{plan_mesh_draws, DrawRef, MeshDraw, DEFAULT_INDEX_COUNT};
use std::collections::HashMap;

fn d(mesh_id: u32, flags: u32) -> DrawRef {
    DrawRef { mesh_id, flags }
}

#[test]
fn visible_objects_are_grouped_by_mesh() {
    let meta = vec![d(5, 1), d(2, 1), d(5, 0), d(5, 3), d(9, 2), d(2, 1)];
    let mut counts = HashMap::new();
    counts.insert(5u32, 300u32);
    let plan = plan_mesh_draws(&meta, &counts, 8);
    assert_eq!(plan.instances_per_mesh, vec![(5, vec![0, 3]), (2, vec![1, 5])]);
    assert_eq!(
        plan.draws,
        vec![
            MeshDraw { mesh_id: 5, index_count: 300, instance_count: 2 },
            MeshDraw { mesh_id: 2, index_count: DEFAULT_INDEX_COUNT, instance_count: 2 },
        ]
    );
    assert_eq!(plan.total_draw_calls, 2);
    assert_eq!(plan.total_triangles, 100 * 2 + 12 * 2);
}

#[test]
fn meshes_without_buffer_are_not_drawn() {
    let meta = vec![d(1, 1), d(7, 1), d(1, 1)];
    let plan = plan_mesh_draws(&meta, &HashMap::new(), 4);
    assert_eq!(plan.instances_per_mesh.len(), 2);
    assert_eq!(plan.draws, vec![MeshDraw { mesh_id: 1, index_count: 36, instance_count: 2 }]);
    assert_eq!(plan.total_draw_calls, 1);
    assert_eq!(plan.total_triangles, 24);
}

#[test]
fn nothing_visible_draws_nothing() {
    let meta = vec![d(1, 0), d(2, 4)];
    let plan = plan_mesh_draws(&meta, &HashMap::new(), 4);
    assert!(plan.instances_per_mesh.is_empty());
    assert!(plan.draws.is_empty());
    assert_eq!(plan.total_triangles, 0);
}
