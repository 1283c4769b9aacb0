use hearth_engine::zero_alloc::ZeroAllocRenderData;

#[test]
fn test_zero_alloc_render_data() {
    let mut render_data = ZeroAllocRenderData::new(8, 100);

    // Add instances for different meshes
    assert!(render_data.add_instance(1, 10).is_ok());
    assert!(render_data.add_instance(1, 11).is_ok());
    assert!(render_data.add_instance(2, 20).is_ok());

    // Check that instances are grouped correctly
    let mesh1_instances = render_data.get_instances(1).expect("mesh1 instances should exist");
    assert_eq!(mesh1_instances, &vec![10, 11]);

    let mesh2_instances = render_data.get_instances(2).expect("mesh2 instances should exist");
    assert_eq!(mesh2_instances, &vec![20]);

    // Clear and verify empty
    render_data.clear_for_frame();
    assert!(render_data.get_instances(1).is_none());
    assert!(render_data.get_instances(2).is_none());
}

#[test]
fn test_mesh_type_limit() {
    let mut render_data = ZeroAllocRenderData::new(2, 100);

    // Fill up to limit
    assert!(render_data.add_instance(1, 10).is_ok());
    assert!(render_data.add_instance(2, 20).is_ok());

    // Exceed limit
    assert!(render_data.add_instance(3, 30).is_err());
}

#[test]
fn zero_alloc_groups_listed_once_each() {
    let mut render_data = ZeroAllocRenderData::new(4, 8);
    render_data.add_instance(7, 1).unwrap();
    render_data.add_instance(9, 2).unwrap();
    render_data.add_instance(7, 3).unwrap();
    let mut groups: Vec<(u32, Vec<u32>)> = render_data
        .iter_mesh_groups()
        .into_iter()
        .map(|(id, v)| (id, v.clone()))
        .collect();
    groups.sort();
    assert_eq!(groups, vec![(7, vec![1, 3]), (9, vec![2])]);
}

#[test]
fn zero_alloc_refused_id_leaves_groups_unchanged() {
    let mut render_data = ZeroAllocRenderData::new(1, 8);
    render_data.add_instance(5, 50).unwrap();
    assert!(render_data.add_instance(6, 60).is_err());
    assert!(render_data.get_instances(6).is_none());
    // an existing id is still accepted at capacity
    assert!(render_data.add_instance(5, 51).is_ok());
    assert_eq!(render_data.get_instances(5).unwrap(), &vec![50, 51]);
}

#[test]
fn zero_alloc_groups_are_non_empty_and_within_capacity() {
    let mut d = ZeroAllocRenderData::new(2, 4);
    d.add_instance(7, 1).unwrap();
    d.add_instance(9, 2).unwrap();
    d.add_instance(7, 3).unwrap();
    assert!(d.add_instance(11, 4).is_err());
    let groups = d.iter_mesh_groups();
    assert!(groups.len() <= 2);
    assert!(groups.iter().all(|(_, v)| !v.is_empty()));
    d.clear_for_frame();
    assert!(d.iter_mesh_groups().is_empty());
}
