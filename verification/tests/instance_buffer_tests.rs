use hearth_engine::instance_buffer::InstanceBuffer;

/// Position, scale and colour of an instance, as the GPU takes it.
#[derive(Debug, Clone, Copy, PartialEq)]
struct Instance {
    position: [f32; 3],
    scale: f32,
    color: [f32; 4],
}

fn instance(x: f32, y: f32, z: f32, color: [f32; 4]) -> Instance {
    Instance { position: [x, y, z], scale: 1.0, color }
}

#[test]
fn test_clear_all_method() {
    let mut instances: InstanceBuffer<Instance> = InstanceBuffer::new(16);

    // Add some instances
    instances.add_instance(instance(1.0, 0.0, 0.0, [1.0, 0.0, 0.0, 1.0]));
    instances.add_instance(instance(0.0, 1.0, 0.0, [0.0, 1.0, 0.0, 1.0]));

    assert_eq!(instances.count(), 2);
    assert_eq!(instances.instances().len(), 2);

    // Clear
    instances.clear();

    assert_eq!(instances.count(), 0);
    assert_eq!(instances.instances().len(), 0);
}

#[test]
fn full_buffer_rejects_instances() {
    let mut b: InstanceBuffer<u32> = InstanceBuffer::new(2);
    assert_eq!(b.add_instance(10), Some(0));
    assert_eq!(b.add_instance(11), Some(1));
    assert_eq!(b.add_instance(12), None);
    assert_eq!(b.add_instances_batch(&[1, 2]), vec![None, None]);
    assert_eq!(b.count(), 2);
}

#[test]
fn removal_swaps_in_the_last_instance() {
    let mut b: InstanceBuffer<u32> = InstanceBuffer::new(8);
    b.add_instances_batch(&[10, 11, 12]);
    assert_eq!(b.remove_instance(0), Some(2));
    assert_eq!(b.count(), 2);
    assert_eq!(&b.instances()[..2], &[12, 11]);
    assert_eq!(b.remove_instance(1), None);
    assert_eq!(b.count(), 1);
    assert_eq!(b.remove_instance(5), None);
}

#[test]
fn upload_happens_once_per_change() {
    let mut b: InstanceBuffer<u32> = InstanceBuffer::new(8);
    assert_eq!(b.take_upload(), None);
    b.add_instance(1);
    b.add_instance(2);
    assert_eq!(b.take_upload(), Some(2));
    assert_eq!(b.take_upload(), None);
    b.update_instance(1, 7);
    assert_eq!(b.instances()[1], 7);
    assert_eq!(b.take_upload(), Some(2));
    b.update_instance(5, 9);
    assert_eq!(b.take_upload(), None);
}
