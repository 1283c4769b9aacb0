use hearth_engine::indirect_commands::{AppendPlan, IndirectCommandBuffer, DRAW_COMMAND_SIZE, DRAW_INDEXED_COMMAND_SIZE};

#[test]
fn buffer_sizes_follow_command_kind() {
    let plain = IndirectCommandBuffer::new(100, false);
    assert_eq!(plain.buffer_size(), 100 * DRAW_COMMAND_SIZE as u64);
    let indexed = IndirectCommandBuffer::new(100, true);
    assert_eq!(indexed.buffer_size(), 2000);
    assert_eq!(indexed.count(), 0);
    assert_eq!(indexed.capacity(), 100);
    assert_eq!(DRAW_INDEXED_COMMAND_SIZE, 20);
}

#[test]
fn batches_are_appended_until_full() {
    let mut b = IndirectCommandBuffer::new(10, true);
    assert_eq!(b.append_commands_batch(4), Some(AppendPlan { commands_to_add: 4, offset: 0 }));
    assert_eq!(b.append_commands_batch(4), Some(AppendPlan { commands_to_add: 4, offset: 80 }));
    // Only two of five fit: the batch went in partly.
    assert_eq!(b.append_commands_batch(5), Some(AppendPlan { commands_to_add: 2, offset: 160 }));
    assert_eq!(b.count(), 10);
    assert_eq!(b.append_commands_batch(1), None);
    assert_eq!(b.copy_size(), 200);
    b.clear();
    assert_eq!(b.count(), 0);
    assert_eq!(b.copy_size(), 0);
    assert_eq!(b.append_commands_batch(0), None);
}

#[test]
fn update_replaces_the_commands() {
    let mut b = IndirectCommandBuffer::new(8, false);
    b.append_commands_batch(3);
    b.update_commands(5);
    assert_eq!(b.count(), 5);
    assert_eq!(b.copy_size(), 80);
}
