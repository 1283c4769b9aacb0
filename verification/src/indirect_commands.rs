//! Bookkeeping of an indirect draw command buffer: how many commands it holds,
//! where a batch is written in the staging buffer and how much is copied to
//! the GPU.
use vstd::prelude::*;

verus! {

/// Bytes of a non-indexed indirect draw command (four `u32`).
pub const DRAW_COMMAND_SIZE: u32 = 16;

/// Bytes of an indexed indirect draw command (five 32-bit fields).
pub const DRAW_INDEXED_COMMAND_SIZE: u32 = 20;

/// Where and how many commands of a batch are written.
#[derive(Debug, Clone, Copy, PartialEq, Eq, Structural)]
pub struct AppendPlan {
    /// Commands of the batch that fit.
    pub commands_to_add: u32,
    /// Byte offset in the staging buffer where they go.
    pub offset: u64,
}

/// Capacity, active count and command size of an indirect command buffer.
pub struct IndirectCommandBuffer {
    capacity: u32,
    count: u32,
    command_size: u32,
}

impl IndirectCommandBuffer {
    pub closed spec fn spec_capacity(&self) -> u32 {
        self.capacity
    }

    pub closed spec fn spec_count(&self) -> u32 {
        self.count
    }

    pub closed spec fn spec_command_size(&self) -> u32 {
        self.command_size
    }

    /// The active commands never exceed the capacity, and the buffer's bytes fit
    /// in a `u32` as its size is computed.
    pub closed spec fn wf(&self) -> bool {
        &&& self.count <= self.capacity
        &&& self.command_size * self.capacity <= u32::MAX
    }

    /// An empty buffer for `capacity` commands, indexed or not; the GPU buffer
    /// takes `buffer_size()` bytes.
    pub fn new(capacity: u32, indexed: bool) -> (b: Self)
        requires
            (if indexed {
                DRAW_INDEXED_COMMAND_SIZE
            } else {
                DRAW_COMMAND_SIZE
            }) * capacity <= u32::MAX,
        ensures
            b.wf(),
            b.spec_capacity() == capacity,
            b.spec_count() == 0,
            b.spec_command_size() == if indexed {
                DRAW_INDEXED_COMMAND_SIZE
            } else {
                DRAW_COMMAND_SIZE
            },
    {
        let command_size = if indexed {
            DRAW_INDEXED_COMMAND_SIZE
        } else {
            DRAW_COMMAND_SIZE
        };
        IndirectCommandBuffer { capacity, count: 0, command_size }
    }

    /// Bytes of the GPU and staging buffers.
    pub fn buffer_size(&self) -> (size: u64)
        requires
            self.wf(),
        ensures
            size == self.spec_command_size() * self.spec_capacity(),
    {
        (self.command_size * self.capacity) as u64
    }

    /// Replaces the commands by `command_count` new ones, written from offset 0.
    pub fn update_commands(&mut self, command_count: usize)
        requires
            old(self).wf(),
            command_count <= old(self).spec_capacity(),
        ensures
            final(self).wf(),
            final(self).spec_count() == command_count,
            final(self).spec_capacity() == old(self).spec_capacity(),
            final(self).spec_command_size() == old(self).spec_command_size(),
    {
        self.count = command_count as u32;
    }

    /// Appends a batch of `batch_len` commands: as many as there is room for,
    /// written after the active ones. `None` when none fits (an empty batch
    /// included); otherwise where they go, and the count grows by them. The
    /// whole batch went in when `commands_to_add == batch_len`.
    pub fn append_commands_batch(&mut self, batch_len: usize) -> (plan: Option<AppendPlan>)
        requires
            old(self).wf(),
        ensures
            final(self).wf(),
            final(self).spec_capacity() == old(self).spec_capacity(),
            final(self).spec_command_size() == old(self).spec_command_size(),
            ({
                let room = (old(self).spec_capacity() - old(self).spec_count()) as u32;
                let fits = if (batch_len as u32) < room {
                    batch_len as u32
                } else {
                    room
                };
                &&& fits == 0 ==> plan is None && final(self).spec_count() == old(self).spec_count()
                &&& fits > 0 ==> plan == Some(
                    AppendPlan {
                        commands_to_add: fits,
                        offset: (old(self).spec_count() * old(self).spec_command_size()) as u64,
                    },
                ) && final(self).spec_count() == old(self).spec_count() + fits
            }),
    {
        let available_space = self.capacity - self.count;
        let len = batch_len as u32;
        let commands_to_add = if len < available_space {
            len
        } else {
            available_space
        };
        if commands_to_add == 0 {
            return None;
        }
        proof {
            assert(self.count * self.command_size <= self.command_size * self.capacity) by (nonlinear_arith)
                requires
                    self.count <= self.capacity,
            ;
        }
        let offset = (self.count * self.command_size) as u64;
        self.count = self.count + commands_to_add;
        Some(AppendPlan { commands_to_add, offset })
    }

    /// Forgets every command.
    pub fn clear(&mut self)
        requires
            old(self).wf(),
        ensures
            final(self).wf(),
            final(self).spec_count() == 0,
            final(self).spec_capacity() == old(self).spec_capacity(),
            final(self).spec_command_size() == old(self).spec_command_size(),
    {
        self.count = 0;
    }

    /// Bytes to copy from the staging buffer to the GPU buffer; none when empty.
    pub fn copy_size(&self) -> (bytes: u64)
        requires
            self.wf(),
        ensures
            bytes == self.spec_command_size() * self.spec_count(),
    {
        proof {
            assert(self.command_size * self.count <= self.command_size * self.capacity) by (nonlinear_arith)
                requires
                    self.count <= self.capacity,
            ;
        }
        (self.command_size * self.count) as u64
    }

    /// The most commands the buffer holds.
    pub fn capacity(&self) -> (c: u32)
        ensures
            c == self.spec_capacity(),
    {
        self.capacity
    }

    /// The number of active commands.
    pub fn count(&self) -> (n: u32)
        ensures
            n == self.spec_count(),
    {
        self.count
    }
}

/// Appending never overfills the buffer: after any batch the active commands
/// are at most the capacity, and a batch that did not fully fit left the buffer
/// full.
pub proof fn lemma_append_stays_within_capacity(capacity: u32, count: u32, batch_len: usize, added: u32)
    requires
        count <= capacity,
        added == if (batch_len as u32) < capacity - count {
            batch_len as u32
        } else {
            (capacity - count) as u32
        },
    ensures
        count + added <= capacity,
        added != batch_len as u32 ==> count + added == capacity,
{
}

} // verus!
