//! Allocation tracking counters and blocking-operation kinds.
use vstd::prelude::*;
use crate::allocation_profiler::add_usize;

verus! {

/// Kind of operation that blocked a frame.
#[derive(Debug, Clone, Copy, PartialEq, Eq, Structural)]
pub enum BlockingType {
    /// Waiting for GPU to finish
    GpuSync,
    /// Memory allocation
    MemoryAllocation,
    /// File I/O
    FileIO,
    /// Chunk generation
    ChunkGeneration,
    /// Mesh building
    MeshBuilding,
    /// Physics update
    PhysicsUpdate,
    /// Other CPU work
    CpuWork,
}

/// The counters (allocated, freed, in use, peak) after an allocation of
/// `size` bytes: allocated and in use grow, wrapping around, and the peak
/// follows the use upwards.
pub open spec fn after_alloc(c: (usize, usize, usize, usize), size: usize) -> (usize, usize, usize, usize) {
    let used = add_usize(c.2, size);
    (add_usize(c.0, size), c.1, used, if used > c.3 { used } else { c.3 })
}

/// The counters after `size` bytes are freed: freed grows and in use
/// shrinks, both wrapping around; the peak stays.
pub open spec fn after_dealloc(c: (usize, usize, usize, usize), size: usize) -> (usize, usize, usize, usize) {
    (c.0, add_usize(c.1, size), vstd::wrapping::usize_specs::wrapping_sub(c.2, size), c.3)
}

/// The peak never falls below the use: an allocation keeps it at least the
/// use, and so does freeing no more than is in use.
pub proof fn lemma_peak_covers_usage(c: (usize, usize, usize, usize), size: usize)
    requires
        c.3 >= c.2,
    ensures
        after_alloc(c, size).3 >= after_alloc(c, size).2,
        size <= c.2 ==> after_dealloc(c, size).3 >= after_dealloc(c, size).2,
{
    if size <= c.2 {
        assert(vstd::wrapping::usize_specs::wrapping_sub(c.2, size) == c.2 - size);
    }
}

/// One event seen by a tracking allocator.
pub enum TrackedEvent {
    /// A successful allocation of that many bytes
    Alloc(usize),
    /// That many bytes freed
    Dealloc(usize),
}

/// The counters after the given events, in order.
pub open spec fn after_events(c: (usize, usize, usize, usize), events: Seq<TrackedEvent>) -> (usize, usize, usize, usize)
    decreases events.len(),
{
    if events.len() == 0 {
        c
    } else {
        let p = after_events(c, events.drop_last());
        match events.last() {
            TrackedEvent::Alloc(s) => after_alloc(p, s),
            TrackedEvent::Dealloc(s) => after_dealloc(p, s),
        }
    }
}

/// Bytes allocated by the events.
pub open spec fn allocated_by(events: Seq<TrackedEvent>) -> nat
    decreases events.len(),
{
    if events.len() == 0 {
        0
    } else {
        allocated_by(events.drop_last()) + match events.last() {
            TrackedEvent::Alloc(s) => s as nat,
            TrackedEvent::Dealloc(_) => 0nat,
        }
    }
}

/// Bytes freed by the events.
pub open spec fn freed_by(events: Seq<TrackedEvent>) -> nat
    decreases events.len(),
{
    if events.len() == 0 {
        0
    } else {
        freed_by(events.drop_last()) + match events.last() {
            TrackedEvent::Alloc(_) => 0nat,
            TrackedEvent::Dealloc(s) => s as nat,
        }
    }
}

/// The use never wraps around: no allocation takes it past `usize::MAX`
/// and nothing frees more than is in use.
pub open spec fn use_in_range(c: (usize, usize, usize, usize), events: Seq<TrackedEvent>) -> bool
    decreases events.len(),
{
    if events.len() == 0 {
        true
    } else {
        let p = after_events(c, events.drop_last());
        &&& use_in_range(c, events.drop_last())
        &&& match events.last() {
            TrackedEvent::Alloc(s) => p.2 + s <= usize::MAX,
            TrackedEvent::Dealloc(s) => s <= p.2,
        }
    }
}

/// The largest use over the states the events pass through, the first
/// included.
pub open spec fn largest_use(c: (usize, usize, usize, usize), events: Seq<TrackedEvent>) -> int
    decreases events.len(),
{
    if events.len() == 0 {
        c.2 as int
    } else {
        let m = largest_use(c, events.drop_last());
        let u = after_events(c, events).2 as int;
        if u > m { u } else { m }
    }
}

/// Over any run of allocations and frees, the allocated and freed counters
/// grow by the bytes allocated and freed, while they do not wrap around.
pub proof fn lemma_frame_counters_over_run(c: (usize, usize, usize, usize), events: Seq<TrackedEvent>)
    requires
        c.0 + allocated_by(events) <= usize::MAX,
        c.1 + freed_by(events) <= usize::MAX,
    ensures
        after_events(c, events).0 == c.0 + allocated_by(events),
        after_events(c, events).1 == c.1 + freed_by(events),
    decreases events.len(),
{
    if events.len() > 0 {
        lemma_frame_counters_over_run(c, events.drop_last());
    }
}

/// The peak is the largest use the run reached (or the earlier peak, if
/// larger), as long as the use never wraps around.
pub proof fn lemma_peak_is_largest_use(c: (usize, usize, usize, usize), events: Seq<TrackedEvent>)
    requires
        c.3 >= c.2,
        use_in_range(c, events),
    ensures
        after_events(c, events).3 == (if c.3 >= largest_use(c, events) { c.3 as int } else { largest_use(c, events) }),
        after_events(c, events).3 >= after_events(c, events).2,
    decreases events.len(),
{
    if events.len() > 0 {
        let init = events.drop_last();
        lemma_peak_is_largest_use(c, init);
        let p = after_events(c, init);
        match events.last() {
            TrackedEvent::Alloc(s) => {
                assert(add_usize(p.2, s) == p.2 + s);
            },
            TrackedEvent::Dealloc(s) => {
                assert(vstd::wrapping::usize_specs::wrapping_sub(p.2, s) == p.2 - s);
                assert(p.2 <= largest_use(c, init)) by {
                    lemma_use_below_largest(c, init);
                }
            },
        }
    }
}

proof fn lemma_use_below_largest(c: (usize, usize, usize, usize), events: Seq<TrackedEvent>)
    ensures
        after_events(c, events).2 <= largest_use(c, events),
{
}

/// Byte counters of a global allocator: bytes allocated and freed since
/// they were last read, bytes in use, and the peak in use. Counters wrap
/// around on overflow.
pub struct TrackingAllocator {
    allocations: usize,
    deallocations: usize,
    current_usage: usize,
    peak_usage: usize,
}

impl TrackingAllocator {
    /// (allocated, freed, in use, peak)
    pub closed spec fn spec_counters(&self) -> (usize, usize, usize, usize) {
        (self.allocations, self.deallocations, self.current_usage, self.peak_usage)
    }

    pub fn new() -> (t: Self)
        ensures
            t.spec_counters() == (0usize, 0usize, 0usize, 0usize),
    {
        Self { allocations: 0, deallocations: 0, current_usage: 0, peak_usage: 0 }
    }

    /// Accounts for a successful allocation of `size` bytes.
    pub fn record_alloc(&mut self, size: usize)
        ensures
            final(self).spec_counters() == after_alloc(old(self).spec_counters(), size),
    {
        self.allocations = self.allocations.wrapping_add(size);
        self.current_usage = self.current_usage.wrapping_add(size);
        if self.current_usage > self.peak_usage {
            self.peak_usage = self.current_usage;
        }
    }

    /// Accounts for freeing `size` bytes.
    pub fn record_dealloc(&mut self, size: usize)
        ensures
            final(self).spec_counters() == after_dealloc(old(self).spec_counters(), size),
    {
        self.deallocations = self.deallocations.wrapping_add(size);
        self.current_usage = self.current_usage.wrapping_sub(size);
    }

    /// Bytes allocated since the last call; resets the counter.
    pub fn get_frame_allocations(&mut self) -> (n: usize)
        ensures
            n == old(self).spec_counters().0,
            final(self).spec_counters() == (
                0usize,
                old(self).spec_counters().1,
                old(self).spec_counters().2,
                old(self).spec_counters().3,
            ),
    {
        let n = self.allocations;
        self.allocations = 0;
        n
    }

    /// Bytes freed since the last call; resets the counter.
    pub fn get_frame_deallocations(&mut self) -> (n: usize)
        ensures
            n == old(self).spec_counters().1,
            final(self).spec_counters() == (
                old(self).spec_counters().0,
                0usize,
                old(self).spec_counters().2,
                old(self).spec_counters().3,
            ),
    {
        let n = self.deallocations;
        self.deallocations = 0;
        n
    }

    pub fn get_current_usage(&self) -> (n: usize)
        ensures
            n == self.spec_counters().2,
    {
        self.current_usage
    }

    pub fn get_peak_usage(&self) -> (n: usize)
        ensures
            n == self.spec_counters().3,
    {
        self.peak_usage
    }
}

} // verus!
