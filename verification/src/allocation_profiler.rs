//! Counters for allocations per frame and overall, with per-frame peaks.
use vstd::prelude::*;

verus! {

/// Allocation statistics report
#[derive(Debug, Clone, Copy, PartialEq, Eq, Structural)]
pub struct AllocationReport {
    pub total_allocations: usize,
    pub total_bytes: u64,
    pub current_frame_allocations: usize,
    pub current_frame_bytes: u64,
    pub peak_frame_allocations: usize,
    pub peak_frame_bytes: u64,
    pub frame_number: u64,
}

pub open spec fn empty_report() -> AllocationReport {
    AllocationReport {
        total_allocations: 0,
        total_bytes: 0,
        current_frame_allocations: 0,
        current_frame_bytes: 0,
        peak_frame_allocations: 0,
        peak_frame_bytes: 0,
        frame_number: 0,
    }
}

pub open spec fn add_usize(a: usize, b: usize) -> usize {
    vstd::wrapping::usize_specs::wrapping_add(a, b)
}

pub open spec fn add_u64(a: u64, b: u64) -> u64 {
    vstd::wrapping::u64_specs::wrapping_add(a, b)
}

/// The report after one allocation of `bytes` bytes.
pub open spec fn report_after_allocation(o: AllocationReport, bytes: u64) -> AllocationReport {
    AllocationReport {
        total_allocations: add_usize(o.total_allocations, 1),
        total_bytes: add_u64(o.total_bytes, bytes),
        current_frame_allocations: add_usize(o.current_frame_allocations, 1),
        current_frame_bytes: add_u64(o.current_frame_bytes, bytes),
        ..o
    }
}

/// The report after a new frame starts: the frame counters fold into the
/// peaks and restart from zero.
pub open spec fn report_after_frame_start(o: AllocationReport) -> AllocationReport {
    AllocationReport {
        current_frame_allocations: 0,
        current_frame_bytes: 0,
        peak_frame_allocations: if o.current_frame_allocations > o.peak_frame_allocations {
            o.current_frame_allocations
        } else {
            o.peak_frame_allocations
        },
        peak_frame_bytes: if o.current_frame_bytes > o.peak_frame_bytes {
            o.current_frame_bytes
        } else {
            o.peak_frame_bytes
        },
        frame_number: add_u64(o.frame_number, 1),
        ..o
    }
}

/// No frame counter or peak exceeds the totals it is part of.
pub open spec fn report_consistent(r: AllocationReport) -> bool {
    &&& r.current_frame_allocations <= r.total_allocations
    &&& r.current_frame_bytes <= r.total_bytes
    &&& r.peak_frame_allocations <= r.total_allocations
    &&& r.peak_frame_bytes <= r.total_bytes
}

/// A fresh or reset profiler's report is consistent.
pub proof fn lemma_empty_report_consistent()
    ensures
        report_consistent(empty_report()),
{
}

/// An allocation keeps the report consistent while the totals do not wrap.
pub proof fn lemma_allocation_keeps_consistent(o: AllocationReport, bytes: u64)
    requires
        report_consistent(o),
        o.total_allocations + 1 <= usize::MAX,
        o.total_bytes + bytes <= u64::MAX,
    ensures
        report_consistent(report_after_allocation(o, bytes)),
{
}

/// Starting a frame keeps the report consistent.
pub proof fn lemma_frame_start_keeps_consistent(o: AllocationReport)
    requires
        report_consistent(o),
    ensures
        report_consistent(report_after_frame_start(o)),
{
}

/// One call on an allocation profiler.
pub enum AllocationStep {
    /// `record_allocation` of that many bytes
    Allocation(u64),
    /// `start_frame`
    FrameStart,
    /// `reset`
    Reset,
}

/// The report after the given calls on a new profiler, in order.
pub open spec fn report_after_steps(steps: Seq<AllocationStep>) -> AllocationReport
    decreases steps.len(),
{
    if steps.len() == 0 {
        empty_report()
    } else {
        let o = report_after_steps(steps.drop_last());
        match steps.last() {
            AllocationStep::Allocation(b) => report_after_allocation(o, b),
            AllocationStep::FrameStart => report_after_frame_start(o),
            AllocationStep::Reset => empty_report(),
        }
    }
}

/// How many allocations the calls record.
pub open spec fn steps_allocations(steps: Seq<AllocationStep>) -> nat
    decreases steps.len(),
{
    if steps.len() == 0 {
        0
    } else {
        steps_allocations(steps.drop_last()) + match steps.last() {
            AllocationStep::Allocation(_) => 1nat,
            _ => 0nat,
        }
    }
}

/// How many bytes the calls record.
pub open spec fn steps_bytes(steps: Seq<AllocationStep>) -> nat
    decreases steps.len(),
{
    if steps.len() == 0 {
        0
    } else {
        steps_bytes(steps.drop_last()) + match steps.last() {
            AllocationStep::Allocation(b) => b as nat,
            _ => 0nat,
        }
    }
}

/// Over any run of calls on a new profiler whose totals do not wrap, no
/// frame counter or peak exceeds the totals.
pub proof fn lemma_run_keeps_consistent(steps: Seq<AllocationStep>)
    requires
        steps_allocations(steps) <= usize::MAX,
        steps_bytes(steps) <= u64::MAX,
    ensures
        report_consistent(report_after_steps(steps)),
        report_after_steps(steps).total_allocations <= steps_allocations(steps),
        report_after_steps(steps).total_bytes <= steps_bytes(steps),
    decreases steps.len(),
{
    if steps.len() > 0 {
        let init = steps.drop_last();
        lemma_run_keeps_consistent(init);
        let o = report_after_steps(init);
        match steps.last() {
            AllocationStep::Allocation(b) => {
                lemma_allocation_keeps_consistent(o, b);
            },
            AllocationStep::FrameStart => {
                lemma_frame_start_keeps_consistent(o);
            },
            AllocationStep::Reset => {},
        }
    }
}

/// Profiler for tracking memory allocations; counters wrap around on
/// overflow.
pub struct AllocationProfiler {
    total_allocations: usize,
    total_bytes: u64,
    frame_allocations: usize,
    frame_bytes: u64,
    peak_frame_allocations: usize,
    peak_frame_bytes: u64,
    frame_number: u64,
}

impl AllocationProfiler {
    /// The counters as a report.
    pub closed spec fn spec_report(&self) -> AllocationReport {
        AllocationReport {
            total_allocations: self.total_allocations,
            total_bytes: self.total_bytes,
            current_frame_allocations: self.frame_allocations,
            current_frame_bytes: self.frame_bytes,
            peak_frame_allocations: self.peak_frame_allocations,
            peak_frame_bytes: self.peak_frame_bytes,
            frame_number: self.frame_number,
        }
    }

    /// Create a new allocation profiler
    pub fn new() -> (p: Self)
        ensures
            p.spec_report() == empty_report(),
    {
        Self {
            total_allocations: 0,
            total_bytes: 0,
            frame_allocations: 0,
            frame_bytes: 0,
            peak_frame_allocations: 0,
            peak_frame_bytes: 0,
            frame_number: 0,
        }
    }

    /// Record an allocation of `bytes` bytes in the total and frame counters.
    pub fn record_allocation(&mut self, bytes: usize)
        ensures
            final(self).spec_report() == report_after_allocation(old(self).spec_report(), bytes as u64),
    {
        self.total_allocations = self.total_allocations.wrapping_add(1);
        self.total_bytes = self.total_bytes.wrapping_add(bytes as u64);
        self.frame_allocations = self.frame_allocations.wrapping_add(1);
        self.frame_bytes = self.frame_bytes.wrapping_add(bytes as u64);
    }

    /// Start a new frame: fold the frame counters into the peaks, reset
    /// them and count the frame.
    pub fn start_frame(&mut self)
        ensures
            final(self).spec_report() == report_after_frame_start(old(self).spec_report()),
    {
        if self.frame_allocations > self.peak_frame_allocations {
            self.peak_frame_allocations = self.frame_allocations;
        }
        if self.frame_bytes > self.peak_frame_bytes {
            self.peak_frame_bytes = self.frame_bytes;
        }
        self.frame_allocations = 0;
        self.frame_bytes = 0;
        self.frame_number = self.frame_number.wrapping_add(1);
    }

    /// Get current allocation statistics
    pub fn get_stats(&self) -> (r: AllocationReport)
        ensures
            r == self.spec_report(),
    {
        AllocationReport {
            total_allocations: self.total_allocations,
            total_bytes: self.total_bytes,
            current_frame_allocations: self.frame_allocations,
            current_frame_bytes: self.frame_bytes,
            peak_frame_allocations: self.peak_frame_allocations,
            peak_frame_bytes: self.peak_frame_bytes,
            frame_number: self.frame_number,
        }
    }

    /// Reset all statistics
    pub fn reset(&mut self)
        ensures
            final(self).spec_report() == empty_report(),
    {
        self.total_allocations = 0;
        self.total_bytes = 0;
        self.frame_allocations = 0;
        self.frame_bytes = 0;
        self.peak_frame_allocations = 0;
        self.peak_frame_bytes = 0;
        self.frame_number = 0;
    }
}

/// Start-of-scope snapshot of a profiler's frame counters; the scope's
/// allocations are the growth of those counters until its end.
pub struct AllocationScope {
    start_allocations: usize,
    start_bytes: u64,
    operation_name: &'static str,
}

impl AllocationScope {
    pub closed spec fn spec_start(&self) -> (usize, u64) {
        (self.start_allocations, self.start_bytes)
    }

    pub closed spec fn spec_name(&self) -> &'static str {
        self.operation_name
    }

    pub fn new(profiler: &AllocationProfiler, operation_name: &'static str) -> (s: Self)
        ensures
            s.spec_start() == (
                profiler.spec_report().current_frame_allocations,
                profiler.spec_report().current_frame_bytes,
            ),
            s.spec_name() == operation_name,
    {
        let stats = profiler.get_stats();
        Self {
            start_allocations: stats.current_frame_allocations,
            start_bytes: stats.current_frame_bytes,
            operation_name,
        }
    }

    pub fn operation_name(&self) -> (n: &'static str)
        ensures
            n == self.spec_name(),
    {
        self.operation_name
    }

    /// Allocations and bytes recorded since the scope began, or `None` when
    /// there were none.
    pub fn allocation_delta(&self, profiler: &AllocationProfiler) -> (d: Option<(usize, u64)>)
        requires
            profiler.spec_report().current_frame_allocations >= self.spec_start().0,
            profiler.spec_report().current_frame_bytes >= self.spec_start().1,
        ensures
            ({
                let da = profiler.spec_report().current_frame_allocations - self.spec_start().0;
                let db = profiler.spec_report().current_frame_bytes - self.spec_start().1;
                if da > 0 || db > 0 {
                    d == Some((da as usize, db as u64))
                } else {
                    d is None
                }
            }),
    {
        let stats = profiler.get_stats();
        let alloc_delta = stats.current_frame_allocations - self.start_allocations;
        let bytes_delta = stats.current_frame_bytes - self.start_bytes;
        if alloc_delta > 0 || bytes_delta > 0 {
            Some((alloc_delta, bytes_delta))
        } else {
            None
        }
    }
}

/// Benchmark allocation patterns for DOP vs OOP
pub struct AllocationBenchmark {
    pub profiler: AllocationProfiler,
}

impl AllocationBenchmark {
    pub fn new() -> (b: Self)
        ensures
            b.profiler.spec_report() == empty_report(),
    {
        Self { profiler: AllocationProfiler::new() }
    }
}

} // verus!
