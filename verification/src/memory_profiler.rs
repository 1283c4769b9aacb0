//! Call counts, accumulated time and memory access patterns per function,
//! and the hot paths derived from them. Durations are in nanoseconds.
use vstd::prelude::*;
use vstd::string::*;
use crate::clock::{now, elapsed_nanos, duration_max_nanos};
use crate::error::{EngineError, EngineResult};
use crate::text::str_eq;
use std::time::Instant;

verus! {

/// Memory access pattern types
#[derive(Debug, Clone, Copy, PartialEq, Eq, Hash, Structural)]
pub enum AccessPattern {
    /// Sequential access (cache-friendly)
    Sequential,
    /// Strided access (potentially cache-friendly)
    Strided(usize),
    /// Random access (cache-unfriendly)
    Random,
}

/// A function found to be hot; times are in nanoseconds.
#[derive(Debug, Clone, Copy)]
pub struct HotPath {
    pub function: &'static str,
    pub call_count: u64,
    pub total_time: u128,
    pub avg_time: u128,
    pub access_pattern: AccessPattern,
}

/// Calls recorded for one function.
#[derive(Debug, Clone, Copy)]
pub struct FunctionCalls {
    pub function: &'static str,
    pub call_count: u64,
    pub total_time: u128,
}

/// Access patterns recorded for one function, in recording order.
#[derive(Debug, Clone)]
pub struct FunctionPatterns {
    pub function: &'static str,
    pub patterns: Vec<AccessPattern>,
}

/// Memory profiler for tracking access patterns and hot paths
pub struct MemoryProfiler {
    function_calls: Vec<FunctionCalls>,
    access_patterns: Vec<FunctionPatterns>,
    hot_paths: Vec<HotPath>,
}

/// An address read as a signed 64-bit number: those above `i64::MAX`
/// wrap around to negative values.
pub open spec fn signed_address(a: usize) -> int {
    if a > i64::MAX {
        a - 0x1_0000_0000_0000_0000int
    } else {
        a as int
    }
}

/// The signed difference of consecutive addresses `i` and `i + 1`.
pub open spec fn signed_step(a: Seq<usize>, i: int) -> int {
    signed_address(a[i + 1]) - signed_address(a[i])
}

/// The signed difference `a - b` of two addresses and its magnitude fit
/// in an `i64`.
pub open spec fn address_step_fits(a: usize, b: usize) -> bool {
    i64::MIN < signed_address(a) - signed_address(b) <= i64::MAX
}

/// The signed difference of addresses `i` and `i + 1` and its magnitude
/// fit in an `i64`.
pub open spec fn step_fits(a: Seq<usize>, i: int) -> bool {
    address_step_fits(a[i + 1], a[i])
}

/// Distance between consecutive addresses `i` and `i + 1`.
pub open spec fn stride(a: Seq<usize>, i: int) -> int {
    if signed_step(a, i) < 0 {
        -signed_step(a, i)
    } else {
        signed_step(a, i)
    }
}

pub(crate) fn signed_address_exec(a: usize) -> (x: i64)
    ensures
        x == signed_address(a),
{
    let w = a as u64;
    if w <= 0x7fff_ffff_ffff_ffffu64 {
        w as i64
    } else {
        ((w - 0x8000_0000_0000_0000u64) as i64) + i64::MIN
    }
}

/// Fewer than two addresses, or equal strides of at most a cache line,
/// are sequential; equal longer strides are strided; anything else random.
pub open spec fn access_pattern_of(a: Seq<usize>) -> AccessPattern {
    if a.len() < 2 {
        AccessPattern::Sequential
    } else if forall|i: int| 0 <= i < a.len() - 1 ==> #[trigger] stride(a, i) == stride(a, 0) {
        if stride(a, 0) <= 64 {
            AccessPattern::Sequential
        } else {
            AccessPattern::Strided(stride(a, 0) as usize)
        }
    } else {
        AccessPattern::Random
    }
}

/// Number of occurrences of `p` in `ps`.
pub open spec fn count_pattern(ps: Seq<AccessPattern>, p: AccessPattern) -> nat
    decreases ps.len(),
{
    if ps.len() == 0 {
        0
    } else {
        count_pattern(ps.drop_last(), p) + if ps.last() == p {
            1nat
        } else {
            0nat
        }
    }
}

/// `p` is a most frequent pattern of a non-empty list, or `Random` when
/// there is no list or it is empty.
pub open spec fn predominant(ps: Option<Seq<AccessPattern>>, p: AccessPattern) -> bool {
    match ps {
        None => p == AccessPattern::Random,
        Some(ps) => if ps.len() == 0 {
            p == AccessPattern::Random
        } else {
            &&& exists|i: int| 0 <= i < ps.len() && ps[i] == p
            &&& forall|i: int| 0 <= i < ps.len() ==> count_pattern(ps, #[trigger] ps[i]) <= count_pattern(ps, p)
        },
    }
}

/// Whole milliseconds of a duration in nanoseconds, as `Duration::as_millis`.
pub open spec fn millis(nanos: u128) -> int {
    (nanos / 1_000_000) as int
}

/// A function is hot when called at least `min_calls` times or when it took
/// at least `min_time_ms` whole milliseconds in total.
pub open spec fn is_hot(r: FunctionCalls, min_calls: u64, min_time_ms: u64) -> bool {
    r.call_count >= min_calls || millis(r.total_time) >= min_time_ms
}

/// The divisor used for the average: the call count (at least 1) cut to 32 bits.
pub open spec fn avg_divisor(call_count: u64) -> u32 {
    (if call_count >= 1 {
        call_count
    } else {
        1
    }) as u32
}

pub open spec fn names_distinct_calls(rs: Seq<FunctionCalls>) -> bool {
    forall|a: int, b: int|
        0 <= a < rs.len() && 0 <= b < rs.len() && a != b ==> (#[trigger] rs[a]).function@
            != (#[trigger] rs[b]).function@
}

pub open spec fn names_distinct_hot(hs: Seq<HotPath>) -> bool {
    forall|a: int, b: int|
        0 <= a < hs.len() && 0 <= b < hs.len() && a != b ==> (#[trigger] hs[a]).function@
            != (#[trigger] hs[b]).function@
}

pub open spec fn sorted_by_time_desc(hs: Seq<HotPath>) -> bool {
    forall|a: int, b: int| 0 <= a < b < hs.len() ==> (#[trigger] hs[a]).total_time >= (#[trigger] hs[b]).total_time
}

/// `after` is `before` with one call of `function` taking `duration`
/// recorded: its record counts one more call and the time, or a new record
/// for it comes last.
pub open spec fn call_recorded(
    before: Seq<FunctionCalls>,
    after: Seq<FunctionCalls>,
    function: &'static str,
    duration: u128,
) -> bool {
    &&& (exists|i: int| 0 <= i < before.len() && (#[trigger] before[i]).function@ == function@) ==> exists|i: int|
        0 <= i < before.len() && (#[trigger] before[i]).function@ == function@ && after == before.update(
            i,
            FunctionCalls {
                function: before[i].function,
                call_count: (before[i].call_count + 1) as u64,
                total_time: (before[i].total_time + duration) as u128,
            },
        )
    &&& !(exists|i: int| 0 <= i < before.len() && (#[trigger] before[i]).function@ == function@) ==> after
        == before.push(FunctionCalls { function, call_count: 1, total_time: duration })
}

impl MemoryProfiler {
    /// Calls per function, one record per function name, in first-call order.
    pub closed spec fn spec_calls(&self) -> Seq<FunctionCalls> {
        self.function_calls@
    }

    /// Access patterns per function, one record per function name.
    pub closed spec fn spec_patterns(&self) -> Seq<(Seq<char>, Seq<AccessPattern>)> {
        self.access_patterns@.map_values(|r: FunctionPatterns| (r.function@, r.patterns@))
    }

    /// The hot paths found by the last `identify_hot_paths`.
    pub closed spec fn spec_hot_paths(&self) -> Seq<HotPath> {
        self.hot_paths@
    }

    /// The access patterns recorded for `name`, if any.
    #[verifier::opaque]
    pub open spec fn patterns_of(&self, name: Seq<char>) -> Option<Seq<AccessPattern>> {
        if exists|i: int| 0 <= i < self.spec_patterns().len() && (#[trigger] self.spec_patterns()[i]).0 == name {
            let i = choose|i: int| 0 <= i < self.spec_patterns().len() && (#[trigger] self.spec_patterns()[i]).0 == name;
            Some(self.spec_patterns()[i].1)
        } else {
            None
        }
    }

    /// Recording a call of `function` taking `duration` keeps its count
    /// and total time in range (a `Duration` and a `u64`).
    pub open spec fn recordable(&self, function: Seq<char>, duration: u128) -> bool {
        &&& duration <= duration_max_nanos()
        &&& forall|i: int|
            0 <= i < self.spec_calls().len() && (#[trigger] self.spec_calls()[i]).function@ == function
                ==> self.spec_calls()[i].call_count < u64::MAX && self.spec_calls()[i].total_time + duration
                <= duration_max_nanos()
    }

    /// Whether a call of `function` taking `duration` can be recorded.
    pub fn can_record(&self, function: &'static str, duration: u128) -> (b: bool)
        ensures
            b == self.recordable(function@, duration),
    {
        if duration > 18446744073709551615u128 * 1_000_000_000u128 + 999_999_999u128 {
            return false;
        }
        let n = self.function_calls.len();
        let mut i: usize = 0;
        while i < n
            invariant
                n == self.function_calls@.len(),
                i <= n,
                duration <= duration_max_nanos(),
                forall|k: int|
                    0 <= k < i && (#[trigger] self.function_calls@[k]).function@ == function@
                        ==> self.function_calls@[k].call_count < u64::MAX && self.function_calls@[k].total_time
                        + duration <= duration_max_nanos(),
            decreases n - i,
        {
            let rec = self.function_calls[i];
            if str_eq(rec.function, function) {
                if rec.call_count == u64::MAX || rec.total_time > 18446744073709551615u128 * 1_000_000_000u128
                    + 999_999_999u128 - duration {
                    proof {
                        assert(self.spec_calls()[i as int].function@ == function@);
                        assert(!(self.spec_calls()[i as int].call_count < u64::MAX
                            && self.spec_calls()[i as int].total_time + duration <= duration_max_nanos()));
                    }
                    return false;
                }
            }
            i = i + 1;
        }
        true
    }

    pub closed spec fn wf(&self) -> bool {
        &&& names_distinct_calls(self.function_calls@)
        &&& forall|a: int, b: int|
            0 <= a < self.access_patterns@.len() && 0 <= b < self.access_patterns@.len() && a != b
                ==> (#[trigger] self.access_patterns@[a]).function@ != (#[trigger] self.access_patterns@[b]).function@
    }

    pub fn new() -> (p: Self)
        ensures
            p.wf(),
            p.spec_calls() == Seq::<FunctionCalls>::empty(),
            p.spec_patterns() == Seq::<(Seq<char>, Seq<AccessPattern>)>::empty(),
            p.spec_hot_paths() == Seq::<HotPath>::empty(),
    {
        let p = Self { function_calls: Vec::new(), access_patterns: Vec::new(), hot_paths: Vec::new() };
        proof {
            assert(p.spec_patterns() =~= Seq::<(Seq<char>, Seq<AccessPattern>)>::empty());
        }
        p
    }

    /// Record a function call of the given duration (in nanoseconds): the
    /// function's count goes up by one and its total time by the duration.
    pub fn record_function_call(&mut self, function: &'static str, duration: u128) -> (r: EngineResult<()>)
        requires
            old(self).wf(),
            old(self).recordable(function@, duration),
        ensures
            r is Ok,
            final(self).wf(),
            final(self).spec_patterns() == old(self).spec_patterns(),
            final(self).spec_hot_paths() == old(self).spec_hot_paths(),
            call_recorded(old(self).spec_calls(), final(self).spec_calls(), function, duration),
    {
        let n = self.function_calls.len();
        let mut i: usize = 0;
        while i < n
            invariant
                n == self.function_calls@.len(),
                i <= n,
                self.wf(),
                self.recordable(function@, duration),
                self.spec_calls() == old(self).spec_calls(),
                self.spec_patterns() == old(self).spec_patterns(),
                self.spec_hot_paths() == old(self).spec_hot_paths(),
                forall|k: int| 0 <= k < i ==> (#[trigger] self.function_calls@[k]).function@ != function@,
            decreases n - i,
        {
            if str_eq(self.function_calls[i].function, function) {
                let old_rec = self.function_calls[i];
                proof {
                    assert(self.spec_calls()[i as int] == old_rec);
                }
                let rec = FunctionCalls {
                    function: old_rec.function,
                    call_count: old_rec.call_count + 1,
                    total_time: old_rec.total_time + duration,
                };
                let ghost before = self.function_calls@;
                self.function_calls.set(i, rec);
                proof {
                    assert forall|a: int, b: int|
                        0 <= a < self.function_calls@.len() && 0 <= b < self.function_calls@.len() && a != b
                            implies (#[trigger] self.function_calls@[a]).function@
                        != (#[trigger] self.function_calls@[b]).function@ by {
                        assert(before[a].function@ != before[b].function@);
                    }
                    assert(before[i as int].function@ == function@);
                }
                return Ok(());
            }
            i = i + 1;
        }
        let ghost before = self.function_calls@;
        self.function_calls.push(FunctionCalls { function, call_count: 1, total_time: duration });
        proof {
            assert forall|a: int, b: int|
                0 <= a < self.function_calls@.len() && 0 <= b < self.function_calls@.len() && a != b
                    implies (#[trigger] self.function_calls@[a]).function@ != (#[trigger] self.function_calls@[b]).function@ by {
                if a < before.len() && b < before.len() {
                    assert(before[a].function@ != before[b].function@);
                }
            }
        }
        Ok(())
    }

    /// Record memory access pattern
    pub fn record_access_pattern(&mut self, function: &'static str, pattern: AccessPattern) -> (r:
        EngineResult<()>)
        requires
            old(self).wf(),
        ensures
            r is Ok,
            final(self).wf(),
            final(self).spec_calls() == old(self).spec_calls(),
            final(self).spec_hot_paths() == old(self).spec_hot_paths(),
            (exists|i: int| 0 <= i < old(self).spec_patterns().len() && (#[trigger] old(self).spec_patterns()[i]).0 == function@)
                ==> exists|i: int|
                0 <= i < old(self).spec_patterns().len() && (#[trigger] old(self).spec_patterns()[i]).0 == function@
                    && final(self).spec_patterns() == old(self).spec_patterns().update(
                    i,
                    (function@, old(self).spec_patterns()[i].1.push(pattern)),
                ),
            !(exists|i: int| 0 <= i < old(self).spec_patterns().len() && (#[trigger] old(self).spec_patterns()[i]).0 == function@)
                ==> final(self).spec_patterns() == old(self).spec_patterns().push((function@, seq![pattern])),
    {
        let n = self.access_patterns.len();
        let mut i: usize = 0;
        while i < n
            invariant
                n == self.access_patterns@.len(),
                i <= n,
                self.wf(),
                self.spec_calls() == old(self).spec_calls(),
                self.spec_patterns() == old(self).spec_patterns(),
                self.spec_hot_paths() == old(self).spec_hot_paths(),
                forall|k: int| 0 <= k < i ==> (#[trigger] self.access_patterns@[k]).function@ != function@,
            decreases n - i,
        {
            if str_eq(self.access_patterns[i].function, function) {
                let ghost before = self.access_patterns@;
                let ghost sp = self.spec_patterns();
                let mut entry = FunctionPatterns { function, patterns: Vec::new() };
                std::mem::swap(&mut entry, &mut self.access_patterns[i]);
                entry.patterns.push(pattern);
                std::mem::swap(&mut entry, &mut self.access_patterns[i]);
                proof {
                    assert(before[i as int].function@ == function@);
                    assert(sp[i as int].0 == function@);
                    assert(self.spec_patterns() =~= sp.update(i as int, (function@, sp[i as int].1.push(pattern))));
                    assert forall|a: int, b: int|
                        0 <= a < self.access_patterns@.len() && 0 <= b < self.access_patterns@.len() && a != b
                            implies (#[trigger] self.access_patterns@[a]).function@
                        != (#[trigger] self.access_patterns@[b]).function@ by {
                        assert(before[a].function@ != before[b].function@);
                    }
                }
                return Ok(());
            }
            i = i + 1;
        }
        let ghost before = self.access_patterns@;
        let ghost sp = self.spec_patterns();
        let mut patterns: Vec<AccessPattern> = Vec::new();
        patterns.push(pattern);
        self.access_patterns.push(FunctionPatterns { function, patterns });
        proof {
            assert forall|k: int| 0 <= k < sp.len() implies (#[trigger] sp[k]).0 != function@ by {
                assert(before[k].function@ != function@);
            }
            assert(self.spec_patterns() =~= sp.push((function@, seq![pattern])));
            assert forall|a: int, b: int|
                0 <= a < self.access_patterns@.len() && 0 <= b < self.access_patterns@.len() && a != b
                    implies (#[trigger] self.access_patterns@[a]).function@ != (#[trigger] self.access_patterns@[b]).function@ by {
                if a < before.len() && b < before.len() {
                    assert(before[a].function@ != before[b].function@);
                }
            }
        }
        Ok(())
    }

    /// Analyze memory access pattern from addresses
    pub fn analyze_access_pattern(&self, addresses: &[usize]) -> (p: AccessPattern)
        requires
            forall|k: int| 0 <= k < addresses@.len() - 1 ==> #[trigger] step_fits(addresses@, k),
        ensures
            p == access_pattern_of(addresses@),
    {
        if addresses.len() < 2 {
            return AccessPattern::Sequential;
        }
        let mut strides: Vec<usize> = Vec::new();
        let mut i: usize = 1;
        while i < addresses.len()
            invariant
                1 <= i <= addresses@.len(),
                strides@.len() == i - 1,
                forall|k: int| 0 <= k < addresses@.len() - 1 ==> #[trigger] step_fits(addresses@, k),
                forall|k: int| 0 <= k < i - 1 ==> strides@[k] == stride(addresses@, k),
            decreases addresses@.len() - i,
        {
            assert(step_fits(addresses@, i - 1));
            let d: i64 = signed_address_exec(addresses[i]) - signed_address_exec(addresses[i - 1]);
            let m: i64 = if d < 0 { 0 - d } else { d };
            assert(m <= usize::MAX) by {
                if usize::MAX < i64::MAX {
                    assert(addresses@[i as int] <= i64::MAX && addresses@[i - 1] <= i64::MAX);
                }
            }
            let s: usize = m as usize;
            strides.push(s);
            i = i + 1;
        }
        let first_stride = strides[0];
        let mut all_same = true;
        let mut k: usize = 0;
        while k < strides.len()
            invariant
                strides@.len() == addresses@.len() - 1,
                first_stride == strides@[0],
                k <= strides@.len(),
                forall|t: int| 0 <= t < strides@.len() ==> strides@[t] == stride(addresses@, t),
                all_same == (forall|t: int| 0 <= t < k ==> #[trigger] stride(addresses@, t) == stride(addresses@, 0)),
            decreases strides@.len() - k,
        {
            if strides[k] != first_stride {
                all_same = false;
            }
            proof {
                if all_same {
                    assert forall|t: int| 0 <= t < k + 1 implies #[trigger] stride(addresses@, t) == stride(addresses@, 0) by {
                        if t < k {
                            assert(stride(addresses@, t) == stride(addresses@, 0));
                        }
                    }
                } else {
                    if strides@[k as int] != first_stride {
                        assert(!(stride(addresses@, k as int) == stride(addresses@, 0)));
                    } else {
                        let t = choose|t: int| 0 <= t < k && !(#[trigger] stride(addresses@, t) == stride(addresses@, 0));
                        assert(!(stride(addresses@, t) == stride(addresses@, 0)));
                    }
                }
            }
            k = k + 1;
        }
        if all_same {
            if first_stride <= 64 {
                AccessPattern::Sequential
            } else {
                AccessPattern::Strided(first_stride)
            }
        } else {
            AccessPattern::Random
        }
    }

    /// Most frequent recorded access pattern of a function (the first one
    /// recorded among equally frequent ones), or `Random` when none.
    fn predominant_pattern(&self, function: &'static str) -> (p: AccessPattern)
        requires
            self.wf(),
        ensures
            predominant(self.patterns_of(function@), p),
    {
        let n = self.access_patterns.len();
        let mut i: usize = 0;
        while i < n
            invariant
                self.wf(),
                n == self.access_patterns@.len(),
                i <= n,
                forall|k: int| 0 <= k < i ==> (#[trigger] self.access_patterns@[k]).function@ != function@,
            decreases n - i,
        {
            if str_eq(self.access_patterns[i].function, function) {
                let ps = &self.access_patterns[i].patterns;
                let p = most_frequent(ps);
                proof {
                    reveal(MemoryProfiler::patterns_of);
                    let sp = self.spec_patterns();
                    assert(sp[i as int].0 == function@);
                    let j = choose|j: int| 0 <= j < sp.len() && (#[trigger] sp[j]).0 == function@;
                    if j != i {
                        assert(self.access_patterns@[j].function@ != self.access_patterns@[i as int].function@);
                    }
                    assert(self.patterns_of(function@) == Some(ps@));
                }
                return p;
            }
            i = i + 1;
        }
        proof {
            reveal(MemoryProfiler::patterns_of);
            let sp = self.spec_patterns();
            assert forall|k: int| 0 <= k < sp.len() implies (#[trigger] sp[k]).0 != function@ by {
                assert(self.access_patterns@[k].function@ != function@);
            }
        }
        AccessPattern::Random
    }

    /// The hot functions in first-call order, each with its average time
    /// and predominant access pattern.
    fn collect_hot_paths(&self, min_calls: u64, min_time_ms: u64) -> (res: (Vec<HotPath>, Ghost<Seq<int>>))
        requires
            self.wf(),
            forall|i: int|
                0 <= i < self.spec_calls().len() ==> avg_divisor((#[trigger] self.spec_calls()[i]).call_count)
                    != 0,
        ensures
            hot_inv(self, res.0@, res.1@, self.spec_calls().len() as int, min_calls, min_time_ms),
    {
        let mut hot: Vec<HotPath> = Vec::new();
        let ghost mut src: Seq<int> = Seq::empty();
        let n = self.function_calls.len();
        let mut t: usize = 0;
        assert(hot_inv(self, hot@, src, 0, min_calls, min_time_ms)) by {
            reveal(hot_inv);
        }
        while t < n
            invariant
                self.wf(),
                n == self.spec_calls().len(),
                t <= n,
                forall|i: int|
                    0 <= i < self.spec_calls().len() ==> avg_divisor(
                        (#[trigger] self.spec_calls()[i]).call_count,
                    ) != 0,
                hot_inv(self, hot@, src, t as int, min_calls, min_time_ms),
            decreases n - t,
        {
            let rec = self.function_calls[t];
            proof {
                assert(self.spec_calls()[t as int] == rec);
                assert(avg_divisor(rec.call_count) != 0);
            }
            let count = if rec.call_count >= 1 { rec.call_count } else { 1 };
            let divisor = count as u32;
            let avg_time = rec.total_time / (divisor as u128);
            if rec.call_count >= min_calls || rec.total_time / 1_000_000 >= min_time_ms as u128 {
                let access_pattern = self.predominant_pattern(rec.function);
                let h = HotPath {
                    function: rec.function,
                    call_count: rec.call_count,
                    total_time: rec.total_time,
                    avg_time,
                    access_pattern,
                };
                proof {
                    assert(hot_path_of(rec, self.patterns_of(rec.function@), h)) by {
                        reveal(hot_path_of);
                    }
                    lemma_hot_push(self, hot@, src, t as int, h, min_calls, min_time_ms);
                    src = src.push(t as int);
                }
                hot.push(h);
            } else {
                proof {
                    lemma_hot_skip(self, hot@, src, t as int, min_calls, min_time_ms);
                }
            }
            t = t + 1;
        }
        (hot, Ghost(src))
    }

    /// Identify hot paths (functions called frequently or taking significant
    /// time), each with its average time and predominant access pattern,
    /// most time-consuming first.
    pub fn identify_hot_paths(&mut self, min_calls: u64, min_time_ms: u64) -> (r: EngineResult<()>)
        requires
            old(self).wf(),
            forall|i: int|
                0 <= i < old(self).spec_calls().len() ==> avg_divisor(
                    (#[trigger] old(self).spec_calls()[i]).call_count,
                ) != 0,
        ensures
            r is Ok,
            final(self).wf(),
            final(self).spec_calls() == old(self).spec_calls(),
            final(self).spec_patterns() == old(self).spec_patterns(),
            hot_paths_report(old(self), final(self).spec_hot_paths(), min_calls, min_time_ms),
    {
        let (hot, Ghost(src)) = self.collect_hot_paths(min_calls, min_time_ms);
        let ghost unsorted = hot@;
        let (sorted, Ghost(perm)) = sort_by_time_desc(hot);
        proof {
            lemma_hot_names_distinct(self, unsorted, src, self.spec_calls().len() as int, min_calls, min_time_ms);
            lemma_hot_report(self, unsorted, src, sorted@, perm, min_calls, min_time_ms);
        }
        self.hot_paths = sorted;
        Ok(())
    }

    /// The `limit` most called functions' records, most calls first, equal
    /// counts in the order the functions were first recorded.
    pub fn top_functions(&self, limit: usize) -> (top: Vec<FunctionCalls>)
        ensures
            top@ == top_by_calls(self.spec_calls(), limit as nat),
    {
        let mut rest: Vec<FunctionCalls> = Vec::new();
        let mut i: usize = 0;
        while i < self.function_calls.len()
            invariant
                i <= self.function_calls@.len(),
                rest@ == self.function_calls@.take(i as int),
            decreases self.function_calls@.len() - i,
        {
            rest.push(self.function_calls[i]);
            proof {
                assert(self.function_calls@.take(i + 1) =~= self.function_calls@.take(i as int).push(
                    self.function_calls@[i as int],
                ));
            }
            i = i + 1;
        }
        proof {
            assert(self.function_calls@.take(i as int) =~= self.function_calls@);
        }
        let mut top: Vec<FunctionCalls> = Vec::new();
        let mut taken: usize = 0;
        while taken < limit && rest.len() > 0
            invariant
                taken <= limit,
                top@ + top_by_calls(rest@, (limit - taken) as nat) == top_by_calls(self.spec_calls(), limit as nat),
            decreases limit - taken,
        {
            let ghost before = rest@;
            let mut best: usize = 0;
            let mut j: usize = 1;
            proof {
                assert(before.subrange(0, 1).len() == 1);
            }
            while j < rest.len()
                invariant
                    rest@ == before,
                    1 <= j <= before.len(),
                    best < j,
                    best == most_called_index(before.subrange(0, j as int)),
                decreases before.len() - j,
            {
                proof {
                    let sub = before.subrange(0, j + 1);
                    assert(sub.drop_last() =~= before.subrange(0, j as int));
                    assert(sub[best as int] == before[best as int]);
                }
                if rest[j].call_count > rest[best].call_count {
                    best = j;
                }
                j = j + 1;
            }
            proof {
                assert(before.subrange(0, before.len() as int) =~= before);
                lemma_most_called_in_range(before);
            }
            let record = rest.remove(best);
            proof {
                let k = (limit - taken) as nat;
                assert(top_by_calls(before, k) == seq![record] + top_by_calls(before.remove(best as int), (k - 1) as nat));
                assert(top@.push(record) + top_by_calls(rest@, (k - 1) as nat) =~= top@ + (seq![record]
                    + top_by_calls(rest@, (k - 1) as nat)));
            }
            top.push(record);
            taken = taken + 1;
        }
        proof {
            assert(top_by_calls(rest@, (limit - taken) as nat) =~= Seq::<FunctionCalls>::empty());
            assert(top@ + Seq::<FunctionCalls>::empty() =~= top@);
        }
        top
    }

    /// Get identified hot paths
    pub fn hot_paths(&self) -> (r: EngineResult<Vec<HotPath>>)
        ensures
            r matches Ok(v) && v@ == self.spec_hot_paths(),
    {
        let mut out: Vec<HotPath> = Vec::new();
        let mut i: usize = 0;
        while i < self.hot_paths.len()
            invariant
                i <= self.hot_paths@.len(),
                out@ == self.hot_paths@.take(i as int),
            decreases self.hot_paths@.len() - i,
        {
            out.push(self.hot_paths[i]);
            proof {
                assert(self.hot_paths@.take(i + 1) =~= self.hot_paths@.take(i as int).push(self.hot_paths@[i as int]));
            }
            i = i + 1;
        }
        proof {
            assert(self.hot_paths@.take(i as int) =~= self.hot_paths@);
        }
        Ok(out)
    }
}

/// Invariant of collecting hot paths over the first `t` call records:
/// `src[i]` is the record that hot path `i` reports.
#[verifier::opaque]
pub open spec fn hot_inv(p: &MemoryProfiler, hs: Seq<HotPath>, src: Seq<int>, t: int, mc: u64, mt: u64) -> bool {
    let calls = p.spec_calls();
    &&& src.len() == hs.len()
    &&& forall|i: int|
        0 <= i < hs.len() ==> 0 <= src[i] < t && is_hot(calls[src[i]], mc, mt) && (#[trigger] hs[i]).function
            == calls[src[i]].function && hot_path_of(
            calls[src[i]],
            p.patterns_of(calls[src[i]].function@),
            hs[i],
        )
    &&& forall|i: int, j: int| 0 <= i < j < hs.len() ==> #[trigger] src[i] < #[trigger] src[j]
    &&& forall|u: int| 0 <= u < t && is_hot(#[trigger] calls[u], mc, mt) ==> exists|i: int| 0 <= i < src.len() && #[trigger] src[i] == u
}

proof fn lemma_hot_push(p: &MemoryProfiler, hs: Seq<HotPath>, src: Seq<int>, t: int, h: HotPath, mc: u64, mt: u64)
    requires
        0 <= t < p.spec_calls().len(),
        hot_inv(p, hs, src, t, mc, mt),
        is_hot(p.spec_calls()[t], mc, mt),
        h.function == p.spec_calls()[t].function,
        hot_path_of(p.spec_calls()[t], p.patterns_of(p.spec_calls()[t].function@), h),
    ensures
        hot_inv(p, hs.push(h), src.push(t), t + 1, mc, mt),
{
    reveal(hot_inv);
    let calls = p.spec_calls();
    let hs1 = hs.push(h);
    let src1 = src.push(t);
    assert forall|i: int| 0 <= i < hs1.len() implies 0 <= src1[i] < t + 1 && is_hot(calls[src1[i]], mc, mt)
        && (#[trigger] hs1[i]).function == calls[src1[i]].function && hot_path_of(
        calls[src1[i]],
        p.patterns_of(calls[src1[i]].function@),
        hs1[i],
    ) by {
        if i < hs.len() {
            assert(hs1[i] == hs[i]);
            assert(src1[i] == src[i]);
        }
    }
    assert forall|i: int, j: int| 0 <= i < j < hs1.len() implies #[trigger] src1[i] < #[trigger] src1[j] by {
        if j < hs.len() {
            assert(src1[i] == src[i]);
            assert(src1[j] == src[j]);
        } else {
            assert(src1[i] == src[i]);
            assert(hs[i].function == calls[src[i]].function);
        }
    }
    assert forall|u: int| 0 <= u < t + 1 && is_hot(#[trigger] calls[u], mc, mt) implies exists|i: int|
        0 <= i < src1.len() && #[trigger] src1[i] == u by {
        if u < t {
            let i = choose|i: int| 0 <= i < src.len() && #[trigger] src[i] == u;
            assert(src1[i] == src[i]);
        } else {
            assert(src1[src.len() as int] == t);
        }
    }
}

proof fn lemma_hot_skip(p: &MemoryProfiler, hs: Seq<HotPath>, src: Seq<int>, t: int, mc: u64, mt: u64)
    requires
        0 <= t < p.spec_calls().len(),
        hot_inv(p, hs, src, t, mc, mt),
        !is_hot(p.spec_calls()[t], mc, mt),
    ensures
        hot_inv(p, hs, src, t + 1, mc, mt),
{
    reveal(hot_inv);
    let calls = p.spec_calls();
    assert forall|u: int| 0 <= u < t + 1 && is_hot(#[trigger] calls[u], mc, mt) implies exists|i: int|
        0 <= i < src.len() && #[trigger] src[i] == u by {
        assert(u < t);
    }
}

/// `h` reports the record of a hot function of `p`.
pub open spec fn reports_hot_record(p: &MemoryProfiler, h: HotPath, mc: u64, mt: u64) -> bool {
    exists|t: int|
        0 <= t < p.spec_calls().len() && is_hot(#[trigger] p.spec_calls()[t], mc, mt) && hot_path_of(
            p.spec_calls()[t],
            p.patterns_of(p.spec_calls()[t].function@),
            h,
        )
}

/// Position of the record with the most calls (the first one on ties).
pub open spec fn most_called_index(s: Seq<FunctionCalls>) -> int
    decreases s.len(),
{
    if s.len() <= 1 {
        0
    } else {
        let i = most_called_index(s.drop_last());
        if s.last().call_count > s[i].call_count {
            s.len() - 1
        } else {
            i
        }
    }
}

/// The most called record is one of the records.
pub proof fn lemma_most_called_in_range(s: Seq<FunctionCalls>)
    requires
        s.len() > 0,
    ensures
        0 <= most_called_index(s) < s.len(),
    decreases s.len(),
{
    if s.len() > 1 {
        lemma_most_called_in_range(s.drop_last());
    }
}

/// The `k` most called records, most calls first, records with equal counts
/// in the order they were first recorded.
pub open spec fn top_by_calls(s: Seq<FunctionCalls>, k: nat) -> Seq<FunctionCalls>
    decreases k,
{
    if k == 0 || s.len() == 0 {
        Seq::empty()
    } else {
        let i = most_called_index(s);
        seq![s[i]] + top_by_calls(s.remove(i), (k - 1) as nat)
    }
}

/// What `identify_hot_paths` leaves in a profiler whose calls and patterns
/// are those of `p`: each hot path reports a hot function's record (count,
/// total and average time, predominant pattern), every hot function is
/// reported, no function twice, and the most time-consuming come first.
pub open spec fn hot_paths_report(p: &MemoryProfiler, hs: Seq<HotPath>, mc: u64, mt: u64) -> bool {
    &&& forall|i: int| 0 <= i < hs.len() ==> reports_hot_record(p, #[trigger] hs[i], mc, mt)
    &&& forall|t: int|
        0 <= t < p.spec_calls().len() && is_hot(#[trigger] p.spec_calls()[t], mc, mt) ==> exists|i: int|
            0 <= i < hs.len() && (#[trigger] hs[i]).function@ == p.spec_calls()[t].function@
    &&& names_distinct_hot(hs)
    &&& sorted_by_time_desc(hs)
    &&& ties_in_call_order(p, hs)
}

/// Hot paths with equal total times come in the order their functions were
/// first recorded.
pub open spec fn ties_in_call_order(p: &MemoryProfiler, hs: Seq<HotPath>) -> bool {
    forall|a: int, b: int|
        0 <= a < b < hs.len() && (#[trigger] hs[a]).total_time == (#[trigger] hs[b]).total_time ==> exists|
            ta: int,
            tb: int,
        |
            0 <= ta < tb < p.spec_calls().len() && (#[trigger] p.spec_calls()[ta]).function@ == hs[a].function@
                && (#[trigger] p.spec_calls()[tb]).function@ == hs[b].function@
}

/// Reordering the collected hot paths keeps what they report.
proof fn lemma_hot_report(
    p: &MemoryProfiler,
    unsorted: Seq<HotPath>,
    src: Seq<int>,
    sorted: Seq<HotPath>,
    perm: Seq<int>,
    mc: u64,
    mt: u64,
)
    requires
        hot_inv(p, unsorted, src, p.spec_calls().len() as int, mc, mt),
        names_distinct_hot(unsorted),
        sorted_prefix(unsorted, sorted, perm, unsorted.len() as int),
    ensures
        hot_paths_report(p, sorted, mc, mt),
{
    lemma_report_each(p, unsorted, src, sorted, perm, mc, mt);
    lemma_report_all(p, unsorted, src, sorted, perm, mc, mt);
    lemma_report_distinct(unsorted, sorted, perm);
    lemma_report_ties(p, unsorted, src, sorted, perm, mc, mt);
}

proof fn lemma_report_ties(
    p: &MemoryProfiler,
    unsorted: Seq<HotPath>,
    src: Seq<int>,
    sorted: Seq<HotPath>,
    perm: Seq<int>,
    mc: u64,
    mt: u64,
)
    requires
        hot_inv(p, unsorted, src, p.spec_calls().len() as int, mc, mt),
        sorted_prefix(unsorted, sorted, perm, unsorted.len() as int),
    ensures
        ties_in_call_order(p, sorted),
{
    reveal(hot_inv);
    reveal(sorted_prefix);
    let calls = p.spec_calls();
    assert forall|a: int, b: int|
        0 <= a < b < sorted.len() && (#[trigger] sorted[a]).total_time == (#[trigger] sorted[b]).total_time implies exists|
            ta: int,
            tb: int,
        |
            0 <= ta < tb < calls.len() && (#[trigger] calls[ta]).function@ == sorted[a].function@
                && (#[trigger] calls[tb]).function@ == sorted[b].function@ by {
        let ja = perm[a];
        let jb = perm[b];
        assert(ja < jb);
        assert(sorted[a] == unsorted[ja] && sorted[b] == unsorted[jb]);
        assert(unsorted[ja].function == calls[src[ja]].function);
        assert(unsorted[jb].function == calls[src[jb]].function);
        assert(src[ja] < src[jb]);
        assert(0 <= src[ja] && src[jb] < calls.len());
    }
}

proof fn lemma_report_each(
    p: &MemoryProfiler,
    unsorted: Seq<HotPath>,
    src: Seq<int>,
    sorted: Seq<HotPath>,
    perm: Seq<int>,
    mc: u64,
    mt: u64,
)
    requires
        hot_inv(p, unsorted, src, p.spec_calls().len() as int, mc, mt),
        sorted_prefix(unsorted, sorted, perm, unsorted.len() as int),
    ensures
        forall|i: int| 0 <= i < sorted.len() ==> reports_hot_record(p, #[trigger] sorted[i], mc, mt),
{
    reveal(hot_inv);
    reveal(sorted_prefix);
    let n = unsorted.len() as int;
    assert forall|i: int| 0 <= i < sorted.len() implies reports_hot_record(p, #[trigger] sorted[i], mc, mt) by {
        let j = perm[i];
        assert(0 <= j < n && sorted[i] == unsorted[j]);
        lemma_hot_source(p, unsorted, src, j, mc, mt);
    }
}

/// The record that the collected hot path `j` reports.
proof fn lemma_hot_source(p: &MemoryProfiler, hs: Seq<HotPath>, src: Seq<int>, j: int, mc: u64, mt: u64)
    requires
        hot_inv(p, hs, src, p.spec_calls().len() as int, mc, mt),
        0 <= j < hs.len(),
    ensures
        reports_hot_record(p, hs[j], mc, mt),
{
    reveal(hot_inv);
    let t = src[j];
    assert(hs[j].function == p.spec_calls()[t].function);
}

proof fn lemma_report_all(
    p: &MemoryProfiler,
    unsorted: Seq<HotPath>,
    src: Seq<int>,
    sorted: Seq<HotPath>,
    perm: Seq<int>,
    mc: u64,
    mt: u64,
)
    requires
        hot_inv(p, unsorted, src, p.spec_calls().len() as int, mc, mt),
        sorted_prefix(unsorted, sorted, perm, unsorted.len() as int),
    ensures
        forall|t: int|
            0 <= t < p.spec_calls().len() && is_hot(#[trigger] p.spec_calls()[t], mc, mt) ==> exists|i: int|
                0 <= i < sorted.len() && (#[trigger] sorted[i]).function@ == p.spec_calls()[t].function@,
{
    reveal(hot_inv);
    reveal(sorted_prefix);
    let n = unsorted.len() as int;
    assert forall|t: int| 0 <= t < p.spec_calls().len() && is_hot(#[trigger] p.spec_calls()[t], mc, mt) implies exists|i: int|
        0 <= i < sorted.len() && (#[trigger] sorted[i]).function@ == p.spec_calls()[t].function@ by {
        let j = choose|j: int| 0 <= j < src.len() && #[trigger] src[j] == t;
        assert(unsorted[j].function == p.spec_calls()[src[j]].function);
        assert(perm.contains(j));
        let i = choose|i: int| 0 <= i < n && #[trigger] perm[i] == j;
        assert(sorted[i] == unsorted[perm[i]]);
    }
}

proof fn lemma_report_distinct(unsorted: Seq<HotPath>, sorted: Seq<HotPath>, perm: Seq<int>)
    requires
        names_distinct_hot(unsorted),
        sorted_prefix(unsorted, sorted, perm, unsorted.len() as int),
    ensures
        names_distinct_hot(sorted),
        sorted_by_time_desc(sorted),
{
    reveal(sorted_prefix);
    assert forall|a: int, b: int| 0 <= a < sorted.len() && 0 <= b < sorted.len() && a != b implies (#[trigger] sorted[a]).function@
        != (#[trigger] sorted[b]).function@ by {
        assert(perm[a] != perm[b]);
        assert(sorted[a] == unsorted[perm[a]]);
        assert(sorted[b] == unsorted[perm[b]]);
    }
}

/// The hot paths reported by distinct records have distinct names.
proof fn lemma_hot_names_distinct(p: &MemoryProfiler, hs: Seq<HotPath>, src: Seq<int>, t: int, mc: u64, mt: u64)
    requires
        p.wf(),
        t <= p.spec_calls().len(),
        hot_inv(p, hs, src, t, mc, mt),
    ensures
        names_distinct_hot(hs),
{
    reveal(hot_inv);
    let calls = p.spec_calls();
    assert(names_distinct_calls(calls));
    assert forall|a: int, b: int| 0 <= a < hs.len() && 0 <= b < hs.len() && a != b implies (#[trigger] hs[a]).function@
        != (#[trigger] hs[b]).function@ by {
        assert(hs[a].function == calls[src[a]].function);
        assert(hs[b].function == calls[src[b]].function);
        if a < b {
            assert(src[a] < src[b]);
        } else {
            assert(src[b] < src[a]);
        }
    }
}

/// `h` reports the calls `r` with the average time per call and the
/// predominant pattern of the function's patterns `ps`.
#[verifier::opaque]
pub open spec fn hot_path_of(r: FunctionCalls, ps: Option<Seq<AccessPattern>>, h: HotPath) -> bool {
    &&& h.function == r.function
    &&& h.call_count == r.call_count
    &&& h.total_time == r.total_time
    &&& h.avg_time == r.total_time / (avg_divisor(r.call_count) as u128)
    &&& predominant(ps, h.access_pattern)
}

/// Most frequent element of a non-empty list (first among ties); `Random`
/// for an empty list.
fn most_frequent(ps: &Vec<AccessPattern>) -> (p: AccessPattern)
    ensures
        predominant(Some(ps@), p),
{
    let n = ps.len();
    if n == 0 {
        return AccessPattern::Random;
    }
    let mut best = ps[0];
    let mut best_count = count_of(ps, ps[0]);
    let mut i: usize = 1;
    while i < n
        invariant
            n == ps@.len(),
            1 <= i <= n,
            best_count == count_pattern(ps@, best),
            exists|j: int| 0 <= j < n && ps@[j] == best,
            forall|j: int| 0 <= j < i ==> count_pattern(ps@, #[trigger] ps@[j]) <= best_count,
        decreases n - i,
    {
        let c = count_of(ps, ps[i]);
        if c > best_count {
            best = ps[i];
            best_count = c;
        }
        i = i + 1;
    }
    best
}

/// Number of occurrences of `p` in `ps`.
fn count_of(ps: &Vec<AccessPattern>, p: AccessPattern) -> (c: usize)
    ensures
        c == count_pattern(ps@, p),
{
    let mut c: usize = 0;
    let mut i: usize = 0;
    while i < ps.len()
        invariant
            i <= ps@.len(),
            c == count_pattern(ps@.take(i as int), p),
            c <= i,
        decreases ps@.len() - i,
    {
        proof {
            assert(ps@.take(i + 1).drop_last() =~= ps@.take(i as int));
        }
        if ps[i] == p {
            c = c + 1;
        }
        i = i + 1;
    }
    proof {
        assert(ps@.take(i as int) =~= ps@);
    }
    c
}

/// `out` holds the first `k` items of `v` ordered by total time, longest
/// first, equal times in their order in `v`: `out[i]` is `v[perm[i]]`.
#[verifier::opaque]
pub open spec fn sorted_prefix(v: Seq<HotPath>, out: Seq<HotPath>, perm: Seq<int>, k: int) -> bool {
    &&& out.len() == k
    &&& perm.len() == k
    &&& forall|i: int| 0 <= i < k ==> 0 <= #[trigger] perm[i] < k && out[i] == v[perm[i]]
    &&& forall|i: int, j: int| 0 <= i < k && 0 <= j < k && i != j ==> #[trigger] perm[i] != #[trigger] perm[j]
    &&& forall|j: int| 0 <= j < k ==> #[trigger] perm.contains(j)
    &&& sorted_by_time_desc(out)
    &&& forall|a: int, b: int|
        0 <= a < b < k && (#[trigger] out[a]).total_time == (#[trigger] out[b]).total_time ==> perm[a] < perm[b]
}

proof fn lemma_insert_step(v: Seq<HotPath>, out: Seq<HotPath>, perm: Seq<int>, k: int, p: int)
    requires
        sorted_prefix(v, out, perm, k),
        0 <= k < v.len(),
        0 <= p <= k,
        forall|t: int| 0 <= t < p ==> (#[trigger] out[t]).total_time >= v[k].total_time,
        p < k ==> out[p].total_time < v[k].total_time,
    ensures
        sorted_prefix(v, out.insert(p, v[k]), perm.insert(p, k), k + 1),
{
    reveal(sorted_prefix);
    let h = v[k];
    let out1 = out.insert(p, h);
    let perm1 = perm.insert(p, k);
    out.insert_ensures(p, h);
    perm.insert_ensures(p, k);
    assert forall|i: int| 0 <= i < k + 1 implies 0 <= #[trigger] perm1[i] < k + 1 && out1[i] == v[perm1[i]] by {
        if i < p {
            assert(perm1[i] == perm[i] && out1[i] == out[i]);
        } else if i > p {
            assert(perm1[i] == perm[i - 1] && out1[i] == out[i - 1]);
        }
    }
    assert forall|i: int, j: int| 0 <= i < k + 1 && 0 <= j < k + 1 && i != j implies #[trigger] perm1[i]
        != #[trigger] perm1[j] by {
        let ii = if i < p { i } else { i - 1 };
        let jj = if j < p { j } else { j - 1 };
        if i == p {
            assert(perm1[j] == perm[jj]);
        } else if j == p {
            assert(perm1[i] == perm[ii]);
        } else {
            assert(perm1[i] == perm[ii] && perm1[j] == perm[jj]);
            assert(perm[ii] != perm[jj]);
        }
    }
    assert forall|j: int| 0 <= j < k + 1 implies #[trigger] perm1.contains(j) by {
        if j == k {
            assert(perm1[p] == k);
        } else {
            assert(perm.contains(j));
            let i0 = choose|i: int| 0 <= i < k && #[trigger] perm[i] == j;
            if i0 < p {
                assert(perm1[i0] == j);
            } else {
                assert(perm1[i0 + 1] == j);
            }
        }
    }
    assert forall|a: int, b: int| 0 <= a < b < out1.len() implies (#[trigger] out1[a]).total_time
        >= (#[trigger] out1[b]).total_time by {
        if b < p {
        } else if b == p {
        } else if a < p {
            assert(out1[b] == out[b - 1]);
        } else if a == p {
            assert(out1[b] == out[b - 1]);
            assert(out[p].total_time >= out[b - 1].total_time);
        } else {
            assert(out1[a] == out[a - 1]);
            assert(out1[b] == out[b - 1]);
        }
    }
    assert forall|a: int, b: int|
        0 <= a < b < k + 1 && (#[trigger] out1[a]).total_time == (#[trigger] out1[b]).total_time implies perm1[a]
        < perm1[b] by {
        if b < p {
        } else if b == p {
            assert(perm1[a] == perm[a]);
        } else if a < p {
            assert(out1[b] == out[b - 1] && perm1[b] == perm[b - 1]);
        } else if a == p {
            assert(out1[b] == out[b - 1]);
            assert(out[p].total_time >= out[b - 1].total_time);
        } else {
            assert(out1[a] == out[a - 1] && perm1[a] == perm[a - 1]);
            assert(out1[b] == out[b - 1] && perm1[b] == perm[b - 1]);
        }
    }
}

/// Sorts hot paths by total time, longest first, keeping the order of
/// equal times (insertion sort); the ghost result says where each came from.
fn sort_by_time_desc(v: Vec<HotPath>) -> (res: (Vec<HotPath>, Ghost<Seq<int>>))
    ensures
        sorted_prefix(v@, res.0@, res.1@, v@.len() as int),
{
    let mut out: Vec<HotPath> = Vec::new();
    let ghost mut perm: Seq<int> = Seq::empty();
    let n = v.len();
    let mut k: usize = 0;
    assert(sorted_prefix(v@, out@, perm, 0)) by {
        reveal(sorted_prefix);
    }
    while k < n
        invariant
            n == v@.len(),
            k <= n,
            out@.len() == k,
            sorted_prefix(v@, out@, perm, k as int),
        decreases n - k,
    {
        let h = v[k];
        let mut p: usize = 0;
        while p < out.len() && out[p].total_time >= h.total_time
            invariant
                p <= out@.len(),
                out@.len() == k,
                k < n,
                n == v@.len(),
                h == v@[k as int],
                forall|t: int| 0 <= t < p ==> (#[trigger] out@[t]).total_time >= h.total_time,
            decreases out@.len() - p,
        {
            p = p + 1;
        }
        proof {
            lemma_insert_step(v@, out@, perm, k as int, p as int);
            perm = perm.insert(p as int, k as int);
        }
        out.insert(p, h);
        proof {
            reveal(sorted_prefix);
        }
        k = k + 1;
    }
    (out, Ghost(perm))
}

/// Times one call of a function; its end is recorded with `finish`.
pub struct ProfileScope {
    function: &'static str,
    start: Instant,
}

impl ProfileScope {
    pub closed spec fn spec_function(&self) -> &'static str {
        self.function
    }

    pub fn new(function: &'static str) -> (s: Self)
        ensures
            s.spec_function() == function,
    {
        Self { function, start: now() }
    }

    /// Records the call with its elapsed time in the profiler; when the
    /// function's counters could not take it, records nothing and fails.
    pub fn finish(self, profiler: &mut MemoryProfiler) -> (r: EngineResult<()>)
        requires
            old(profiler).wf(),
        ensures
            final(profiler).wf(),
            final(profiler).spec_patterns() == old(profiler).spec_patterns(),
            final(profiler).spec_hot_paths() == old(profiler).spec_hot_paths(),
            r is Err ==> final(profiler).spec_calls() == old(profiler).spec_calls() && exists|d: u128|
                !old(profiler).recordable(self.spec_function()@, d),
            r is Ok ==> exists|d: u128|
                old(profiler).recordable(self.spec_function()@, d) && call_recorded(
                    old(profiler).spec_calls(),
                    final(profiler).spec_calls(),
                    self.spec_function(),
                    d,
                ),
    {
        let d = elapsed_nanos(&self.start);
        if profiler.can_record(self.function, d) {
            let r = profiler.record_function_call(self.function, d);
            proof {
                assert(old(profiler).recordable(self.spec_function()@, d) && call_recorded(
                    old(profiler).spec_calls(),
                    final(profiler).spec_calls(),
                    self.spec_function(),
                    d,
                ));
            }
            r
        } else {
            proof {
                assert(!old(profiler).recordable(self.spec_function()@, d));
            }
            Err(EngineError::Internal { message: String::from_str("profiler counters would overflow") })
        }
    }
}

/// Automatic scope profiler: measures the time from `new` to `finish`.
pub struct ScopeProfiler {
    name: &'static str,
    start: Instant,
}

impl ScopeProfiler {
    pub closed spec fn spec_name(&self) -> &'static str {
        self.name
    }

    pub fn new(name: &'static str) -> (s: Self)
        ensures
            s.spec_name() == name,
    {
        Self { name, start: now() }
    }

    /// The scope's name and the nanoseconds elapsed since it began.
    pub fn finish(self) -> (r: (&'static str, u128))
        ensures
            r.0 == self.spec_name(),
    {
        (self.name, elapsed_nanos(&self.start))
    }
}

} // verus!
