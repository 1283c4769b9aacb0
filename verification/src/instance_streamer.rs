//! Bookkeeping of triple-buffered instance streaming: which byte ranges of
//! the staging buffer are dirty, how they merge before a copy, and which of
//! the three GPU buffers a frame writes and renders from.
use vstd::prelude::*;

verus! {

/// A byte range `[offset, offset + size)` of the staging buffer.
#[derive(Clone, Copy, Debug, PartialEq, Eq, Structural)]
pub struct DirtyRange {
    pub offset: usize,
    pub size: usize,
}

pub open spec fn in_range(r: DirtyRange, p: int) -> bool {
    r.offset <= p < r.offset + r.size
}

/// Byte `p` lies in some range of `rs`.
pub open spec fn covered(rs: Seq<DirtyRange>, p: int) -> bool {
    exists|k: int| 0 <= k < rs.len() && #[trigger] in_range(rs[k], p)
}

/// Byte `p` lies in one of the first `n` ranges of `rs`.
pub open spec fn covered_prefix(rs: Seq<DirtyRange>, n: int, p: int) -> bool {
    exists|k: int| 0 <= k < n && #[trigger] in_range(rs[k], p)
}

/// Byte `p` lies in `[offset, offset + size]`: in the range or just
/// past its end, which is where a range of size zero sits.
pub open spec fn touches(r: DirtyRange, p: int) -> bool {
    r.offset <= p <= r.offset + r.size
}

/// Byte `p` is touched by some range of `rs`.
pub open spec fn touched(rs: Seq<DirtyRange>, p: int) -> bool {
    exists|k: int| 0 <= k < rs.len() && #[trigger] touches(rs[k], p)
}

/// Byte `p` is touched by one of the first `n` ranges of `rs`.
pub open spec fn touched_prefix(rs: Seq<DirtyRange>, n: int, p: int) -> bool {
    exists|k: int| 0 <= k < n && #[trigger] touches(rs[k], p)
}

/// `r` starts where one of the first `n` ranges of `rs` starts and ends
/// where one of them ends.
pub open spec fn drawn_from(r: DirtyRange, rs: Seq<DirtyRange>, n: int) -> bool {
    &&& exists|a: int| 0 <= a < n && (#[trigger] rs[a]).offset == r.offset
    &&& exists|b: int| 0 <= b < n && (#[trigger] rs[b]).offset + rs[b].size == r.offset + r.size
}

/// Every range ends within the address space.
pub open spec fn ends_fit(rs: Seq<DirtyRange>) -> bool {
    forall|k: int| 0 <= k < rs.len() ==> (#[trigger] rs[k]).offset + rs[k].size <= usize::MAX
}

pub open spec fn sorted_by_offset(rs: Seq<DirtyRange>) -> bool {
    forall|a: int, b: int| 0 <= a < b < rs.len() ==> (#[trigger] rs[a]).offset <= (#[trigger] rs[b]).offset
}

/// Ranges are in increasing order with a gap of at least one byte between
/// any two of them.
pub open spec fn separated(rs: Seq<DirtyRange>) -> bool {
    forall|a: int, b: int|
        0 <= a < b < rs.len() ==> (#[trigger] rs[a]).offset + rs[a].size < (#[trigger] rs[b]).offset
}

proof fn lemma_covered_prefix_step(rs: Seq<DirtyRange>, n: int, p: int)
    requires
        0 <= n < rs.len(),
    ensures
        covered_prefix(rs, n + 1, p) <==> (covered_prefix(rs, n, p) || in_range(rs[n], p)),
{
    if covered_prefix(rs, n + 1, p) {
        let t = choose|t: int| 0 <= t < n + 1 && #[trigger] in_range(rs[t], p);
        if t < n {
            assert(covered_prefix(rs, n, p));
        }
    }
    if covered_prefix(rs, n, p) {
        let t = choose|t: int| 0 <= t < n && #[trigger] in_range(rs[t], p);
        assert(covered_prefix(rs, n + 1, p));
    }
    if in_range(rs[n], p) {
        assert(covered_prefix(rs, n + 1, p));
    }
}

proof fn lemma_covered_push(rs: Seq<DirtyRange>, x: DirtyRange, p: int)
    ensures
        covered(rs.push(x), p) <==> (covered(rs, p) || in_range(x, p)),
{
    let rs1 = rs.push(x);
    if covered(rs1, p) {
        let t = choose|t: int| 0 <= t < rs1.len() && #[trigger] in_range(rs1[t], p);
        if t < rs.len() {
            assert(rs1[t] == rs[t]);
            assert(covered(rs, p));
        }
    }
    if covered(rs, p) {
        let t = choose|t: int| 0 <= t < rs.len() && #[trigger] in_range(rs[t], p);
        assert(rs1[t] == rs[t]);
        assert(covered(rs1, p));
    }
    if in_range(x, p) {
        assert(rs1[rs.len() as int] == x);
        assert(covered(rs1, p));
    }
}

proof fn lemma_covered_full(rs: Seq<DirtyRange>, p: int)
    ensures
        covered_prefix(rs, rs.len() as int, p) <==> covered(rs, p),
{
    if covered(rs, p) {
        let t = choose|t: int| 0 <= t < rs.len() && #[trigger] in_range(rs[t], p);
        assert(covered_prefix(rs, rs.len() as int, p));
    }
}

proof fn lemma_touched_prefix_step(rs: Seq<DirtyRange>, n: int, p: int)
    requires
        0 <= n < rs.len(),
    ensures
        touched_prefix(rs, n + 1, p) <==> (touched_prefix(rs, n, p) || touches(rs[n], p)),
{
    if touched_prefix(rs, n + 1, p) {
        let t = choose|t: int| 0 <= t < n + 1 && #[trigger] touches(rs[t], p);
        if t < n {
            assert(touched_prefix(rs, n, p));
        }
    }
    if touched_prefix(rs, n, p) {
        let t = choose|t: int| 0 <= t < n && #[trigger] touches(rs[t], p);
        assert(touched_prefix(rs, n + 1, p));
    }
    if touches(rs[n], p) {
        assert(touched_prefix(rs, n + 1, p));
    }
}

proof fn lemma_touched_push(rs: Seq<DirtyRange>, x: DirtyRange, p: int)
    ensures
        touched(rs.push(x), p) <==> (touched(rs, p) || touches(x, p)),
{
    let rs1 = rs.push(x);
    if touched(rs1, p) {
        let t = choose|t: int| 0 <= t < rs1.len() && #[trigger] touches(rs1[t], p);
        if t < rs.len() {
            assert(rs1[t] == rs[t]);
            assert(touched(rs, p));
        }
    }
    if touched(rs, p) {
        let t = choose|t: int| 0 <= t < rs.len() && #[trigger] touches(rs[t], p);
        assert(rs1[t] == rs[t]);
        assert(touched(rs1, p));
    }
    if touches(x, p) {
        assert(rs1[rs.len() as int] == x);
        assert(touched(rs1, p));
    }
}

proof fn lemma_touched_full(rs: Seq<DirtyRange>, p: int)
    ensures
        touched_prefix(rs, rs.len() as int, p) <==> touched(rs, p),
{
    if touched(rs, p) {
        let t = choose|t: int| 0 <= t < rs.len() && #[trigger] touches(rs[t], p);
        assert(touched_prefix(rs, rs.len() as int, p));
    }
}

/// Sorts ranges by offset (stable insertion sort).
fn sort_by_offset(ranges: Vec<DirtyRange>) -> (sorted: Vec<DirtyRange>)
    ensures
        sorted@.len() == ranges@.len(),
        sorted_by_offset(sorted@),
        forall|x: DirtyRange| sorted@.contains(x) <==> ranges@.contains(x),
{
    let mut out: Vec<DirtyRange> = Vec::new();
    let n = ranges.len();
    let mut k: usize = 0;
    while k < n
        invariant
            n == ranges@.len(),
            k <= n,
            out@.len() == k,
            sorted_by_offset(out@),
            forall|x: DirtyRange| out@.contains(x) <==> ranges@.take(k as int).contains(x),
        decreases n - k,
    {
        let r = ranges[k];
        let mut p: usize = 0;
        while p < out.len() && out[p].offset <= r.offset
            invariant
                p <= out@.len(),
                forall|t: int| 0 <= t < p ==> (#[trigger] out@[t]).offset <= r.offset,
            decreases out@.len() - p,
        {
            p = p + 1;
        }
        let ghost before = out@;
        out.insert(p, r);
        proof {
            before.insert_ensures(p as int, r);
            assert(p < before.len() ==> before[p as int].offset > r.offset);
            assert forall|a: int, b: int| 0 <= a < b < out@.len() implies (#[trigger] out@[a]).offset
                <= (#[trigger] out@[b]).offset by {
                if b < p {
                } else if b == p {
                } else if a < p {
                    assert(out@[b] == before[b - 1]);
                } else if a == p {
                    assert(out@[b] == before[b - 1]);
                    assert(before[p as int].offset <= before[b - 1].offset);
                } else {
                    assert(out@[a] == before[a - 1]);
                    assert(out@[b] == before[b - 1]);
                }
            }
            let taken = ranges@.take(k as int);
            assert(ranges@.take(k + 1) == taken.push(r));
            assert forall|x: DirtyRange| out@.contains(x) <==> ranges@.take(k + 1).contains(x) by {
                let tp = taken.push(r);
                if out@.contains(x) {
                    let t = choose|t: int| 0 <= t < out@.len() && out@[t] == x;
                    if t == p {
                        assert(tp[k as int] == x);
                    } else {
                        let u = if t < p { t } else { t - 1 };
                        assert(before[u] == x);
                        assert(before.contains(x));
                        assert(taken.contains(x));
                        let v = choose|v: int| 0 <= v < taken.len() && taken[v] == x;
                        assert(tp[v] == x);
                    }
                    assert(tp.contains(x));
                }
                if tp.contains(x) {
                    let t = choose|t: int| 0 <= t < tp.len() && tp[t] == x;
                    if t < k {
                        assert(taken[t] == x);
                        assert(taken.contains(x));
                        assert(before.contains(x));
                        let u = choose|u: int| 0 <= u < before.len() && before[u] == x;
                        if u < p {
                            assert(out@[u] == x);
                        } else {
                            assert(out@[u + 1] == x);
                        }
                    } else {
                        assert(out@[p as int] == x);
                    }
                    assert(out@.contains(x));
                }
            }
        }
        k = k + 1;
    }
    proof {
        assert(ranges@.take(n as int) == ranges@);
    }
    out
}

/// Coalesce overlapping dirty ranges: the result covers exactly the bytes
/// the input covers, in increasing order, with no two ranges touching; a
/// range that meets another (ranges of size zero included) merges with it,
/// so the result also touches exactly the bytes the input touches.
pub fn coalesce_ranges(ranges: Vec<DirtyRange>) -> (coalesced: Vec<DirtyRange>)
    requires
        ends_fit(ranges@),
    ensures
        forall|p: int| covered(coalesced@, p) <==> covered(ranges@, p),
        forall|p: int| touched(coalesced@, p) <==> touched(ranges@, p),
        separated(coalesced@),
        ends_fit(coalesced@),
        forall|k: int|
            0 <= k < coalesced@.len() ==> drawn_from(#[trigger] coalesced@[k], ranges@, ranges@.len() as int),
        coalesced@.len() <= ranges@.len(),
        (coalesced@.len() == 0) == (ranges@.len() == 0),
{
    if ranges.len() == 0 {
        return ranges;
    }
    let ghost orig = ranges@;
    let sorted = sort_by_offset(ranges);
    let ghost s = sorted@;
    proof {
        assert forall|k: int| 0 <= k < s.len() implies (#[trigger] s[k]).offset + s[k].size <= usize::MAX by {
            assert(s.contains(s[k]));
            let t = choose|t: int| 0 <= t < orig.len() && orig[t] == s[k];
        }
    }
    let n = sorted.len();
    let mut coalesced: Vec<DirtyRange> = Vec::new();
    let mut current = sorted[0];
    let mut k: usize = 1;
    proof {
        assert forall|p: int| (covered(coalesced@, p) || in_range(current, p)) <==> #[trigger] covered_prefix(
            s,
            1,
            p,
        ) by {
            lemma_covered_prefix_step(s, 0, p);
        }
        assert forall|p: int| (touched(coalesced@, p) || touches(current, p)) <==> #[trigger] touched_prefix(
            s,
            1,
            p,
        ) by {
            lemma_touched_prefix_step(s, 0, p);
        }
        assert(s[0].offset == current.offset);
        assert(drawn_from(current, s, 1));
    }
    while k < n
        invariant
            n == s.len(),
            s == sorted@,
            1 <= k <= n,
            sorted_by_offset(s),
            ends_fit(s),
            ends_fit(coalesced@),
            current.offset + current.size <= usize::MAX,
            current.offset <= s[k - 1].offset,
            separated(coalesced@),
            forall|t: int|
                0 <= t < coalesced@.len() ==> (#[trigger] coalesced@[t]).offset + coalesced@[t].size
                    < current.offset,
            coalesced@.len() < k,
            drawn_from(current, s, k as int),
            forall|t: int| 0 <= t < coalesced@.len() ==> drawn_from(#[trigger] coalesced@[t], s, k as int),
            forall|p: int|
                (covered(coalesced@, p) || in_range(current, p)) <==> #[trigger] covered_prefix(
                    s,
                    k as int,
                    p,
                ),
            forall|p: int|
                (touched(coalesced@, p) || touches(current, p)) <==> #[trigger] touched_prefix(
                    s,
                    k as int,
                    p,
                ),
        decreases n - k,
    {
        let range = sorted[k];
        let ghost old_out = coalesced@;
        let ghost old_cur = current;
        if range.offset <= current.offset + current.size {
            let cur_end = current.offset + current.size;
            let r_end = range.offset + range.size;
            let end = if cur_end >= r_end {
                cur_end
            } else {
                r_end
            };
            current.size = end - current.offset;
            proof {
                let a = choose|a: int| 0 <= a < k && (#[trigger] s[a]).offset == old_cur.offset;
                assert(s[a].offset == current.offset);
                if cur_end >= r_end {
                    let b = choose|b: int|
                        0 <= b < k && (#[trigger] s[b]).offset + s[b].size == old_cur.offset + old_cur.size;
                    assert(s[b].offset + s[b].size == current.offset + current.size);
                } else {
                    assert(s[k as int].offset + s[k as int].size == current.offset + current.size);
                }
                assert(drawn_from(current, s, k + 1));
                assert forall|t: int| 0 <= t < coalesced@.len() implies drawn_from(
                    #[trigger] coalesced@[t],
                    s,
                    k + 1,
                ) by {
                    let r = coalesced@[t];
                    let a = choose|a: int| 0 <= a < k && (#[trigger] s[a]).offset == r.offset;
                    let b = choose|b: int| 0 <= b < k && (#[trigger] s[b]).offset + s[b].size == r.offset + r.size;
                    assert(s[a].offset == r.offset);
                    assert(s[b].offset + s[b].size == r.offset + r.size);
                }
                assert forall|p: int|
                    (covered(coalesced@, p) || in_range(current, p)) <==> #[trigger] covered_prefix(
                        s,
                        k + 1,
                        p,
                    ) by {
                    lemma_covered_prefix_step(s, k as int, p);
                    assert((covered(old_out, p) || in_range(old_cur, p)) == covered_prefix(s, k as int, p));
                }
                assert forall|p: int|
                    (touched(coalesced@, p) || touches(current, p)) <==> #[trigger] touched_prefix(
                        s,
                        k + 1,
                        p,
                    ) by {
                    lemma_touched_prefix_step(s, k as int, p);
                    assert((touched(old_out, p) || touches(old_cur, p)) == touched_prefix(s, k as int, p));
                }
            }
        } else {
            coalesced.push(current);
            current = range;
            proof {
                assert(s[k as int].offset == current.offset);
                assert(s[k as int].offset + s[k as int].size == current.offset + current.size);
                assert(drawn_from(current, s, k + 1));
                assert forall|t: int| 0 <= t < coalesced@.len() implies drawn_from(
                    #[trigger] coalesced@[t],
                    s,
                    k + 1,
                ) by {
                    let r = coalesced@[t];
                    if t < old_out.len() {
                        assert(r == old_out[t]);
                    } else {
                        assert(r == old_cur);
                    }
                    let a = choose|a: int| 0 <= a < k && (#[trigger] s[a]).offset == r.offset;
                    let b = choose|b: int| 0 <= b < k && (#[trigger] s[b]).offset + s[b].size == r.offset + r.size;
                    assert(s[a].offset == r.offset);
                    assert(s[b].offset + s[b].size == r.offset + r.size);
                }
                assert forall|a: int, b: int|
                    0 <= a < b < coalesced@.len() implies (#[trigger] coalesced@[a]).offset
                        + coalesced@[a].size < (#[trigger] coalesced@[b]).offset by {
                    assert(coalesced@[a] == old_out.push(old_cur)[a]);
                    if b < old_out.len() {
                        assert(coalesced@[a] == old_out[a]);
                        assert(coalesced@[b] == old_out[b]);
                    } else if a < old_out.len() {
                        assert(coalesced@[a] == old_out[a]);
                    }
                }
                assert forall|t: int| 0 <= t < coalesced@.len() implies (#[trigger] coalesced@[t]).offset
                    + coalesced@[t].size < current.offset by {
                    if t < old_out.len() {
                        assert(coalesced@[t] == old_out[t]);
                    }
                }
                assert forall|t: int| 0 <= t < coalesced@.len() implies (#[trigger] coalesced@[t]).offset
                    + coalesced@[t].size <= usize::MAX by {
                    if t < old_out.len() {
                        assert(coalesced@[t] == old_out[t]);
                    }
                }
                assert forall|p: int|
                    (covered(coalesced@, p) || in_range(current, p)) <==> #[trigger] covered_prefix(
                        s,
                        k + 1,
                        p,
                    ) by {
                    lemma_covered_prefix_step(s, k as int, p);
                    lemma_covered_push(old_out, old_cur, p);
                    assert((covered(old_out, p) || in_range(old_cur, p)) == covered_prefix(s, k as int, p));
                }
                assert forall|p: int|
                    (touched(coalesced@, p) || touches(current, p)) <==> #[trigger] touched_prefix(
                        s,
                        k + 1,
                        p,
                    ) by {
                    lemma_touched_prefix_step(s, k as int, p);
                    lemma_touched_push(old_out, old_cur, p);
                    assert((touched(old_out, p) || touches(old_cur, p)) == touched_prefix(s, k as int, p));
                }
            }
        }
        k = k + 1;
    }
    let ghost old_out = coalesced@;
    coalesced.push(current);
    proof {
        assert forall|a: int, b: int|
            0 <= a < b < coalesced@.len() implies (#[trigger] coalesced@[a]).offset + coalesced@[a].size
                < (#[trigger] coalesced@[b]).offset by {
            assert(coalesced@[a] == old_out[a]);
            if b < old_out.len() {
                assert(coalesced@[b] == old_out[b]);
            }
        }
        assert forall|p: int| covered(coalesced@, p) <==> covered(orig, p) by {
            lemma_covered_push(old_out, current, p);
            lemma_covered_full(s, p);
            assert((covered(old_out, p) || in_range(current, p)) == covered_prefix(s, n as int, p));
            if covered(s, p) {
                let t = choose|t: int| 0 <= t < s.len() && #[trigger] in_range(s[t], p);
                assert(s.contains(s[t]));
                let v = choose|v: int| 0 <= v < orig.len() && orig[v] == s[t];
                assert(in_range(orig[v], p));
            }
            if covered(orig, p) {
                let v = choose|v: int| 0 <= v < orig.len() && #[trigger] in_range(orig[v], p);
                assert(orig.contains(orig[v]));
                let t = choose|t: int| 0 <= t < s.len() && s[t] == orig[v];
                assert(in_range(s[t], p));
            }
        }
        assert forall|p: int| touched(coalesced@, p) <==> touched(orig, p) by {
            lemma_touched_push(old_out, current, p);
            lemma_touched_full(s, p);
            assert((touched(old_out, p) || touches(current, p)) == touched_prefix(s, n as int, p));
            if touched(s, p) {
                let t = choose|t: int| 0 <= t < s.len() && #[trigger] touches(s[t], p);
                assert(s.contains(s[t]));
                let v = choose|v: int| 0 <= v < orig.len() && orig[v] == s[t];
                assert(touches(orig[v], p));
            }
            if touched(orig, p) {
                let v = choose|v: int| 0 <= v < orig.len() && #[trigger] touches(orig[v], p);
                assert(orig.contains(orig[v]));
                let t = choose|t: int| 0 <= t < s.len() && s[t] == orig[v];
                assert(touches(s[t], p));
            }
        }
        assert forall|t: int| 0 <= t < coalesced@.len() implies (#[trigger] coalesced@[t]).offset
            + coalesced@[t].size <= usize::MAX by {
            if t < old_out.len() {
                assert(coalesced@[t] == old_out[t]);
            }
        }
        assert forall|t: int| 0 <= t < coalesced@.len() implies drawn_from(
            #[trigger] coalesced@[t],
            orig,
            orig.len() as int,
        ) by {
            let r = coalesced@[t];
            if t < old_out.len() {
                assert(r == old_out[t]);
            } else {
                assert(r == current);
            }
            let a = choose|a: int| 0 <= a < n && (#[trigger] s[a]).offset == r.offset;
            let b = choose|b: int| 0 <= b < n && (#[trigger] s[b]).offset + s[b].size == r.offset + r.size;
            assert(s.contains(s[a]));
            assert(s.contains(s[b]));
            let a2 = choose|a2: int| 0 <= a2 < orig.len() && orig[a2] == s[a];
            let b2 = choose|b2: int| 0 <= b2 < orig.len() && orig[b2] == s[b];
            assert(orig[a2].offset == r.offset);
            assert(orig[b2].offset + orig[b2].size == r.offset + r.size);
        }
    }
    coalesced
}

/// CPU-side state of triple-buffered instance streaming: the frame's buffer
/// slot and the staging-buffer ranges written since the last flush.
pub struct StreamingSchedule {
    frame_index: usize,
    max_instances: usize,
    instance_size: usize,
    dirty_ranges: Vec<DirtyRange>,
}

impl StreamingSchedule {
    pub closed spec fn spec_frame_index(&self) -> usize {
        self.frame_index
    }

    pub closed spec fn spec_max_instances(&self) -> usize {
        self.max_instances
    }

    pub closed spec fn spec_instance_size(&self) -> usize {
        self.instance_size
    }

    /// Ranges recorded since the last flush, in recording order.
    pub closed spec fn spec_dirty(&self) -> Seq<DirtyRange> {
        self.dirty_ranges@
    }

    pub open spec fn staging_bytes(&self) -> int {
        self.spec_max_instances() * self.spec_instance_size()
    }

    /// The slot is one of three and every dirty range lies in the staging buffer.
    pub closed spec fn wf(&self) -> bool {
        &&& self.frame_index < 3
        &&& self.max_instances * self.instance_size <= usize::MAX
        &&& forall|k: int|
            0 <= k < self.dirty_ranges@.len() ==> (#[trigger] self.dirty_ranges@[k]).offset
                + self.dirty_ranges@[k].size <= self.max_instances * self.instance_size
    }

    /// Schedule for a staging buffer of `max_instances` records of
    /// `instance_size` bytes, starting at buffer slot 0 with nothing dirty.
    pub fn new(max_instances: usize, instance_size: usize) -> (st: Self)
        requires
            max_instances * instance_size <= usize::MAX,
        ensures
            st.wf(),
            st.spec_frame_index() == 0,
            st.spec_max_instances() == max_instances,
            st.spec_instance_size() == instance_size,
            st.spec_dirty() == Seq::<DirtyRange>::empty(),
    {
        StreamingSchedule { frame_index: 0, max_instances, instance_size, dirty_ranges: Vec::new() }
    }

    /// Size of the staging buffer in bytes.
    pub fn staging_size(&self) -> (n: usize)
        requires
            self.wf(),
        ensures
            n == self.staging_bytes(),
    {
        self.max_instances * self.instance_size
    }

    /// Records a write of instance `index`; returns the byte range to write,
    /// or `None` (recording nothing) when the index is out of bounds.
    pub fn update_instance(&mut self, index: usize) -> (r: Option<DirtyRange>)
        requires
            old(self).wf(),
        ensures
            final(self).wf(),
            final(self).spec_frame_index() == old(self).spec_frame_index(),
            final(self).spec_max_instances() == old(self).spec_max_instances(),
            final(self).spec_instance_size() == old(self).spec_instance_size(),
            index >= old(self).spec_max_instances() ==> r is None && final(self).spec_dirty()
                == old(self).spec_dirty(),
            index < old(self).spec_max_instances() ==> r == Some(
                DirtyRange {
                    offset: (index * old(self).spec_instance_size()) as usize,
                    size: old(self).spec_instance_size(),
                },
            ) && final(self).spec_dirty() == old(self).spec_dirty().push(r->0),
    {
        if index >= self.max_instances {
            return None;
        }
        proof {
            assert(index * self.instance_size + self.instance_size <= self.max_instances
                * self.instance_size) by (nonlinear_arith)
                requires index < self.max_instances;
        }
        let range = DirtyRange { offset: index * self.instance_size, size: self.instance_size };
        let ghost before = self.dirty_ranges@;
        self.dirty_ranges.push(range);
        proof {
            assert forall|k: int| 0 <= k < self.dirty_ranges@.len() implies (#[trigger] self.dirty_ranges@[k]).offset
                + self.dirty_ranges@[k].size <= self.max_instances * self.instance_size by {
                if k < before.len() {
                    assert(self.dirty_ranges@[k] == before[k]);
                }
            }
        }
        Some(range)
    }

    /// Records a write of `available` consecutive instances from
    /// `start_index`, cut at the end of the buffer; returns the byte range
    /// to write, or `None` when the start is out of bounds.
    pub fn update_instances(&mut self, start_index: usize, available: usize) -> (r: Option<
        DirtyRange,
    >)
        requires
            old(self).wf(),
        ensures
            final(self).wf(),
            final(self).spec_frame_index() == old(self).spec_frame_index(),
            final(self).spec_max_instances() == old(self).spec_max_instances(),
            final(self).spec_instance_size() == old(self).spec_instance_size(),
            start_index >= old(self).spec_max_instances() ==> r is None && final(self).spec_dirty()
                == old(self).spec_dirty(),
            start_index < old(self).spec_max_instances() ==> {
                let count = if old(self).spec_max_instances() - start_index <= available {
                    old(self).spec_max_instances() - start_index
                } else {
                    available as int
                };
                &&& r == Some(
                    DirtyRange {
                        offset: (start_index * old(self).spec_instance_size()) as usize,
                        size: (count * old(self).spec_instance_size()) as usize,
                    },
                )
                &&& final(self).spec_dirty() == old(self).spec_dirty().push(r->0)
            },
    {
        if start_index >= self.max_instances {
            return None;
        }
        let remaining = self.max_instances - start_index;
        let count = if remaining <= available { remaining } else { available };
        proof {
            assert(start_index * self.instance_size + count * self.instance_size <= self.max_instances
                * self.instance_size) by (nonlinear_arith)
                requires start_index + count <= self.max_instances;
            assert(count * self.instance_size <= self.max_instances * self.instance_size)
                by (nonlinear_arith)
                requires count <= self.max_instances;
        }
        let range = DirtyRange { offset: start_index * self.instance_size, size: count * self.instance_size };
        let ghost before = self.dirty_ranges@;
        self.dirty_ranges.push(range);
        proof {
            assert forall|k: int| 0 <= k < self.dirty_ranges@.len() implies (#[trigger] self.dirty_ranges@[k]).offset
                + self.dirty_ranges@[k].size <= self.max_instances * self.instance_size by {
                if k < before.len() {
                    assert(self.dirty_ranges@[k] == before[k]);
                }
            }
        }
        Some(range)
    }

    /// Ends a frame: with nothing dirty returns `None` and keeps the slot;
    /// otherwise returns the slot to copy into and the coalesced ranges to
    /// copy, clears the dirty list and moves on to the next slot.
    pub fn flush(&mut self) -> (plan: Option<(usize, Vec<DirtyRange>)>)
        requires
            old(self).wf(),
        ensures
            final(self).wf(),
            final(self).spec_max_instances() == old(self).spec_max_instances(),
            final(self).spec_instance_size() == old(self).spec_instance_size(),
            final(self).spec_dirty() == Seq::<DirtyRange>::empty(),
            old(self).spec_dirty().len() == 0 ==> plan is None && final(self).spec_frame_index()
                == old(self).spec_frame_index(),
            old(self).spec_dirty().len() > 0 ==> {
                &&& plan matches Some((slot, ranges))
                &&& slot == old(self).spec_frame_index()
                &&& final(self).spec_frame_index() == (old(self).spec_frame_index() + 1) % 3
                &&& separated(ranges@)
                &&& forall|p: int| covered(ranges@, p) <==> covered(old(self).spec_dirty(), p)
                &&& forall|k: int|
                    0 <= k < ranges@.len() ==> (#[trigger] ranges@[k]).offset + ranges@[k].size
                        <= old(self).staging_bytes()
            },
    {
        let mut taken: Vec<DirtyRange> = Vec::new();
        std::mem::swap(&mut taken, &mut self.dirty_ranges);
        if taken.len() == 0 {
            return None;
        }
        let ghost t = taken@;
        let bytes = self.max_instances * self.instance_size;
        let coalesced = coalesce_ranges(taken);
        proof {
            assert forall|k: int| 0 <= k < coalesced@.len() implies (#[trigger] coalesced@[k]).offset
                + coalesced@[k].size <= bytes by {
                let r = coalesced@[k];
                assert(drawn_from(r, t, t.len() as int));
                let b = choose|b: int| 0 <= b < t.len() && (#[trigger] t[b]).offset + t[b].size == r.offset + r.size;
                assert(t[b].offset + t[b].size <= bytes);
            }
        }
        let slot = self.frame_index;
        self.frame_index = (self.frame_index + 1) % 3;
        Some((slot, coalesced))
    }

    /// The slot rendered from this frame: the one written in the previous frame.
    pub fn current_buffer_index(&self) -> (i: usize)
        requires
            self.wf(),
        ensures
            i == (self.spec_frame_index() + 2) % 3,
    {
        (self.frame_index + 2) % 3
    }
}

} // verus!
