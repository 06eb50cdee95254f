//! Transmit staging.
//!
//! Each destination vport owns one preallocated, contiguous buffer. Staging a
//! frame appends `[overlay header][inner frame]` to it, which is the layout a
//! segmented write wants, so a batch of same-size frames leaves as one system
//! call. The queue is bounded by construction: staging past [`TX_BATCH`]
//! segments is impossible, not merely unlikely.
use crate::headers::write_at;
use crate::socket::{GSO_MAX_BYTES, TX_BATCH};
use crate::wire::OVERLAY_HDR_LEN;
use vstd::prelude::*;

verus! {

/// One span of a staging buffer that can leave as a single segmented
/// datagram: a maximal run of equal-length segments, optionally ending in one
/// shorter segment.
#[derive(Clone, Copy, Debug, PartialEq, Eq, Structural)]
pub struct Run {
    /// Byte offset of the run within the staging buffer.
    pub start: usize,
    /// End offset, exclusive.
    pub end: usize,
    /// Segments in the run.
    pub count: usize,
    /// The segment size to advertise; the final segment may be shorter.
    pub segment_size: usize,
}

/// The bytes of the first `n` segments.
pub open spec fn total(lens: Seq<u16>, n: int) -> int
    decreases n,
{
    if n <= 0 {
        0
    } else {
        total(lens, n - 1) + lens[n - 1]
    }
}

/// What a queue holds: its segments back to back, and the length of each.
#[verifier::ext_equal]
pub struct TxModel {
    pub bytes: Seq<u8>,
    pub lens: Seq<u16>,
}

impl TxModel {
    /// Nothing staged.
    pub open spec fn empty() -> TxModel {
        TxModel { bytes: Seq::empty(), lens: Seq::empty() }
    }

    /// Whether another segment would exceed the batch bound.
    pub open spec fn is_full(self) -> bool {
        self.lens.len() >= TX_BATCH
    }

    /// The queue with one more segment.
    pub open spec fn pushed(self, hdr: Seq<u8>, frame: Seq<u8>) -> TxModel {
        TxModel {
            bytes: self.bytes + hdr + frame,
            lens: self.lens.push((hdr.len() + frame.len()) as u16),
        }
    }

    /// Inner bytes staged, excluding overlay headers.
    pub open spec fn inner_bytes(self) -> int {
        self.bytes.len() - self.lens.len() * OVERLAY_HDR_LEN
    }
}

/// Whether `n` segments from `from` on make one segmented datagram: all as
/// long as the first but for a shorter last one, at most `max` of them, and
/// more than one only if together they fit in one write.
pub open spec fn is_run(lens: Seq<u16>, from: int, n: int, max: int) -> bool {
    &&& 1 <= n <= max
    &&& 0 <= from
    &&& from + n <= lens.len()
    &&& forall|i: int| from <= i < from + n - 1 ==> #[trigger] lens[i] == lens[from]
    &&& lens[from + n - 1] <= lens[from]
    &&& n > 1 ==> total(lens, from + n) - total(lens, from) <= GSO_MAX_BYTES
}

/// Whether `r` is the longest run that starts with segment `from`.
pub open spec fn is_run_at(lens: Seq<u16>, from: int, max: int, r: Run) -> bool {
    &&& is_run(lens, from, r.count as int, max)
    &&& !is_run(lens, from, r.count + 1, max)
    &&& r.start == total(lens, from)
    &&& r.end == total(lens, from + r.count)
    &&& r.segment_size == lens[from]
}

/// The segments of the first `n` runs.
pub open spec fn segments(runs: Seq<Run>, n: int) -> int
    decreases n,
{
    if n <= 0 {
        0
    } else {
        segments(runs, n - 1) + runs[n - 1].count
    }
}

/// Whether `runs` cover the segments from `from` up to `to`, each the longest
/// run where the one before it ended.
pub open spec fn are_runs(lens: Seq<u16>, from: int, to: int, max: int, runs: Seq<Run>) -> bool {
    &&& forall|i: int|
        0 <= i < runs.len() ==> is_run_at(lens, from + segments(runs, i), max, #[trigger] runs[i])
    &&& from + segments(runs, runs.len() as int) == to
}

/// The number of segments in one write, for a reported offload limit.
pub open spec fn at_least_one(max_segments: int) -> int {
    if max_segments < 1 {
        1
    } else {
        max_segments
    }
}

/// One destination's staged segments.
#[derive(Debug)]
pub struct TxQueue {
    buf: Vec<u8>,
    lens: Vec<u16>,
    used: usize,
    seg_len: usize,
}

impl View for TxQueue {
    type V = TxModel;

    closed spec fn view(&self) -> TxModel {
        TxModel { bytes: self.buf@.subrange(0, self.used as int), lens: self.lens@ }
    }
}

impl TxQueue {
    /// The buffer has room for a full batch, and the staged segments are
    /// exactly what is used of it.
    pub closed spec fn wf(&self) -> bool {
        &&& self.seg_len >= OVERLAY_HDR_LEN
        &&& self.buf@.len() == TX_BATCH * self.seg_len
        &&& self.lens@.len() <= TX_BATCH
        &&& self.used == total(self.lens@, self.lens@.len() as int)
        &&& forall|i: int|
            0 <= i < self.lens@.len() ==> OVERLAY_HDR_LEN <= #[trigger] self.lens@[i]
                <= self.seg_len
    }

    /// Largest segment this queue accepts.
    pub closed spec fn spec_seg_len(&self) -> int {
        self.seg_len as int
    }

    /// The whole buffer, with what is staged in front.
    pub closed spec fn spec_storage(&self) -> Seq<u8> {
        self.buf@
    }

    /// A queue that can hold [`TX_BATCH`] segments of `inner_mtu` bytes each.
    #[must_use]
    pub fn new(inner_mtu: usize) -> (r: Self)
        requires
            TX_BATCH * (OVERLAY_HDR_LEN + inner_mtu) <= usize::MAX,
        ensures
            r.wf(),
            r@ == TxModel::empty(),
            r.spec_seg_len() == OVERLAY_HDR_LEN + inner_mtu,
    {
        let seg: usize = OVERLAY_HDR_LEN + inner_mtu;
        let r = TxQueue { buf: vec![0u8; TX_BATCH * seg], lens: Vec::new(), used: 0, seg_len: seg };
        assert(r@ =~= TxModel::empty());
        r
    }

    /// What every well-formed queue keeps: at most a batch of segments, each
    /// with its overlay header and no longer than the queue accepts.
    pub proof fn lemma_bounds(&self)
        requires
            self.wf(),
        ensures
            self@.lens.len() <= TX_BATCH,
            self@.bytes.len() == total(self@.lens, self@.lens.len() as int),
            self@.bytes.len() <= usize::MAX,
            self@.lens.len() * OVERLAY_HDR_LEN <= self@.bytes.len(),
            forall|i: int|
                0 <= i < self@.lens.len() ==> OVERLAY_HDR_LEN <= #[trigger] self@.lens[i]
                    <= self.spec_seg_len(),
    {
        lemma_total_bounds(self.lens@, self.lens@.len() as int, self.seg_len as int);
        lemma_room(self.lens@.len() as int, self.seg_len as int);
    }

    /// Largest segment this queue accepts.
    #[must_use]
    pub fn seg_len(&self) -> (r: usize)
        ensures
            r == self.spec_seg_len(),
    {
        self.seg_len
    }

    /// Segments staged.
    #[must_use]
    pub fn len(&self) -> (r: usize)
        ensures
            r == self@.lens.len(),
    {
        self.lens.len()
    }

    /// Whether nothing is staged.
    #[must_use]
    pub fn is_empty(&self) -> (r: bool)
        ensures
            r == (self@.lens.len() == 0),
    {
        self.lens.len() == 0
    }

    /// Whether another segment would exceed the batch bound.
    #[must_use]
    pub fn is_full(&self) -> (r: bool)
        ensures
            r == self@.is_full(),
    {
        self.lens.len() >= TX_BATCH
    }

    /// The staged bytes.
    #[must_use]
    pub fn bytes(&self) -> (r: &[u8])
        requires
            self.wf(),
        ensures
            r@ == self@.bytes,
    {
        proof {
            lemma_total_bounds(self.lens@, self.lens@.len() as int, self.seg_len as int);
            lemma_room(self.lens@.len() as int, self.seg_len as int);
        }
        &self.buf.as_slice()[0..self.used]
    }

    /// Inner bytes staged, excluding overlay headers.
    #[must_use]
    pub fn inner_bytes(&self) -> (r: usize)
        requires
            self.wf(),
        ensures
            r == self@.inner_bytes(),
    {
        proof {
            lemma_total_bounds(self.lens@, self.lens@.len() as int, self.seg_len as int);
            lemma_room(self.lens@.len() as int, self.seg_len as int);
        }
        self.used - self.lens.len() * OVERLAY_HDR_LEN
    }

    /// Append one segment.
    ///
    /// Returns `false`, without staging anything, when the queue is full or
    /// the segment is longer than the queue accepts or than a datagram can be.
    /// Both are the caller's cue to flush or to count a drop.
    pub fn push(&mut self, hdr: &[u8; 12], frame: &[u8]) -> (r: bool)
        requires
            old(self).wf(),
        ensures
            final(self).wf(),
            final(self).spec_seg_len() == old(self).spec_seg_len(),
            r == (!old(self)@.is_full() && hdr@.len() + frame@.len() <= old(self).spec_seg_len()
                && hdr@.len() + frame@.len() <= u16::MAX),
            r ==> final(self)@ == old(self)@.pushed(hdr@, frame@),
            !r ==> final(self)@ == old(self)@,
    {
        proof {
            lemma_total_bounds(self.lens@, self.lens@.len() as int, self.seg_len as int);
            lemma_room(self.lens@.len() as int, self.seg_len as int);
        }
        if self.lens.len() >= TX_BATCH || frame.len() > self.seg_len - OVERLAY_HDR_LEN || frame.len()
            > 65535 - OVERLAY_HDR_LEN {
            return false;
        }
        let len: usize = OVERLAY_HDR_LEN + frame.len();
        let ghost before = self.buf@;
        proof {
            lemma_room(self.lens@.len() as int + 1, self.seg_len as int);
            assert(self.buf@.len() == self.buf.len());
        }
        let at: usize = self.used;
        write_at(self.buf.as_mut_slice(), at, hdr.as_slice());
        write_at(self.buf.as_mut_slice(), at + OVERLAY_HDR_LEN, frame);
        self.used = at + len;
        self.lens.push(len as u16);
        proof {
            lemma_total_prefix(old(self).lens@, self.lens@, old(self).lens@.len() as int);
            assert(self.buf@.subrange(0, self.used as int) =~= before.subrange(0, at as int) + hdr@
                + frame@);
        }
        true
    }

    /// Forget everything staged. The buffer itself is retained.
    pub fn clear(&mut self)
        requires
            old(self).wf(),
        ensures
            final(self).wf(),
            final(self)@ == TxModel::empty(),
            final(self).spec_seg_len() == old(self).spec_seg_len(),
            final(self).spec_storage() == old(self).spec_storage(),
    {
        self.used = 0;
        self.lens.clear();
        assert(self@ =~= TxModel::empty());
    }

    /// The spans covering what is staged.
    ///
    /// A span is bounded twice: by `max_segments`, which the kernel reports,
    /// and by [`GSO_MAX_BYTES`], which is what a single segmented write can
    /// carry at all.
    #[must_use]
    pub fn runs(&self, max_segments: usize) -> (r: Runs<'_>)
        requires
            self.wf(),
        ensures
            r.wf(),
            r.spec_lens() == self@.lens,
            r.spec_max() == at_least_one(max_segments as int),
            r.spec_next() == 0,
    {
        proof {
            self.lemma_bounds();
        }
        Runs {
            lens: self.lens.as_slice(),
            max: if max_segments < 1 {
                1
            } else {
                max_segments
            },
            next: 0,
            offset: 0,
        }
    }
}

/// Walks a queue's spans. See [`TxQueue::runs`].
#[derive(Debug)]
pub struct Runs<'a> {
    lens: &'a [u16],
    max: usize,
    next: usize,
    offset: usize,
}

impl<'a> Runs<'a> {
    /// The walk stands at a segment boundary of a buffer that fits in memory.
    pub closed spec fn wf(&self) -> bool {
        &&& self.max >= 1
        &&& self.next <= self.lens@.len()
        &&& self.offset == total(self.lens@, self.next as int)
        &&& total(self.lens@, self.lens@.len() as int) <= usize::MAX
    }

    /// The segments' lengths.
    pub closed spec fn spec_lens(&self) -> Seq<u16> {
        self.lens@
    }

    /// Segments a span may have.
    pub closed spec fn spec_max(&self) -> int {
        self.max as int
    }

    /// The first segment that no span covers yet.
    pub closed spec fn spec_next(&self) -> int {
        self.next as int
    }

    /// The next span, the longest that starts where the last one ended.
    #[must_use]
    pub fn next(&mut self) -> (r: Option<Run>)
        requires
            old(self).wf(),
        ensures
            final(self).wf(),
            final(self).spec_lens() == old(self).spec_lens(),
            final(self).spec_max() == old(self).spec_max(),
            r is None <==> old(self).spec_next() >= old(self).spec_lens().len(),
            r is None ==> final(self).spec_next() == old(self).spec_next(),
            r matches Some(run) ==> is_run_at(
                old(self).spec_lens(),
                old(self).spec_next(),
                old(self).spec_max(),
                run,
            ) && final(self).spec_next() == old(self).spec_next() + run.count,
    {
        if self.next >= self.lens.len() {
            return None;
        }
        let ghost lens = self.lens@;
        let ghost from = self.next as int;
        let first: u16 = self.lens[self.next];
        let start: usize = self.offset;
        let mut count: usize = 0;
        let mut ended: bool = false;
        while !ended && count < self.max && self.next < self.lens.len()
            invariant
                self.wf(),
                lens == self.lens@,
                self.max == old(self).max,
                0 <= from < lens.len(),
                self.next == from + count,
                first == lens[from],
                start == total(lens, from),
                count <= self.max,
                count == 0 ==> !ended,
                count > 0 ==> is_run(lens, from, count as int, self.max as int),
                !ended ==> forall|i: int| from <= i < from + count ==> #[trigger] lens[i] == first,
                ended ==> !is_run(lens, from, count + 1, self.max as int),
            ensures
                count >= 1,
                !is_run(lens, from, count + 1, self.max as int),
            decreases lens.len() - self.next, if ended {
                0int
            } else {
                1int
            },
        {
            let len: u16 = self.lens[self.next];
            proof {
                lemma_total_grows(lens, from, self.next as int);
                lemma_total_grows(lens, self.next + 1, lens.len() as int);
                assert(total(lens, self.next + 1) == total(lens, self.next as int) + len);
            }
            if count > 0 && self.offset - start + len as usize > GSO_MAX_BYTES {
                ended = true;
            } else if len > first {
                ended = true;
            } else {
                self.offset = self.offset + len as usize;
                self.next = self.next + 1;
                count = count + 1;
                if len < first {
                    ended = true;
                    assert(lens[from + count - 1] != lens[from]);
                }
            }
        }
        Some(Run { start, end: self.offset, count, segment_size: first as usize })
    }

    /// Every remaining span, in order.
    #[must_use]
    pub fn collect(self) -> (r: Vec<Run>)
        requires
            self.wf(),
        ensures
            are_runs(
                self.spec_lens(),
                self.spec_next(),
                self.spec_lens().len() as int,
                self.spec_max(),
                r@,
            ),
    {
        let mut walk = self;
        let mut out: Vec<Run> = Vec::new();
        let ghost lens = self.lens@;
        let ghost from = self.next as int;
        let ghost max = self.max as int;
        while walk.next < walk.lens.len()
            invariant
                walk.wf(),
                walk.lens@ == lens,
                walk.max == max,
                are_runs(lens, from, walk.next as int, max, out@),
            decreases lens.len() - walk.next,
        {
            let ghost before = out@;
            match walk.next() {
                Some(run) => {
                    out.push(run);
                    proof {
                        lemma_segments_prefix(before, out@, before.len() as int);
                        assert forall|i: int| 0 <= i < out@.len() implies is_run_at(
                            lens,
                            from + segments(out@, i),
                            max,
                            #[trigger] out@[i],
                        ) by {
                            lemma_segments_prefix(before, out@, i);
                            if i < before.len() {
                                assert(out@[i] == before[i]);
                            }
                        }
                    }
                },
                None => {},
            }
        }
        out
    }
}

proof fn lemma_total_bounds(lens: Seq<u16>, n: int, cap: int)
    requires
        0 <= n <= lens.len(),
        forall|i: int| 0 <= i < lens.len() ==> OVERLAY_HDR_LEN <= #[trigger] lens[i] <= cap,
    ensures
        n * OVERLAY_HDR_LEN <= total(lens, n) <= n * cap,
    decreases n,
{
    if n > 0 {
        lemma_total_bounds(lens, n - 1, cap);
        assert(lens[n - 1] <= cap);
        assert((n - 1) * cap + cap == n * cap) by (nonlinear_arith);
    } else {
        assert(n * cap == 0) by (nonlinear_arith)
            requires
                n == 0,
        ;
    }
}

proof fn lemma_room(n: int, seg_len: int)
    requires
        0 <= n <= TX_BATCH,
        0 <= seg_len,
    ensures
        n * seg_len <= TX_BATCH * seg_len,
        (n - 1) * seg_len + seg_len == n * seg_len,
{
    assert((n - 1) * seg_len + seg_len == n * seg_len) by (nonlinear_arith);
    assert(n * seg_len <= 64 * seg_len) by (nonlinear_arith)
        requires
            0 <= n <= 64,
            0 <= seg_len,
    ;
}

proof fn lemma_total_prefix(a: Seq<u16>, b: Seq<u16>, n: int)
    requires
        0 <= n <= a.len(),
        n <= b.len(),
        forall|i: int| 0 <= i < n ==> a[i] == b[i],
    ensures
        total(a, n) == total(b, n),
    decreases n,
{
    if n > 0 {
        lemma_total_prefix(a, b, n - 1);
    }
}

proof fn lemma_total_grows(lens: Seq<u16>, i: int, j: int)
    requires
        0 <= i <= j <= lens.len(),
    ensures
        0 <= total(lens, i) <= total(lens, j),
    decreases j,
{
    if i < j {
        lemma_total_grows(lens, i, j - 1);
    } else if i > 0 {
        lemma_total_grows(lens, i - 1, i - 1);
    }
}

proof fn lemma_segments_prefix(a: Seq<Run>, b: Seq<Run>, n: int)
    requires
        0 <= n <= a.len(),
        n <= b.len(),
        forall|i: int| 0 <= i < n ==> a[i] == b[i],
    ensures
        segments(a, n) == segments(b, n),
    decreases n,
{
    if n > 0 {
        lemma_segments_prefix(a, b, n - 1);
    }
}

/// A run that may be longer may also be shorter, so the longest run at a
/// place is the only one that cannot grow.
pub proof fn law_runs_shrink(lens: Seq<u16>, from: int, n: int, m: int, max: int)
    requires
        is_run(lens, from, n, max),
        1 <= m <= n,
    ensures
        is_run(lens, from, m, max),
{
    lemma_total_grows(lens, from + m, from + n);
    if m < n {
        assert(lens[from + m - 1] == lens[from]);
    }
}

/// The runs of a queue partition its buffer: the first starts at its front,
/// each starts where the one before it ended, and the last ends at its back.
pub proof fn law_runs_partition_the_buffer(
    lens: Seq<u16>,
    max: int,
    runs: Seq<Run>,
    i: int,
)
    requires
        are_runs(lens, 0, lens.len() as int, max, runs),
        0 <= i < runs.len(),
    ensures
        i == 0 ==> runs[i].start == 0,
        i > 0 ==> runs[i].start == runs[i - 1].end,
        i == runs.len() - 1 ==> runs[i].end == total(lens, lens.len() as int),
{
    assert(is_run_at(lens, segments(runs, i), max, runs[i]));
    assert(segments(runs, i + 1) == segments(runs, i) + runs[i].count);
    if i > 0 {
        assert(is_run_at(lens, segments(runs, i - 1), max, runs[i - 1]));
        assert(segments(runs, i) == segments(runs, i - 1) + runs[i - 1].count);
    }
}

/// No run exceeds the reported segment limit, and none of several segments
/// exceeds what one segmented write can carry.
pub proof fn law_runs_are_bounded(lens: Seq<u16>, max: int, runs: Seq<Run>, i: int)
    requires
        are_runs(lens, 0, lens.len() as int, max, runs),
        0 <= i < runs.len(),
    ensures
        1 <= runs[i].count <= max,
        runs[i].count > 1 ==> runs[i].end - runs[i].start <= GSO_MAX_BYTES,
{
    assert(is_run_at(lens, segments(runs, i), max, runs[i]));
}

/// What leaves in one write: every segment of a run but the last is exactly as
/// long as the size that is advertised, the last is no longer, and the bytes of
/// a run of several fit in a datagram.
pub proof fn law_a_run_is_uniform(lens: Seq<u16>, from: int, max: int, r: Run, k: int)
    requires
        is_run_at(lens, from, max, r),
        0 <= k < r.count,
    ensures
        0 <= from + k < lens.len(),
        k < r.count - 1 ==> lens[from + k] == r.segment_size,
        lens[from + k] <= r.segment_size,
        r.count > 1 ==> r.end - r.start <= 65507,
        r.count <= max,
{
    if k < r.count - 1 {
        assert(lens[from + k] == lens[from]);
    }
}

/// A run stops only where it must: at the limit, at the end of the batch,
/// behind a shorter segment, in front of a longer one, or where one more would
/// not fit in a datagram.
pub proof fn law_a_run_is_the_longest(lens: Seq<u16>, from: int, max: int, r: Run)
    requires
        is_run_at(lens, from, max, r),
        r.count < max,
        from + r.count < lens.len(),
    ensures
        lens[from + r.count - 1] < r.segment_size || lens[from + r.count] > r.segment_size
            || r.end - r.start + lens[from + r.count] > 65507,
{
    let n = r.count + 1;
    if lens[from + r.count - 1] == lens[from] && lens[from + r.count] <= lens[from] && r.end
        - r.start + lens[from + r.count] <= 65507 {
        assert(total(lens, from + n) == total(lens, from + r.count) + lens[from + r.count]);
        assert(is_run(lens, from, n, max));
    }
}

/// The bytes of a batch that are charged to a vport are those of its frames:
/// the segments without their twelve bytes of header.
pub proof fn law_inner_bytes_leave_headers_out(q: TxModel, hdr: Seq<u8>, frame: Seq<u8>)
    requires
        hdr.len() == 12,
    ensures
        TxModel::empty().inner_bytes() == 0,
        q.pushed(hdr, frame).inner_bytes() == q.inner_bytes() + frame.len(),
        q.pushed(hdr, frame).bytes.len() == q.bytes.len() + 12 + frame.len(),
        q.pushed(hdr, frame).lens.len() == q.lens.len() + 1,
        q.is_full() <==> q.lens.len() >= 64,
{
}

} // verus!
