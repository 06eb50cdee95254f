//! Per-flow sequence accounting.
//!
//! The switch never buffers or reorders: it records. This module is the pure
//! classifier that the receive path drives.
use vstd::prelude::*;

verus! {

/// Frames arriving at most this far behind the expectation are late, not lost.
pub const REORDER_WINDOW: u32 = 1024;

/// A sequence number on the wire: a counter modulo 2^32.
///
/// Wrapping is part of the contract, so the arithmetic lives on the type and
/// no caller ever compares two of these with `<`.
#[derive(Clone, Copy, Debug, PartialEq, Eq, Hash, Structural)]
pub struct SeqNum(u32);

/// The ring distance `a - b`, folded to the shortest way around: positive
/// when `a` is ahead of `b`.
pub open spec fn ring_delta(a: int, b: int) -> int {
    let forward = (a - b) % 0x1_0000_0000;
    if forward < 0x8000_0000 {
        forward
    } else {
        forward - 0x1_0000_0000
    }
}

impl View for SeqNum {
    type V = int;

    closed spec fn view(&self) -> int {
        self.0 as int
    }
}

impl Default for SeqNum {
    fn default() -> (r: Self)
        ensures
            r@ == 0,
    {
        SeqNum(0)
    }
}

impl SeqNum {
    /// Wrap a raw counter value from the wire.
    #[must_use]
    pub fn new(raw: u32) -> (r: Self)
        ensures
            r@ == raw,
    {
        SeqNum(raw)
    }

    /// The raw counter value, for encoding.
    #[must_use]
    pub fn get(self) -> (r: u32)
        ensures
            r == self@,
    {
        self.0
    }

    /// The next value in the sequence, wrapping at 2^32.
    #[must_use]
    pub fn next(self) -> (r: Self)
        ensures
            r@ == (self@ + 1) % 0x1_0000_0000,
    {
        SeqNum(self.0.wrapping_add(1))
    }

    /// Signed distance `self - other`, interpreting the wrapped difference as
    /// the shortest path around the ring. Positive means `self` is ahead.
    #[must_use]
    pub fn delta(self, other: Self) -> (r: i32)
        ensures
            r == ring_delta(self@, other@),
    {
        let forward: u32 = self.0.wrapping_sub(other.0);
        proof {
            assert((forward as i32) as int == if forward < 0x8000_0000u32 {
                forward as int
            } else {
                forward - 0x1_0000_0000
            }) by (bit_vector);
        }
        forward as i32
    }

    /// Every sequence number is a 32-bit counter value, and the value is all
    /// there is to it.
    pub proof fn lemma_range(a: Self, b: Self)
        ensures
            0 <= a@ < 0x1_0000_0000,
            a@ == b@ ==> a == b,
    {
    }
}

/// What a received sequence number says about the flow.
///
/// Closed: the receive path matches exhaustively and every arm maps to exactly
/// one counter.
#[derive(Clone, Copy, Debug, PartialEq, Eq, Structural)]
pub enum SeqEvent {
    /// Exactly the expected number (or the first frame seen on this flow).
    InOrder,
    /// Ahead of expectation: this many frames were skipped.
    Gap(u32),
    /// Behind expectation: a late frame, or a peer that restarted its counter.
    Reorder,
}

/// Per-vport receive expectation.
///
/// `None` means "no frame seen yet", which is why the first frame can never be
/// misreported as a 4-billion-frame gap.
#[derive(Clone, Copy, Debug)]
pub struct SeqTracker {
    expected: Option<SeqNum>,
}

/// How a flow that expects `expected` classifies `seq`.
pub open spec fn classify(expected: Option<int>, seq: int) -> SeqEvent {
    match expected {
        None => SeqEvent::InOrder,
        Some(e) => {
            let delta = ring_delta(seq, e);
            if delta == 0 {
                SeqEvent::InOrder
            } else if delta > 0 {
                SeqEvent::Gap(delta as u32)
            } else {
                SeqEvent::Reorder
            }
        },
    }
}

/// What the flow expects after `seq`: a late frame within the reorder window
/// leaves the expectation alone, anything else moves it just past `seq`.
pub open spec fn expect_after(expected: Option<int>, seq: int) -> int {
    match expected {
        Some(e) if -REORDER_WINDOW <= ring_delta(seq, e) < 0 => e,
        _ => (seq + 1) % 0x1_0000_0000,
    }
}

impl View for SeqTracker {
    type V = Option<int>;

    closed spec fn view(&self) -> Option<int> {
        match self.expected {
            Some(e) => Some(e@),
            None => None,
        }
    }
}

impl Default for SeqTracker {
    fn default() -> (r: Self)
        ensures
            r@ == None::<int>,
    {
        SeqTracker { expected: None }
    }
}

impl SeqTracker {
    /// A tracker that has seen nothing.
    #[must_use]
    pub fn new() -> (r: Self)
        ensures
            r@ == None::<int>,
    {
        SeqTracker { expected: None }
    }

    /// The next sequence number this flow expects, if any frame has arrived.
    #[must_use]
    pub fn expected(&self) -> (r: Option<SeqNum>)
        ensures
            r is Some <==> self@ is Some,
            r is Some ==> r->0@ == self@->0,
    {
        self.expected
    }

    /// Classify `seq` and advance the expectation.
    ///
    /// A frame behind the expectation but within [`REORDER_WINDOW`] is late:
    /// the expectation is left alone so the frames still in flight ahead of it
    /// are not counted as a gap. A frame further behind than that is a peer
    /// that restarted (or a wrap-scale jump); the expectation resynchronizes so
    /// the flow does not report every subsequent frame as reordered forever.
    pub fn observe(&mut self, seq: SeqNum) -> (event: SeqEvent)
        ensures
            event == classify(old(self)@, seq@),
            final(self)@ == Some(expect_after(old(self)@, seq@)),
    {
        let expected = match self.expected {
            None => {
                self.expected = Some(seq.next());
                return SeqEvent::InOrder;
            },
            Some(expected) => expected,
        };
        let delta: i32 = seq.delta(expected);
        if delta == 0 {
            self.expected = Some(seq.next());
            SeqEvent::InOrder
        } else if delta > 0 {
            self.expected = Some(seq.next());
            SeqEvent::Gap(delta as u32)
        } else if -(delta as i64) <= REORDER_WINDOW as i64 {
            SeqEvent::Reorder
        } else {
            self.expected = Some(seq.next());
            SeqEvent::Reorder
        }
    }
}

/// An unbroken run is in order all the way: a frame that carries exactly the
/// expected number is in order, and the flow then expects its successor.
pub proof fn law_contiguous_run(e: int)
    requires
        0 <= e < 0x1_0000_0000,
    ensures
        classify(Some(e), e) == SeqEvent::InOrder,
        expect_after(Some(e), e) == (e + 1) % 0x1_0000_0000,
{
}

/// A gap reports exactly the number of missing frames, around the wrap too.
pub proof fn law_gap_counts_missing(e: int, missing: int)
    requires
        0 <= e < 0x1_0000_0000,
        0 < missing < 0x8000_0000,
    ensures
        classify(Some(e), (e + missing) % 0x1_0000_0000) == SeqEvent::Gap(missing as u32),
{
    assert(((e + missing) % 0x1_0000_0000 - e) % 0x1_0000_0000 == missing);
}

/// The reorder window's edge is exact: a frame `behind` places back is a
/// reorder either way, and the expectation survives it if and only if it is
/// inside the window.
pub proof fn law_reorder_window(e: int, behind: int)
    requires
        0 <= e < 0x1_0000_0000,
        0 < behind <= 0x8000_0000,
    ensures
        classify(Some(e), (e - behind) % 0x1_0000_0000) == SeqEvent::Reorder,
        behind <= REORDER_WINDOW ==> expect_after(Some(e), (e - behind) % 0x1_0000_0000) == e,
        behind > REORDER_WINDOW ==> expect_after(Some(e), (e - behind) % 0x1_0000_0000) == (e
            - behind + 1) % 0x1_0000_0000,
{
    let seq = (e - behind) % 0x1_0000_0000;
    assert(ring_delta(seq, e) == -behind);
}

/// The first frame of a flow is in order, whatever its number, and the flow
/// then expects the one behind it.
pub proof fn law_first_frame_is_in_order(seq: int)
    requires
        0 <= seq < 0x1_0000_0000,
    ensures
        classify(None, seq) == SeqEvent::InOrder,
        expect_after(None, seq) == (seq + 1) % 0x1_0000_0000,
{
}

/// The distance between two numbers is the short way round: stepping from `b`
/// by it leads to `a`, and it is never more than half the ring.
#[verifier::rlimit(40)]
pub proof fn law_distances_are_short(a: int, b: int)
    requires
        0 <= a < 0x1_0000_0000,
        0 <= b < 0x1_0000_0000,
    ensures
        (b + ring_delta(a, b)) % 0x1_0000_0000 == a,
        -0x8000_0000 <= ring_delta(a, b) < 0x8000_0000,
        ring_delta(a, b) == 0 <==> a == b,
{
}

/// A number late by at most 1024 places moves nothing; one that is later
/// restarts the flow behind it.
pub proof fn law_late_frames_leave_the_expectation(e: int, behind: int)
    requires
        0 <= e < 0x1_0000_0000,
        0 < behind <= 0x8000_0000,
    ensures
        expect_after(Some(e), (e - behind) % 0x1_0000_0000) == (if behind <= 1024 {
            e
        } else {
            (e - behind + 1) % 0x1_0000_0000
        }),
{
    law_reorder_window(e, behind);
}

/// A frame ahead of the expectation moves it just past itself, so no missing
/// frame is counted twice.
pub proof fn law_gaps_are_counted_once(e: int, missing: int)
    requires
        0 <= e < 0x1_0000_0000,
        0 < missing < 0x8000_0000,
    ensures
        expect_after(Some(e), (e + missing) % 0x1_0000_0000) == (e + missing + 1) % 0x1_0000_0000,
{
    assert(((e + missing) % 0x1_0000_0000 - e) % 0x1_0000_0000 == missing);
}

} // verus!
