//! The load generator.
//!
//! A generator is a *peer*: it speaks the same overlay format a node does, so
//! a node cannot tell it from another switch. It reports what it achieved
//! rather than what it was asked for.
//!
//! Loss is derived from the overlay sequence numbers, not from arrival counts,
//! so a run reports *where* frames went missing rather than only how many.
use crate::bytes::be16;
use crate::bytes::be32;
use crate::clock::delta_us;
use crate::metrics::wrapped;
use crate::net::SocketAddr;
use crate::seq::{classify, expect_after, ring_delta, SeqEvent, SeqNum, SeqTracker};
use crate::shard::{pieces, segment_start, stride_of};
use crate::socket::{GSO_MAX_BYTES, TX_BATCH};
use crate::template::{of_flow, FrameSpec, FrameTemplate};
use crate::wire::{decode, encode, header_of, Hdr, OVERLAY_HDR_LEN, VERSION};
use vstd::prelude::*;

verus! {

/// Milliseconds the receiver keeps listening after the sender stops, so frames
/// still in flight are counted rather than reported as loss.
pub const DRAIN_GRACE_MS: u64 = 500;

/// What to generate.
#[derive(Clone, Copy, Debug)]
pub struct PktgenConfig {
    /// Address this generator binds; must be a configured peer of `target`.
    pub bind: SocketAddr,
    /// The node's fabric address.
    pub target: SocketAddr,
    /// The inner frame to send.
    pub frame: FrameSpec,
    /// Frames per second; `0` means as fast as the socket will take them.
    pub rate_pps: u64,
    /// Distinct inner flows to rotate through.
    pub flows: u32,
    /// How long to send for, in milliseconds.
    pub duration_ms: u64,
    /// The vport id this generator claims in the overlay header.
    pub vport: u16,
    /// Segments per send; `1` disables batching.
    pub batch: usize,
    /// Whether the node is on this host, which decides whether the latency
    /// figures mean anything.
    pub same_host: bool,
}

impl Default for PktgenConfig {
    fn default() -> (r: Self)
        ensures
            r.bind == (SocketAddr::V4 { ip: 0x7f00_0001, port: 0 }),
            r.target == (SocketAddr::V4 { ip: 0x7f00_0001, port: 7400 }),
            r.frame.src_mac.spec_octets() == seq![2u8, 0, 0, 0, 0, 1],
            r.frame.dst_mac.spec_octets() == seq![2u8, 0, 0, 0, 0, 2],
            r.frame.src_ip.bits == 0x0a00_0101,
            r.frame.dst_ip.bits == 0x0a00_0201,
            r.frame.src_port == 4000,
            r.frame.dst_port == 4001,
            r.frame.len == 1460,
            r.rate_pps == 0,
            r.flows == 1,
            r.duration_ms == 1_000,
            r.vport == 0,
            r.batch == TX_BATCH,
            r.same_host,
    {
        PktgenConfig {
            bind: SocketAddr::V4 { ip: 0x7f00_0001, port: 0 },
            target: SocketAddr::V4 { ip: 0x7f00_0001, port: 7400 },
            frame: FrameSpec::default(),
            rate_pps: 0,
            flows: 1,
            duration_ms: 1_000,
            vport: 0,
            batch: TX_BATCH,
            same_host: true,
        }
    }
}

/// The most segments of `segment` bytes that one send takes: at least one, at
/// most a batch, and no more than one segmented write can carry.
pub open spec fn most_segments(segment: int) -> int {
    let fit = GSO_MAX_BYTES as int / segment;
    if fit < 1 {
        1
    } else if fit > TX_BATCH {
        TX_BATCH as int
    } else {
        fit
    }
}

/// How many segments of `segment` bytes to send at once.
///
/// A segmented write is one datagram until the kernel splits it, so the batch
/// is bounded by bytes as well as by count.
#[must_use]
pub fn batch_size(batch: usize, segment: usize) -> (r: usize)
    requires
        segment > 0,
    ensures
        r == (if batch < 1 {
            1int
        } else if batch > most_segments(segment as int) {
            most_segments(segment as int)
        } else {
            batch as int
        }),
{
    let fit: usize = GSO_MAX_BYTES / segment;
    let most: usize = if fit < 1 {
        1
    } else if fit > TX_BATCH {
        TX_BATCH
    } else {
        fit
    };
    if batch < 1 {
        1
    } else if batch > most {
        most
    } else {
        batch
    }
}

/// A batch of more than one segment fits in one segmented write.
pub proof fn law_batches_fit(batch: int, segment: int)
    requires
        0 < segment,
        1 < batch <= most_segments(segment),
    ensures
        batch * segment <= GSO_MAX_BYTES,
{
    let fit = GSO_MAX_BYTES as int / segment;
    assert(batch * segment <= 65507) by (nonlinear_arith)
        requires
            0 < segment,
            1 < batch <= fit,
            fit == 65507int / segment,
    ;
}

/// The sending half: which frame is next.
#[derive(Debug)]
pub struct Generator {
    template: FrameTemplate,
    sent: u64,
    flow: u32,
}

impl Generator {
    /// The template is in order.
    pub closed spec fn wf(&self) -> bool {
        self.template.wf()
    }

    /// The frame as it is now.
    pub closed spec fn frame(&self) -> Seq<u8> {
        self.template@
    }

    /// What the frame is built from.
    pub closed spec fn spec_spec(&self) -> FrameSpec {
        self.template.spec_spec()
    }

    /// Frames generated so far.
    pub closed spec fn spec_sent(&self) -> u64 {
        self.sent
    }

    /// The flow that is next.
    pub closed spec fn spec_flow(&self) -> u32 {
        self.flow
    }

    /// Start with the first frame of the first flow.
    #[must_use]
    pub fn new(frame: FrameSpec) -> (r: Self)
        ensures
            r.wf(),
            r.frame() == crate::template::built(frame),
            r.spec_spec() == (FrameSpec { len: crate::template::built_len(frame.len), ..frame }),
            r.spec_sent() == 0,
            r.spec_flow() == 0,
    {
        Generator { template: FrameTemplate::new(frame), sent: 0, flow: 0 }
    }

    /// Frames generated so far.
    #[must_use]
    pub fn sent(&self) -> (r: u64)
        ensures
            r == self.spec_sent(),
    {
        self.sent
    }

    /// Length of every frame.
    #[must_use]
    pub fn frame_len(&self) -> (r: usize)
        ensures
            r == self.frame().len(),
    {
        self.template.len()
    }

    /// Append the next segment to `buf`: a header with the next sequence
    /// number, and a frame of the next flow.
    pub fn push(&mut self, buf: &mut Vec<u8>, vport: u16, flows: u32, now_us: u32)
        requires
            old(self).wf(),
            old(self).spec_sent() < u64::MAX,
            flows > 1 ==> old(self).spec_flow() < flows,
        ensures
            final(self).wf(),
            final(self).spec_spec() == old(self).spec_spec(),
            final(self).spec_sent() == old(self).spec_sent() + 1,
            final(self).spec_flow() == (if flows > 1 {
                (old(self).spec_flow() + 1) % flows as int
            } else {
                0
            }),
            final(self).frame() == (if flows > 1 {
                of_flow(old(self).frame(), old(self).spec_spec(), old(self).spec_flow())
            } else {
                old(self).frame()
            }),
            final(buf)@ == old(buf)@ + header_of(
                vport as int,
                (old(self).spec_sent() % 0x1_0000_0000) as int,
                now_us as int,
            ) + final(self).frame(),
    {
        let seq: SeqNum = SeqNum::new((self.sent % 0x1_0000_0000) as u32);
        let mut hdr: [u8; 12] = [0, 0, 0, 0, 0, 0, 0, 0, 0, 0, 0, 0];
        encode(&Hdr { ingress_vport: vport, seq, ts_us: now_us }, &mut hdr);
        buf.extend_from_slice(hdr.as_slice());
        let frame: &[u8] = self.template.for_flow(self.flow, flows);
        buf.extend_from_slice(frame);
        proof {
            if flows > 1 {
                if self.flow + 1 == flows {
                    vstd::arithmetic::div_mod::lemma_mod_self_0(flows as int);
                } else {
                    vstd::arithmetic::div_mod::lemma_small_mod(
                        (self.flow + 1) as nat,
                        flows as nat,
                    );
                }
            }
        }
        self.flow = if flows > 1 {
            if self.flow + 1 == flows {
                0
            } else {
                self.flow + 1
            }
        } else {
            0
        };
        self.sent = self.sent + 1;
    }
}

/// When frame `sent` is due, in nanoseconds after the start; `None` where
/// nothing holds it back.
pub open spec fn due_ns(rate_pps: u64, sent: u64) -> Option<int> {
    if rate_pps == 0 {
        None
    } else {
        let ns = if sent * 1_000_000_000 > u64::MAX {
            u64::MAX as int
        } else {
            sent * 1_000_000_000
        };
        Some(ns / rate_pps as int)
    }
}

/// Nanoseconds to sleep so that frame `sent` leaves when it is due.
///
/// A token bucket expressed as a deadline: frame *n* is due at
/// `start + n/rate`, so the pacing cannot drift.
#[must_use]
pub fn pace(rate_pps: u64, elapsed_ns: u64, sent: u64) -> (r: u64)
    ensures
        r == (match due_ns(rate_pps, sent) {
            Some(due) if due > elapsed_ns => due - elapsed_ns,
            _ => 0,
        }),
{
    if rate_pps == 0 {
        return 0;
    }
    let ns: u64 = match sent.checked_mul(1_000_000_000) {
        Some(n) => n,
        None => u64::MAX,
    };
    let due: u64 = ns / rate_pps;
    if due > elapsed_ns {
        due - elapsed_ns
    } else {
        0
    }
}

/// Receive-side tallies.
#[derive(Clone, Copy, Debug, PartialEq, Eq, Structural)]
pub struct RxStats {
    /// Frames that came back.
    pub frames: u64,
    /// Inner bytes that came back.
    pub bytes: u64,
    /// Frames missing, summed over gaps.
    pub gaps: u64,
    /// Frames that arrived behind the expectation.
    pub reorder: u64,
    /// Segments whose overlay header would not decode.
    pub bad_header: u64,
    /// Frames whose length did not match what was sent.
    pub length_mismatch: u64,
}

/// What the receiving half holds.
#[verifier::ext_equal]
pub struct RxModel {
    pub stats: RxStats,
    pub expected: Map<u16, int>,
    pub samples: Seq<i64>,
}

impl RxModel {
    /// What the flow of `vport` expects next, if it was seen.
    pub open spec fn expects(self, vport: u16) -> Option<int> {
        if self.expected.contains_key(vport) {
            Some(self.expected[vport])
        } else {
            None
        }
    }

    /// The state after one segment.
    pub open spec fn after(self, segment: Seq<u8>, expect_len: int, now_us: u32) -> RxModel {
        if segment.len() < OVERLAY_HDR_LEN || segment[0] / 16 != VERSION {
            RxModel {
                stats: RxStats { bad_header: wrapped(self.stats.bad_header + 1), ..self.stats },
                ..self
            }
        } else {
            let vport = be16(segment, 2) as u16;
            let seq = be32(segment, 4);
            let len = segment.len() - OVERLAY_HDR_LEN;
            let event = classify(self.expects(vport), seq);
            RxModel {
                stats: RxStats {
                    frames: wrapped(self.stats.frames + 1),
                    bytes: wrapped(self.stats.bytes + len),
                    gaps: match event {
                        SeqEvent::Gap(missing) => wrapped(self.stats.gaps + missing),
                        _ => self.stats.gaps,
                    },
                    reorder: match event {
                        SeqEvent::Reorder => wrapped(self.stats.reorder + 1),
                        _ => self.stats.reorder,
                    },
                    length_mismatch: if len != expect_len {
                        wrapped(self.stats.length_mismatch + 1)
                    } else {
                        self.stats.length_mismatch
                    },
                    ..self.stats
                },
                expected: self.expected.insert(vport, expect_after(self.expects(vport), seq)),
                samples: self.samples.push(ring_delta(now_us as int, be32(segment, 8)) as i64),
            }
        }
    }
}

/// The receiving half: counts and times everything that comes back.
#[derive(Debug)]
pub struct Receiver {
    stats: RxStats,
    trackers: Vec<(u16, SeqTracker)>,
    samples: Vec<i64>,
    expect_len: usize,
}

/// What the first `n` trackers expect.
spec fn expected_of(v: Seq<(u16, SeqTracker)>, n: int) -> Map<u16, int>
    decreases n,
{
    if n <= 0 {
        Map::empty()
    } else {
        expected_of(v, n - 1).insert(v[n - 1].0, v[n - 1].1@->0)
    }
}

impl View for Receiver {
    type V = RxModel;

    closed spec fn view(&self) -> RxModel {
        RxModel {
            stats: self.stats,
            expected: expected_of(self.trackers@, self.trackers@.len() as int),
            samples: self.samples@,
        }
    }
}

proof fn lemma_expected(v: Seq<(u16, SeqTracker)>, n: int, vport: u16)
    requires
        0 <= n <= v.len(),
        forall|i: int, j: int|
            0 <= i < j < v.len() ==> (#[trigger] v[i]).0 != (#[trigger] v[j]).0,
    ensures
        (forall|i: int| 0 <= i < n ==> (#[trigger] v[i]).0 != vport) ==> !expected_of(
            v,
            n,
        ).contains_key(vport),
        forall|i: int|
            0 <= i < n && (#[trigger] v[i]).0 == vport ==> expected_of(v, n).contains_key(vport)
                && expected_of(v, n)[vport] == v[i].1@->0,
    decreases n,
{
    if n > 0 {
        lemma_expected(v, n - 1, vport);
    }
}

proof fn lemma_expected_update(v: Seq<(u16, SeqTracker)>, n: int, at: int, t: SeqTracker)
    requires
        0 <= at < v.len(),
        0 <= n <= v.len(),
        forall|i: int, j: int|
            0 <= i < j < v.len() ==> (#[trigger] v[i]).0 != (#[trigger] v[j]).0,
    ensures
        at < n ==> expected_of(v.update(at, (v[at].0, t)), n) == expected_of(v, n).insert(
            v[at].0,
            t@->0,
        ),
        at >= n ==> expected_of(v.update(at, (v[at].0, t)), n) == expected_of(v, n),
    decreases n,
{
    if n > 0 {
        lemma_expected_update(v, n - 1, at, t);
        let w = v.update(at, (v[at].0, t));
        if at < n - 1 {
            assert(v[at].0 != v[n - 1].0);
            assert(expected_of(w, n) =~= expected_of(v, n).insert(v[at].0, t@->0));
        } else if at == n - 1 {
            assert(expected_of(w, n) =~= expected_of(v, n).insert(v[at].0, t@->0));
        }
    }
}

proof fn lemma_expected_push(v: Seq<(u16, SeqTracker)>, x: (u16, SeqTracker), n: int)
    requires
        0 <= n <= v.len(),
    ensures
        expected_of(v.push(x), n) == expected_of(v, n),
    decreases n,
{
    if n > 0 {
        lemma_expected_push(v, x, n - 1);
    }
}

impl Receiver {
    /// One tracker for each sending vport, each of which has seen a frame.
    pub closed spec fn wf(&self) -> bool {
        &&& forall|i: int, j: int|
            0 <= i < j < self.trackers@.len() ==> (#[trigger] self.trackers@[i]).0 != (
            #[trigger] self.trackers@[j]).0
        &&& forall|i: int|
            0 <= i < self.trackers@.len() ==> (#[trigger] self.trackers@[i]).1@ is Some
    }

    /// The frame length that was sent.
    pub closed spec fn spec_expect_len(&self) -> int {
        self.expect_len as int
    }

    /// Nothing received yet.
    #[must_use]
    pub fn new(expect_len: usize) -> (r: Self)
        ensures
            r.wf(),
            r.spec_expect_len() == expect_len,
            r@ == (RxModel {
                stats: RxStats {
                    frames: 0,
                    bytes: 0,
                    gaps: 0,
                    reorder: 0,
                    bad_header: 0,
                    length_mismatch: 0,
                },
                expected: Map::empty(),
                samples: Seq::empty(),
            }),
    {
        Receiver {
            stats: RxStats {
                frames: 0,
                bytes: 0,
                gaps: 0,
                reorder: 0,
                bad_header: 0,
                length_mismatch: 0,
            },
            trackers: Vec::new(),
            samples: Vec::new(),
            expect_len,
        }
    }

    /// Track a sequence number of `vport`.
    fn observe(&mut self, vport: u16, seq: SeqNum) -> (event: SeqEvent)
        requires
            old(self).wf(),
        ensures
            final(self).wf(),
            final(self).stats == old(self).stats,
            final(self).samples == old(self).samples,
            final(self).expect_len == old(self).expect_len,
            event == classify(old(self)@.expects(vport), seq@),
            final(self)@.expected == old(self)@.expected.insert(
                vport,
                expect_after(old(self)@.expects(vport), seq@),
            ),
    {
        let ghost v = self.trackers@;
        let mut i: usize = 0;
        while i < self.trackers.len() && self.trackers[i].0 != vport
            invariant
                i <= self.trackers@.len(),
                self.trackers@ == v,
                forall|j: int| 0 <= j < i ==> (#[trigger] v[j]).0 != vport,
            decreases self.trackers.len() - i,
        {
            i += 1;
        }
        proof {
            lemma_expected(v, v.len() as int, vport);
        }
        let mut tracker: SeqTracker = if i < self.trackers.len() {
            assert(v[i as int].0 == vport);
            self.trackers[i].1
        } else {
            SeqTracker::new()
        };
        let event: SeqEvent = tracker.observe(seq);
        if i < self.trackers.len() {
            self.trackers[i] = (vport, tracker);
            proof {
                lemma_expected_update(v, v.len() as int, i as int, tracker);
                assert(self.trackers@ =~= v.update(i as int, (v[i as int].0, tracker)));
            }
        } else {
            self.trackers.push((vport, tracker));
            proof {
                lemma_expected_push(v, (vport, tracker), v.len() as int);
            }
        }
        event
    }

    /// Count and time one segment.
    pub fn segment(&mut self, segment: &[u8], now_us: u32)
        requires
            old(self).wf(),
        ensures
            final(self).wf(),
            final(self).spec_expect_len() == old(self).spec_expect_len(),
            final(self)@ == old(self)@.after(segment@, old(self).spec_expect_len(), now_us),
    {
        let hdr: Hdr = match decode(segment) {
            Ok(hdr) => hdr,
            Err(_) => {
                self.stats.bad_header = self.stats.bad_header.wrapping_add(1);
                return;
            },
        };
        let len: usize = segment.len() - OVERLAY_HDR_LEN;
        self.stats.frames = self.stats.frames.wrapping_add(1);
        self.stats.bytes = self.stats.bytes.wrapping_add(len as u64);
        if len != self.expect_len {
            self.stats.length_mismatch = self.stats.length_mismatch.wrapping_add(1);
        }
        let event: SeqEvent = self.observe(hdr.ingress_vport, hdr.seq);
        match event {
            SeqEvent::InOrder => {},
            SeqEvent::Gap(missing) => {
                self.stats.gaps = self.stats.gaps.wrapping_add(missing as u64);
            },
            SeqEvent::Reorder => {
                self.stats.reorder = self.stats.reorder.wrapping_add(1);
            },
        }
        let delta: i32 = delta_us(now_us, hdr.ts_us);
        self.samples.push(delta as i64);
    }

    /// The tallies.
    #[must_use]
    pub fn stats(&self) -> (r: RxStats)
        ensures
            r == self@.stats,
    {
        self.stats
    }

    /// The delays, in the order in which they were measured.
    #[must_use]
    pub fn into_samples(self) -> (r: Vec<i64>)
        ensures
            r@ == self@.samples,
    {
        self.samples
    }
}

/// Where segment `k` of a read lies.
pub open spec fn bounds(len: int, stride: int, k: int) -> (int, int) {
    let start = segment_start(stride, k);
    (
        start,
        if start + stride <= len {
            start + stride
        } else {
            len
        },
    )
}

/// Where the segments of a read lie, front to back.
#[must_use]
pub fn split_read(len: usize, stride: usize) -> (r: Vec<(usize, usize)>)
    ensures
        len == 0 ==> r@.len() == 0,
        len > 0 ==> r@.len() == pieces(len as int, stride_of(len as int, stride as int)),
        forall|k: int|
            0 <= k < r@.len() ==> ((#[trigger] r@[k]).0 as int, r@[k].1 as int) == bounds(
                len as int,
                stride_of(len as int, stride as int),
                k,
            ),
        forall|k: int| 0 <= k < r@.len() ==> (#[trigger] r@[k]).0 < r@[k].1 <= len,
{
    let mut out: Vec<(usize, usize)> = Vec::new();
    if len == 0 {
        return out;
    }
    let step: usize = if stride == 0 {
        len
    } else {
        stride
    };
    let ghost n = pieces(len as int, step as int);
    proof {
        crate::shard::lemma_segments(len as int, step as int);
    }
    let mut at: usize = 0;
    assert(segment_start(step as int, 0) == 0);
    while at < len
        invariant
            0 < len,
            0 < step,
            n == pieces(len as int, step as int),
            out@.len() <= n,
            at <= len,
            at < len ==> out@.len() < n && at == segment_start(step as int, out@.len() as int),
            at == len ==> out@.len() == n,
            forall|k: int|
                0 <= k < out@.len() ==> ((#[trigger] out@[k]).0 as int, out@[k].1 as int) == bounds(
                    len as int,
                    step as int,
                    k,
                ),
            forall|k: int| 0 <= k < out@.len() ==> (#[trigger] out@[k]).0 < out@[k].1 <= len,
        decreases len - at,
    {
        let ghost k = out@.len() as int;
        proof {
            crate::shard::lemma_next_segment(len as int, step as int, k);
        }
        let next: usize = if len - at <= step {
            len
        } else {
            at + step
        };
        out.push((at, next));
        at = next;
    }
    out
}

/// One-way delay, measured from the overlay timestamp.
#[derive(Clone, Copy, Debug, PartialEq, Eq, Structural)]
pub struct Latency {
    /// Median, microseconds.
    pub p50_us: i64,
    /// 99th percentile, microseconds.
    pub p99_us: i64,
    /// Samples the percentiles were computed from.
    pub samples: usize,
    /// False when the two ends are on different hosts, in which case these
    /// numbers include an uncalibrated clock delta and are not a delay.
    pub calibrated: bool,
}

/// The place of the `p`th percentile among `n` samples.
pub open spec fn percentile_at(n: int, p: int) -> int {
    if n * p / 100 < n {
        n * p / 100
    } else {
        n - 1
    }
}

/// The `p`th percentile of a sorted slice, by index: no interpolation.
#[must_use]
pub fn percentile(sorted: &[i64], p: usize) -> (r: i64)
    requires
        sorted@.len() * p <= usize::MAX,
    ensures
        r == (if sorted@.len() == 0 {
            0
        } else {
            sorted@[percentile_at(sorted@.len() as int, p as int)]
        }),
{
    let n: usize = sorted.len();
    if n == 0 {
        return 0;
    }
    let at: usize = n * p / 100;
    if at < n {
        sorted[at]
    } else {
        sorted[n - 1]
    }
}

/// Whether `v` increases.
pub open spec fn is_sorted(v: Seq<i64>) -> bool {
    forall|i: int, j: int| 0 <= i <= j < v.len() ==> v[i] <= v[j]
}

/// `<[i64]>::sort_unstable`: afterwards the slice increases and holds the same
/// numbers, each as often as before.
#[verifier::external_body]
fn sort_samples(v: &mut Vec<i64>)
    ensures
        is_sorted(final(v)@),
        final(v)@.to_multiset() == old(v)@.to_multiset(),
{
    v.sort_unstable();
}

/// What a run counted. Rates follow from these and from how long it took.
#[derive(Clone, Copy, Debug, PartialEq, Eq, Structural)]
pub struct Tally {
    /// Frames handed to the socket.
    pub sent: u64,
    /// Inner bytes sent.
    pub sent_bytes: u64,
    /// Frames received back.
    pub received: u64,
    /// Inner bytes received.
    pub received_bytes: u64,
    /// Frames missing according to the overlay sequence numbers.
    pub seq_gap_total: u64,
    /// Frames that arrived behind the expectation.
    pub reorder: u64,
    /// Segments whose overlay header would not decode.
    pub bad_header: u64,
    /// Frames whose length did not match what was sent.
    pub length_mismatch: u64,
    /// Frames sent that did not come back.
    pub lost: u64,
    /// One-way delay, when any frame came back.
    pub latency: Option<Latency>,
}

/// Whether `l` is the latency of a run with these samples: the percentiles of
/// the samples in order.
pub open spec fn is_latency(l: Latency, samples: Seq<i64>, same_host: bool) -> bool {
    exists|sorted: Seq<i64>|
        {
            &&& #[trigger] is_sorted(sorted)
            &&& sorted.to_multiset() == samples.to_multiset()
            &&& l.p50_us == sorted[percentile_at(sorted.len() as int, 50)]
            &&& l.p99_us == sorted[percentile_at(sorted.len() as int, 99)]
            &&& l.samples == samples.len()
            &&& l.calibrated == same_host
        }
}

/// Turn the tallies of a run into its report.
#[must_use]
pub fn finish(
    stats: RxStats,
    samples: Vec<i64>,
    sent: u64,
    frame_len: usize,
    same_host: bool,
) -> (r: Tally)
    requires
        sent * frame_len <= u64::MAX,
        samples@.len() * 99 <= usize::MAX,
    ensures
        r.sent == sent,
        r.sent_bytes == sent * frame_len,
        r.received == stats.frames,
        r.received_bytes == stats.bytes,
        r.seq_gap_total == stats.gaps,
        r.reorder == stats.reorder,
        r.bad_header == stats.bad_header,
        r.length_mismatch == stats.length_mismatch,
        r.lost == (if sent > stats.frames {
            sent - stats.frames
        } else {
            0
        }),
        r.latency is None <==> samples@.len() == 0,
        r.latency matches Some(l) ==> is_latency(l, samples@, same_host),
{
    let ghost given = samples@;
    let mut sorted: Vec<i64> = samples;
    sort_samples(&mut sorted);
    proof {
        broadcast use vstd::seq_lib::group_to_multiset_ensures;

        assert(sorted@.len() == given.len()) by {
            assert(sorted@.to_multiset().len() == given.to_multiset().len());
        }
    }
    let latency: Option<Latency> = if sorted.len() == 0 {
        None
    } else {
        let l = Latency {
            p50_us: percentile(sorted.as_slice(), 50),
            p99_us: percentile(sorted.as_slice(), 99),
            samples: sorted.len(),
            calibrated: same_host,
        };
        assert(is_sorted(sorted@));
        Some(l)
    };
    Tally {
        sent,
        sent_bytes: sent * frame_len as u64,
        received: stats.frames,
        received_bytes: stats.bytes,
        seq_gap_total: stats.gaps,
        reorder: stats.reorder,
        bad_header: stats.bad_header,
        length_mismatch: stats.length_mismatch,
        lost: if sent > stats.frames {
            sent - stats.frames
        } else {
            0
        },
        latency,
    }
}

/// A segment without a whole header of the right version is counted as such
/// and leaves no other trace. Any other counts as one frame of its bytes, is
/// held against the length that was sent, and gives one delay: the time since
/// its stamp, the short way round the clock.
#[verifier::rlimit(40)]
pub proof fn law_received_segments_are_counted(
    rx: RxModel,
    segment: Seq<u8>,
    expect_len: int,
    now_us: u32,
)
    requires
        segment.len() <= u64::MAX,
    ensures
        ({
            let after = rx.after(segment, expect_len, now_us);
            let was = rx.stats;
            let is = after.stats;
            let good = segment.len() >= 12 && segment[0] / 16 == 1;
            let len = segment.len() - 12;
            let stamp = segment[8] * 0x100_0000 + segment[9] * 0x1_0000 + segment[10] * 0x100
                + segment[11];
            &&& !good ==> after.expected == rx.expected && after.samples == rx.samples && is == (
            RxStats {
                bad_header: ((was.bad_header + 1) % 0x1_0000_0000_0000_0000) as u64,
                ..was
            })
            &&& good ==> is.bad_header == was.bad_header
            &&& good ==> is.frames == (was.frames + 1) % 0x1_0000_0000_0000_0000
            &&& good ==> is.bytes == (was.bytes + len) % 0x1_0000_0000_0000_0000
            &&& good ==> is.length_mismatch == (if len == expect_len {
                was.length_mismatch as int
            } else {
                (was.length_mismatch + 1) % 0x1_0000_0000_0000_0000
            })
            &&& good ==> after.samples.len() == rx.samples.len() + 1
            &&& good ==> after.samples.drop_last() == rx.samples
            &&& good ==> (stamp + after.samples.last()) % 0x1_0000_0000 == now_us
            &&& good ==> -0x8000_0000 <= after.samples.last() < 0x8000_0000
        }),
{
    let after = rx.after(segment, expect_len, now_us);
    if segment.len() >= 12 && segment[0] / 16 == 1 {
        assert(after.samples.drop_last() =~= rx.samples);
        crate::seq::law_distances_are_short(now_us as int, be32(segment, 8));
    }
}

/// Each sender is followed by itself: the first segment of a vport is in order,
/// a number ahead of the expected one counts as so many missing, one behind as
/// late, and no other vport's expectation moves.
#[verifier::rlimit(40)]
pub proof fn law_senders_are_followed_apart(
    rx: RxModel,
    segment: Seq<u8>,
    expect_len: int,
    now_us: u32,
    other: u16,
)
    requires
        segment.len() >= 12,
        segment[0] / 16 == 1,
    ensures
        ({
            let after = rx.after(segment, expect_len, now_us);
            let was = rx.stats;
            let is = after.stats;
            let vport = (segment[2] * 0x100 + segment[3]) as u16;
            let number = segment[4] * 0x100_0000 + segment[5] * 0x1_0000 + segment[6] * 0x100
                + segment[7];
            let next = (number + 1) % 0x1_0000_0000;
            let ahead = (number - rx.expected[vport]) % 0x1_0000_0000;
            &&& after.expected.contains_key(vport)
            &&& other != vport ==> (after.expected.contains_key(other)
                <==> rx.expected.contains_key(other))
            &&& other != vport && rx.expected.contains_key(other) ==> after.expected[other]
                == rx.expected[other]
            &&& !rx.expected.contains_key(vport) || ahead == 0 ==> is.gaps == was.gaps && is.reorder
                == was.reorder && after.expected[vport] == next
            &&& rx.expected.contains_key(vport) && 0 < ahead < 0x8000_0000 ==> is.gaps == (
            was.gaps + ahead) % 0x1_0000_0000_0000_0000 && is.reorder == was.reorder
                && after.expected[vport] == next
            &&& rx.expected.contains_key(vport) && 0x8000_0000 <= ahead ==> is.gaps == was.gaps
                && is.reorder == (was.reorder + 1) % 0x1_0000_0000_0000_0000
                && after.expected[vport] == (if 0x1_0000_0000 - ahead <= 1024 {
                rx.expected[vport]
            } else {
                next
            })
        }),
{
    let vport = (segment[2] * 0x100 + segment[3]) as u16;
    assert(be16(segment, 2) as u16 == vport);
}

/// Frame `sent` is due after `sent` frames' worth of time, rounded down, and no
/// frame is due before the one in front of it. A rate of zero holds nothing
/// back.
pub proof fn law_pacing_keeps_the_rate(rate_pps: u64, sent: u64, later: u64)
    requires
        sent * 1_000_000_000 <= u64::MAX,
        sent <= later,
    ensures
        rate_pps == 0 ==> due_ns(rate_pps, sent) is None,
        rate_pps > 0 ==> due_ns(rate_pps, sent) is Some && due_ns(rate_pps, sent)->0 * rate_pps
            <= sent * 1_000_000_000 < (due_ns(rate_pps, sent)->0 + 1) * rate_pps,
        rate_pps > 0 ==> due_ns(rate_pps, sent)->0 <= due_ns(rate_pps, later)->0,
{
    if rate_pps > 0 {
        let r = rate_pps as int;
        let a = sent * 1_000_000_000;
        let b = if later * 1_000_000_000 > u64::MAX {
            u64::MAX as int
        } else {
            later * 1_000_000_000
        };
        vstd::arithmetic::div_mod::lemma_fundamental_div_mod(a, r);
        let q = a / r;
        assert(q * r <= a < (q + 1) * r) by (nonlinear_arith)
            requires
                a == r * q + a % r,
                0 <= a % r < r,
        ;
        vstd::arithmetic::div_mod::lemma_div_is_ordered(a, b, r);
    }
}

/// A send holds as many segments as fit in one write, at least one and at most
/// 64.
pub proof fn law_sends_are_as_large_as_they_may_be(segment: int)
    requires
        0 < segment,
    ensures
        1 <= most_segments(segment) <= 64,
        most_segments(segment) > 1 ==> most_segments(segment) * segment <= 65507,
        most_segments(segment) < 64 ==> (most_segments(segment) + 1) * segment > 65507,
{
    let fit = 65507int / segment;
    vstd::arithmetic::div_mod::lemma_fundamental_div_mod(65507, segment);
    assert(fit * segment <= 65507 < (fit + 1) * segment) by (nonlinear_arith)
        requires
            65507int == segment * fit + 65507int % segment,
            0 <= 65507int % segment < segment,
    ;
    let m = most_segments(segment);
    if m == 64 {
        assert(64 * segment <= 65507) by (nonlinear_arith)
            requires
                fit * segment <= 65507,
                64 <= fit,
                segment > 0,
        ;
    } else if m == 1 && fit < 1 {
        assert(2 * segment > 65507) by (nonlinear_arith)
            requires
                65507 < (fit + 1) * segment,
                fit < 1,
                segment > 0,
        ;
    }
}

/// The segments of a read lie one behind the other without a gap, from its
/// front to its end, each as long as the stride but for a shorter last one.
pub proof fn law_segments_cover_a_read(len: int, stride: int, k: int)
    requires
        0 < len,
        0 < stride,
        0 <= k < pieces(len, stride),
    ensures
        bounds(len, stride, 0).0 == 0,
        bounds(len, stride, k).0 < bounds(len, stride, k).1 <= len,
        bounds(len, stride, k).1 - bounds(len, stride, k).0 <= stride,
        k + 1 < pieces(len, stride) ==> bounds(len, stride, k).1 == bounds(len, stride, k + 1).0
            && bounds(len, stride, k).1 - bounds(len, stride, k).0 == stride,
        k + 1 == pieces(len, stride) ==> bounds(len, stride, k).1 == len,
{
    crate::shard::lemma_next_segment(len, stride, k);
    vstd::arithmetic::mul::lemma_mul_basics(stride);
    assert(segment_start(stride, 0) == 0);
}

/// The `p`th percentile leaves `p` of every hundred samples in front of it, as
/// exactly as whole samples allow.
pub proof fn law_percentiles_split_the_samples(n: int, p: int)
    requires
        0 < n,
        0 <= p < 100,
    ensures
        0 <= percentile_at(n, p) < n,
        percentile_at(n, p) * 100 <= n * p < (percentile_at(n, p) + 1) * 100,
{
    let x = n * p;
    assert(0 <= x < n * 100) by (nonlinear_arith)
        requires
            0 < n,
            0 <= p < 100,
            x == n * p,
    ;
}

/// A run's median is no larger than its 99th percentile, and both are delays
/// that were measured.
pub proof fn law_percentiles_are_samples(l: Latency, samples: Seq<i64>, same_host: bool)
    requires
        is_latency(l, samples, same_host),
        samples.len() > 0,
    ensures
        l.p50_us <= l.p99_us,
        samples.contains(l.p50_us),
        samples.contains(l.p99_us),
        l.samples == samples.len(),
        l.calibrated == same_host,
{
    broadcast use vstd::seq_lib::group_to_multiset_ensures;

    let sorted = choose|sorted: Seq<i64>|
        {
            &&& #[trigger] is_sorted(sorted)
            &&& sorted.to_multiset() == samples.to_multiset()
            &&& l.p50_us == sorted[percentile_at(sorted.len() as int, 50)]
            &&& l.p99_us == sorted[percentile_at(sorted.len() as int, 99)]
            &&& l.samples == samples.len()
            &&& l.calibrated == same_host
        };
    let n = sorted.len() as int;
    assert(sorted.to_multiset().len() == samples.to_multiset().len());
    assert(n == samples.len());
    law_percentiles_split_the_samples(n, 50);
    law_percentiles_split_the_samples(n, 99);
    let (a, b) = (percentile_at(n, 50), percentile_at(n, 99));
    assert(a <= b);
    assert(sorted.contains(sorted[a]) && sorted.contains(sorted[b]));
    assert(sorted.to_multiset().contains(sorted[a]) && sorted.to_multiset().contains(sorted[b]));
    assert(samples.to_multiset().contains(l.p50_us) && samples.to_multiset().contains(l.p99_us));
}

} // verus!
