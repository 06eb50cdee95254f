//! The datapath.
//!
//! One shard owns one engine and every buffer it will ever use. A frame is
//! received, processed and staged on the same thread and is copied exactly
//! once: from the receive slot into its destination's staging buffer, which is
//! also the buffer it is sent from.
//!
//! ## The headroom invariant
//!
//! A coalesced read lands many segments back to back in one slot, so a
//! segment's "space in front of it" is whatever precedes it in that slot. The
//! slot reserves [`HEADROOM`] bytes before the first segment, and segments are
//! processed front to back: each is copied out to staging before the next is
//! touched. So when segment *k* is handed to the pipeline, everything before
//! it is dead space it may write into.
//!
//! The shard does no I/O of its own. What it wants sent stands in its outbox;
//! whoever owns the socket sends it and reports what became of it.
use crate::bytes::be32;
use crate::config::vport::{
    distinct, last_with_id, last_with_peer, Vport, VportIdx, VportModel, VportTable,
};
use crate::engine::{Engine, Pipeline, Verdict};
use crate::frame::{FrameCtx, MIN_HEADROOM};
use crate::metrics::{Counter, Hist, Metrics, MetricsModel, VportCounter};
use crate::net::SocketAddr;
use crate::punt::{clipped, PuntModel, PuntQueue};
use crate::seq::{classify, expect_after, SeqEvent, SeqNum, SeqTracker};
use crate::socket::{Failure, SocketCaps, HEADROOM, TX_BATCH};
use crate::tx::{are_runs, at_least_one, Run, TxModel, TxQueue};
use crate::wire::{decode, encode, header_of, Hdr, OVERLAY_HDR_LEN, VERSION};
use std::sync::Arc;
use vstd::prelude::*;

verus! {

/// What one receive put into a slot.
#[derive(Clone, Copy, Debug)]
pub struct Read {
    /// Bytes received.
    pub len: usize,
    /// Bytes from one segment to the next; zero where the whole read is one
    /// segment.
    pub stride: usize,
    /// Where they came from.
    pub from: SocketAddr,
}

/// What the shards of a node share: its counters, and the punt queue when
/// punting is configured.
#[derive(Debug)]
pub struct Node {
    /// The counter registry.
    pub metrics: Metrics,
    /// The punt queue.
    pub punt: Option<PuntQueue>,
}

/// A punt queue and its limits.
#[verifier::ext_equal]
pub struct PuntState {
    pub frames: Seq<PuntModel>,
    pub capacity: int,
    pub slot_size: int,
}

/// Segments on their way out: what to send, and where.
#[verifier::ext_equal]
pub struct BatchModel {
    pub egress: int,
    pub destination: SocketAddr,
    pub queue: TxModel,
}

/// Everything the datapath reads and writes.
#[verifier::ext_equal]
pub struct ShardState {
    pub tx: Seq<TxModel>,
    pub tx_seq: Seq<int>,
    pub rx_seq: Seq<Option<int>>,
    pub outbox: Seq<BatchModel>,
    pub metrics: MetricsModel,
    pub punt: Option<PuntState>,
}

/// What the datapath goes by: the vports and the fabric's inner MTU.
pub struct Fabric {
    pub vports: Seq<VportModel>,
    pub inner_mtu: int,
}

impl ShardState {
    /// The state with `n` added to a node-wide counter.
    pub open spec fn counted(self, c: Counter, n: u64) -> ShardState {
        ShardState { metrics: self.metrics.added(c, n), ..self }
    }

    /// The state with `n` added to a counter of vport `i`.
    pub open spec fn vport_counted(self, i: int, c: VportCounter, n: u64) -> ShardState {
        ShardState { metrics: self.metrics.vport_added(i, c, n), ..self }
    }

    /// The state after what is staged for `egress` went to the outbox. Nothing
    /// staged, nothing sent.
    pub open spec fn flushed(self, fabric: Fabric, egress: int) -> ShardState {
        if self.tx[egress].lens.len() == 0 {
            self
        } else {
            ShardState {
                tx: self.tx.update(egress, TxModel::empty()),
                outbox: self.outbox.push(
                    BatchModel {
                        egress,
                        destination: fabric.vports[egress].peer,
                        queue: self.tx[egress],
                    },
                ),
                metrics: self.metrics.recorded(
                    Hist::TxBatchSize,
                    self.tx[egress].lens.len() as int,
                ),
                ..self
            }
        }
    }

    /// The state after the first `n` destinations were flushed.
    pub open spec fn all_flushed(self, fabric: Fabric, n: int) -> ShardState
        decreases n,
    {
        if n <= 0 {
            self
        } else {
            self.all_flushed(fabric, n - 1).flushed(fabric, n - 1)
        }
    }

    /// The state after `frame` was stamped and staged for `egress`. A full
    /// queue is flushed first; a frame that is too long is counted.
    pub open spec fn staged(
        self,
        fabric: Fabric,
        egress: int,
        frame: Seq<u8>,
        ingress_id: u16,
        now: u32,
    ) -> ShardState {
        let s = if self.tx[egress].is_full() {
            self.flushed(fabric, egress)
        } else {
            self
        };
        if frame.len() <= fabric.inner_mtu && OVERLAY_HDR_LEN + frame.len() <= u16::MAX {
            ShardState {
                tx: s.tx.update(
                    egress,
                    s.tx[egress].pushed(
                        header_of(ingress_id as int, s.tx_seq[egress], now as int),
                        frame,
                    ),
                ),
                tx_seq: s.tx_seq.update(egress, (s.tx_seq[egress] + 1) % 0x1_0000_0000),
                ..s
            }
        } else {
            s.counted(Counter::TxOversizeDrop, 1)
        }
    }

    /// The state after `frame` was staged for each of the first `n` vports but
    /// the one it came from.
    pub open spec fn fanned_out(
        self,
        fabric: Fabric,
        frame: Seq<u8>,
        ingress: int,
        now: u32,
        n: int,
    ) -> ShardState
        decreases n,
    {
        if n <= 0 {
            self
        } else {
            let s = self.fanned_out(fabric, frame, ingress, now, n - 1);
            if n - 1 == ingress {
                s
            } else {
                s.staged(fabric, n - 1, frame, fabric.vports[ingress].id, now)
            }
        }
    }

    /// The state after `frame` was delivered to the control channel.
    pub open spec fn punted(self, frame: Seq<u8>, ingress_id: u16, now: u32) -> ShardState {
        match self.punt {
            None => self.counted(Counter::PuntUnconfiguredDrop, 1),
            Some(q) => if q.frames.len() < q.capacity {
                ShardState {
                    punt: Some(
                        PuntState {
                            frames: q.frames.push(
                                PuntModel {
                                    ingress_vport: ingress_id,
                                    rx_ts_us: now,
                                    bytes: clipped(frame, q.slot_size),
                                },
                            ),
                            ..q
                        },
                    ),
                    ..self
                }
            } else {
                self.counted(Counter::PuntOverflowDrop, 1)
            },
        }
    }

    /// The state after a verdict was carried out: each has one destination or
    /// one counter.
    pub open spec fn dispatched(
        self,
        fabric: Fabric,
        verdict: Verdict,
        frame: Seq<u8>,
        ingress: int,
        now: u32,
    ) -> ShardState {
        match verdict {
            Verdict::Drop => self.counted(Counter::EngineDrop, 1),
            Verdict::Punt => self.punted(frame, fabric.vports[ingress].id, now),
            Verdict::Forward(port) => match last_with_id(
                fabric.vports,
                port,
                fabric.vports.len() as int,
            ) {
                Some(egress) => self.staged(
                    fabric,
                    egress,
                    frame,
                    fabric.vports[ingress].id,
                    now,
                ),
                None => self.counted(Counter::TxUnknownPort, 1),
            },
            Verdict::Broadcast => self.vport_counted(
                ingress,
                VportCounter::TxBroadcast,
                1,
            ).fanned_out(fabric, frame, ingress, now, fabric.vports.len() as int),
        }
    }

    /// The state after a frame with sequence number `seq` was accepted.
    pub open spec fn accepted(self, ingress: int, seq: int, frame_len: int) -> ShardState {
        let s = ShardState {
            rx_seq: self.rx_seq.update(ingress, Some(expect_after(self.rx_seq[ingress], seq))),
            ..self
        }.vport_counted(ingress, VportCounter::RxPkts, 1).vport_counted(
            ingress,
            VportCounter::RxBytes,
            frame_len as u64,
        );
        match classify(self.rx_seq[ingress], seq) {
            SeqEvent::InOrder => s,
            SeqEvent::Gap(missing) => s.vport_counted(
                ingress,
                VportCounter::RxSeqGapTotal,
                missing as u64,
            ),
            SeqEvent::Reorder => s.vport_counted(ingress, VportCounter::RxReorder, 1),
        }
    }

    /// The state after the pipeline decided about an accepted frame. A frame
    /// that grew past the inner MTU is dropped, unless it is dropped anyway.
    pub open spec fn decided(
        self,
        fabric: Fabric,
        decision: (Verdict, Seq<u8>),
        ingress: int,
        now: u32,
    ) -> ShardState {
        if decision.0 != Verdict::Drop && decision.1.len() > fabric.inner_mtu {
            self.counted(Counter::TxOversizeDrop, 1)
        } else {
            self.dispatched(fabric, decision.0, decision.1, ingress, now)
        }
    }
}

/// The state after one segment from vport `ingress`.
#[verifier::opaque]
pub open spec fn segment_received<P: Pipeline>(
    s: ShardState,
    program: &P,
    fabric: Fabric,
    segment: Seq<u8>,
    ingress: int,
    now: u32,
) -> ShardState {
    if segment.len() < OVERLAY_HDR_LEN || segment[0] / 16 != VERSION {
        s.counted(Counter::RxBadHeader, 1)
    } else {
        let frame = segment.subrange(OVERLAY_HDR_LEN as int, segment.len() as int);
        s.accepted(ingress, be32(segment, 4), frame.len() as int).decided(
            fabric,
            P::Engine::decision(program, fabric.vports[ingress].id, frame),
            ingress,
            now,
        )
    }
}

/// The distance from one segment to the next.
pub open spec fn stride_of(len: int, stride: int) -> int {
    if stride == 0 {
        len
    } else {
        stride
    }
}

/// How many pieces of `stride` bytes cover `len` bytes.
#[verifier::opaque]
pub open spec fn pieces(len: int, stride: int) -> int {
    (len + stride - 1) / stride
}

/// How many segments a read holds; the last may be shorter.
pub open spec fn segments_of(len: int, stride: int) -> int {
    pieces(len, stride_of(len, stride))
}

/// Where segment `k` starts.
pub open spec fn segment_start(stride: int, k: int) -> int {
    k * stride
}

/// Segment `k` of a read.
pub open spec fn segment_of(payload: Seq<u8>, stride: int, k: int) -> Seq<u8> {
    let start = segment_start(stride, k);
    payload.subrange(
        start,
        if start + stride <= payload.len() {
            start + stride
        } else {
            payload.len() as int
        },
    )
}

/// The state after the first `n` segments of a read from vport `ingress`.
pub open spec fn segments_received<P: Pipeline>(
    s: ShardState,
    program: &P,
    fabric: Fabric,
    payload: Seq<u8>,
    stride: int,
    ingress: int,
    now: u32,
    n: int,
) -> ShardState
    decreases n,
{
    if n <= 0 {
        s
    } else {
        segment_received(
            segments_received(s, program, fabric, payload, stride, ingress, now, n - 1),
            program,
            fabric,
            segment_of(payload, stride, n - 1),
            ingress,
            now,
        )
    }
}

/// The state after a read. Every segment of it shares a source tuple, so it is
/// looked up once; a read from an unknown peer is counted segment by segment.
pub open spec fn received<P: Pipeline>(
    s: ShardState,
    program: &P,
    fabric: Fabric,
    payload: Seq<u8>,
    read: Read,
    now: u32,
) -> ShardState {
    let len = read.len as int;
    if len == 0 {
        s
    } else {
        let n = segments_of(len, read.stride as int);
        let s = ShardState { metrics: s.metrics.recorded(Hist::GroSegmentsPerRead, n), ..s };
        match last_with_peer(fabric.vports, read.from, fabric.vports.len() as int) {
            None => s.counted(Counter::RxUnknownPeer, n as u64),
            Some(ingress) => segments_received(
                s,
                program,
                fabric,
                payload,
                stride_of(len, read.stride as int),
                ingress,
                now,
                n,
            ),
        }
    }
}

/// Segments on their way out.
#[derive(Debug)]
pub struct Batch {
    egress: VportIdx,
    destination: SocketAddr,
    queue: TxQueue,
    runs: Vec<Run>,
}

impl View for Batch {
    type V = BatchModel;

    closed spec fn view(&self) -> BatchModel {
        BatchModel {
            egress: self.egress.spec_get(),
            destination: self.destination,
            queue: self.queue@,
        }
    }
}

impl Batch {
    /// The runs cover what is staged, for a socket that takes `max` segments
    /// in one write.
    pub closed spec fn wf(&self, max: int) -> bool {
        &&& self.queue.wf()
        &&& are_runs(self.queue@.lens, 0, self.queue@.lens.len() as int, max, self.runs@)
    }

    /// The runs of a batch partition it, and none is larger than the socket
    /// takes.
    pub proof fn law_runs_partition_a_batch(&self, max: int)
        requires
            self.wf(max),
        ensures
            are_runs(
                self@.queue.lens,
                0,
                self@.queue.lens.len() as int,
                max,
                self.spec_runs(),
            ),
            self@.queue.lens.len() <= TX_BATCH,
    {
        self.queue.lemma_bounds();
    }

    /// The system calls the batch takes, one for each.
    pub closed spec fn spec_runs(&self) -> Seq<Run> {
        self.runs@
    }

    /// Where the batch goes.
    #[must_use]
    pub fn destination(&self) -> (r: SocketAddr)
        ensures
            r == self@.destination,
    {
        self.destination
    }

    /// What is sent.
    #[must_use]
    pub fn bytes(&self) -> (r: &[u8])
        requires
            exists|max: int| #[trigger] self.wf(max),
        ensures
            r@ == self@.queue.bytes,
    {
        self.queue.bytes()
    }

    /// The system calls the batch takes.
    #[must_use]
    pub fn runs(&self) -> (r: &[Run])
        ensures
            r@ == self.spec_runs(),
    {
        self.runs.as_slice()
    }
}

/// The segment size to advertise for a run: none for a single datagram, which
/// some drivers are unhappy about.
#[must_use]
pub fn advertised(run: &Run) -> (r: Option<usize>)
    ensures
        r == (if run.count > 1 {
            Some(run.segment_size)
        } else {
            None
        }),
{
    if run.count > 1 {
        Some(run.segment_size)
    } else {
        None
    }
}

/// The segments of the runs that were sent, among the first `n`.
pub open spec fn segments_sent(runs: Seq<Run>, sent: Seq<bool>, n: int) -> int
    decreases n,
{
    if n <= 0 {
        0
    } else {
        segments_sent(runs, sent, n - 1) + if sent[n - 1] {
            runs[n - 1].count as int
        } else {
            0
        }
    }
}

/// The inner bytes that are charged when `sent` of a queue's segments left:
/// all of them if all left, else a share by segment.
pub open spec fn bytes_charged(queue: TxModel, sent: int) -> int {
    if sent == queue.lens.len() {
        queue.inner_bytes()
    } else {
        queue.inner_bytes() * sent / queue.lens.len() as int
    }
}

/// The share of `inner` that `n` of `segments` segments have.
fn share(inner: usize, n: usize, segments: usize) -> (r: u64)
    requires
        n <= segments <= TX_BATCH,
        segments > 0,
    ensures
        r == inner * n / segments as int,
{
    proof {
        assert(inner * n <= u64::MAX * 64 && (inner * n) / segments as int <= inner) by (
            nonlinear_arith)
            requires
                0 <= n <= segments <= 64,
                segments > 0,
                0 <= inner <= u64::MAX,
        ;
    }
    ((inner as u128 * n as u128) / segments as u128) as u64
}

/// What to do after an attempt to send.
#[derive(Clone, Copy, Debug, PartialEq, Eq, Structural)]
pub enum AfterSend {
    /// Try once more.
    Retry,
    /// The run is done with; whether it was sent.
    Done(bool),
}

/// What becomes of an attempt to send.
pub open spec fn send_outcome(retried: bool, result: Result<(), Failure>) -> (
    AfterSend,
    Option<Counter>,
) {
    match result {
        Ok(_) => (AfterSend::Done(true), Some(Counter::SyscallsTx)),
        Err(e) => if retried {
            (AfterSend::Done(false), Some(Counter::TxWouldBlock))
        } else if e is WouldBlock {
            (AfterSend::Retry, None)
        } else {
            (AfterSend::Done(false), Some(Counter::TxSendError))
        },
    }
}

/// Count an attempt to send and decide what follows: a would-block is retried
/// exactly once, and a second failure drops the run.
pub fn after_send(metrics: &mut Metrics, retried: bool, result: Result<(), Failure>) -> (r:
    AfterSend)
    ensures
        r == send_outcome(retried, result).0,
        final(metrics)@ == (match send_outcome(retried, result).1 {
            Some(c) => old(metrics)@.added(c, 1),
            None => old(metrics)@,
        }),
{
    match result {
        Ok(()) => {
            metrics.bump(Counter::SyscallsTx);
            AfterSend::Done(true)
        },
        Err(e) => if retried {
            metrics.bump(Counter::TxWouldBlock);
            AfterSend::Done(false)
        } else {
            match e {
                Failure::WouldBlock => AfterSend::Retry,
                _ => {
                    metrics.bump(Counter::TxSendError);
                    AfterSend::Done(false)
                },
            }
        },
    }
}

/// What a shard needs besides its engine.
#[derive(Clone, Debug)]
pub struct ShardParams {
    /// Shard index, for log context.
    pub id: usize,
    /// The topology, read-only after startup.
    pub topology: Arc<VportTable>,
    /// Largest inner frame this fabric carries.
    pub inner_mtu: usize,
    /// What the shard's socket can do.
    pub caps: SocketCaps,
}

/// A receive/transmit shard.
pub struct Shard<P: Pipeline> {
    id: usize,
    engine: P::Engine,
    topology: Arc<VportTable>,
    inner_mtu: usize,
    caps: SocketCaps,
    tx: Vec<TxQueue>,
    rx_seq: Vec<SeqTracker>,
    tx_seq: Vec<SeqNum>,
    outbox: Vec<Batch>,
    spare: Vec<TxQueue>,
}

/// The views of `v`.
pub open spec fn queue_models(v: Seq<TxQueue>) -> Seq<TxModel> {
    Seq::new(v.len(), |i: int| v[i]@)
}

/// The views of `v`.
pub open spec fn batch_models(v: Seq<Batch>) -> Seq<BatchModel> {
    Seq::new(v.len(), |i: int| v[i]@)
}

impl Node {
    /// The punt queue and its limits.
    pub open spec fn spec_punt(&self) -> Option<PuntState> {
        match self.punt {
            None => None,
            Some(q) => Some(
                PuntState {
                    frames: q@,
                    capacity: q.spec_capacity(),
                    slot_size: q.spec_slot_size(),
                },
            ),
        }
    }

    /// The registry is that of these vports, and the punt queue is in order.
    pub open spec fn wf(&self, vports: int) -> bool {
        &&& self.metrics@.vports.len() == vports
        &&& self.punt matches Some(q) ==> q.wf()
    }
}

impl<P: Pipeline> Shard<P> {
    /// Every queue is in order and has the fabric's segment length, and there
    /// is one for each vport.
    pub closed spec fn wf(&self) -> bool {
        let n = self.topology@.len();
        let seg_len = OVERLAY_HDR_LEN + self.inner_mtu;
        &&& TX_BATCH * seg_len <= usize::MAX
        &&& self.tx@.len() == n
        &&& self.rx_seq@.len() == n
        &&& self.tx_seq@.len() == n
        &&& forall|i: int|
            0 <= i < n ==> (#[trigger] self.tx@[i]).wf() && self.tx@[i].spec_seg_len() == seg_len
        &&& forall|i: int|
            0 <= i < self.spare@.len() ==> (#[trigger] self.spare@[i]).wf()
                && self.spare@[i].spec_seg_len() == seg_len && self.spare@[i]@ == TxModel::empty()
        &&& forall|i: int| 0 <= i < self.outbox@.len() ==> (#[trigger] self.outbox@[i]).wf(
            at_least_one(self.caps.max_gso_segments as int),
        ) && 0 <= self.outbox@[i]@.egress < n && self.outbox@[i]@.queue.lens.len() > 0
    }

    /// The shard's engine.
    pub closed spec fn spec_engine(&self) -> P::Engine {
        self.engine
    }

    /// What the shard goes by.
    pub closed spec fn fabric(&self) -> Fabric {
        Fabric { vports: self.topology@, inner_mtu: self.inner_mtu as int }
    }

    /// What the shard and its node hold.
    pub closed spec fn state(&self, node: &Node) -> ShardState {
        ShardState {
            tx: queue_models(self.tx@),
            tx_seq: Seq::new(self.tx_seq@.len(), |i: int| self.tx_seq@[i]@),
            rx_seq: Seq::new(self.rx_seq@.len(), |i: int| self.rx_seq@[i]@),
            outbox: batch_models(self.outbox@),
            metrics: node.metrics@,
            punt: node.spec_punt(),
        }
    }

    /// The shard's index among its siblings.
    pub closed spec fn spec_id(&self) -> usize {
        self.id
    }

    /// The granted socket capabilities.
    pub closed spec fn spec_caps(&self) -> SocketCaps {
        self.caps
    }

    /// Nothing but buffers differs.
    spec fn same_shard(&self, other: &Self) -> bool {
        &&& self.id == other.id
        &&& self.engine == other.engine
        &&& self.topology == other.topology
        &&& self.inner_mtu == other.inner_mtu
        &&& self.caps == other.caps
    }

    /// Assemble a shard with a fresh engine of `program`.
    #[must_use]
    pub fn new(program: &P, params: ShardParams) -> (r: Self)
        requires
            program.inv(),
            TX_BATCH * (OVERLAY_HDR_LEN + params.inner_mtu) <= usize::MAX,
        ensures
            r.wf(),
            r.spec_engine().follows(program),
            r.fabric() == (Fabric {
                vports: params.topology@,
                inner_mtu: params.inner_mtu as int,
            }),
            r.spec_caps() == params.caps,
            r.spec_id() == params.id,
            forall|node: &Node|
                #[trigger] r.state(node) == ShardState::fresh(
                    params.topology@.len(),
                    node.metrics@,
                    node.spec_punt(),
                ),
    {
        let n: usize = params.topology.len();
        let mut tx: Vec<TxQueue> = Vec::new();
        let mut rx_seq: Vec<SeqTracker> = Vec::new();
        let mut tx_seq: Vec<SeqNum> = Vec::new();
        let mut i: usize = 0;
        while i < n
            invariant
                i <= n,
                TX_BATCH * (OVERLAY_HDR_LEN + params.inner_mtu) <= usize::MAX,
                tx@.len() == i,
                rx_seq@.len() == i,
                tx_seq@.len() == i,
                forall|j: int|
                    0 <= j < i ==> (#[trigger] tx@[j]).wf() && tx@[j].spec_seg_len()
                        == OVERLAY_HDR_LEN + params.inner_mtu && tx@[j]@ == TxModel::empty(),
                forall|j: int| 0 <= j < i ==> (#[trigger] rx_seq@[j])@ == None::<int>,
                forall|j: int| 0 <= j < i ==> (#[trigger] tx_seq@[j])@ == 0,
            decreases n - i,
        {
            tx.push(TxQueue::new(params.inner_mtu));
            rx_seq.push(SeqTracker::new());
            tx_seq.push(SeqNum::new(0));
            i += 1;
        }
        let r = Shard {
            id: params.id,
            engine: program.engine(),
            topology: params.topology,
            inner_mtu: params.inner_mtu,
            caps: params.caps,
            tx,
            rx_seq,
            tx_seq,
            outbox: Vec::new(),
            spare: Vec::new(),
        };
        assert forall|node: &Node| #[trigger] r.state(node) == ShardState::fresh(
            params.topology@.len(),
            node.metrics@,
            node.spec_punt(),
        ) by {
            let want = ShardState::fresh(
                params.topology@.len(),
                node.metrics@,
                node.spec_punt(),
            );
            assert(r.state(node).tx =~= want.tx);
            assert(r.state(node).tx_seq =~= want.tx_seq);
            assert(r.state(node).rx_seq =~= want.rx_seq);
            assert(r.state(node).outbox =~= want.outbox);
        }
        r
    }

    /// Shard index, for log context.
    #[must_use]
    pub fn id(&self) -> (r: usize)
        ensures
            r == self.spec_id(),
    {
        self.id
    }

    /// Bytes each receive slot must hold: a fully coalesced read, plus the
    /// headroom the pipeline is promised.
    #[must_use]
    pub fn slot_len(&self) -> (r: usize)
        requires
            HEADROOM + (OVERLAY_HDR_LEN + self.fabric().inner_mtu) * at_least_one(
                self.spec_caps().gro_segments as int,
            ) <= usize::MAX,
        ensures
            r == HEADROOM + (OVERLAY_HDR_LEN + self.fabric().inner_mtu) * at_least_one(
                self.spec_caps().gro_segments as int,
            ),
    {
        let n: usize = if self.caps.gro_segments < 1 {
            1
        } else {
            self.caps.gro_segments
        };
        proof {
            let seg = OVERLAY_HDR_LEN + self.inner_mtu;
            assert(seg <= seg * n) by (nonlinear_arith)
                requires
                    n >= 1,
                    seg >= 0,
            ;
        }
        HEADROOM + (OVERLAY_HDR_LEN + self.inner_mtu) * n
    }

    /// Move one destination's staged segments to the outbox.
    fn flush(&mut self, node: &mut Node, egress: VportIdx)
        requires
            old(self).wf(),
            old(node).wf(old(self).topology@.len() as int),
            0 <= egress.spec_get() < old(self).topology@.len(),
        ensures
            final(self).wf(),
            final(node).wf(old(self).topology@.len() as int),
            final(self).same_shard(old(self)),
            final(self).state(final(node)) == old(self).state(old(node)).flushed(
                old(self).fabric(),
                egress.spec_get(),
            ),
            final(self).tx@[egress.spec_get()]@ == TxModel::empty(),
    {
        let i: usize = egress.get();
        let ghost before = self.state(node);
        assert(self.tx@[i as int].wf());
        if self.tx[i].is_empty() {
            proof {
                self.tx@[i as int].lemma_bounds();
                assert(self.tx@[i as int]@ =~= TxModel::empty());
            }
            return;
        }
        let queue: TxQueue = self.swap_out(i);
        let ghost swapped = *self;
        node.metrics.record(Hist::TxBatchSize, queue.len());
        let runs: Vec<Run> = queue.runs(self.caps.max_gso_segments).collect();
        let destination: SocketAddr = self.topology.get(egress).peer;
        let batch = Batch { egress, destination, queue, runs };
        assert(are_runs(
            batch.queue@.lens,
            0,
            batch.queue@.lens.len() as int,
            at_least_one(self.caps.max_gso_segments as int),
            batch.runs@,
        ));
        let ghost max = at_least_one(self.caps.max_gso_segments as int);
        assert(batch.wf(max));
        self.outbox.push(batch);
        proof {
            assert(self.wf()) by {
                assert forall|k: int| 0 <= k < self.outbox@.len() implies (
                #[trigger] self.outbox@[k]).wf(max) && 0 <= self.outbox@[k]@.egress
                    < self.topology@.len() && self.outbox@[k]@.queue.lens.len() > 0 by {
                    if k < swapped.outbox@.len() {
                        assert(self.outbox@[k] == swapped.outbox@[k]);
                    }
                }
            }
            let after = self.state(node);
            let want = before.flushed(self.fabric(), i as int);
            assert(after.tx == want.tx);
            assert(after.outbox =~= want.outbox);
            assert(after.tx_seq == want.tx_seq);
            assert(after.rx_seq == want.rx_seq);
        }
    }

    /// Take a destination's queue, leaving an empty one in its place.
    fn swap_out(&mut self, i: usize) -> (r: TxQueue)
        requires
            old(self).wf(),
            i < old(self).topology@.len(),
        ensures
            final(self).wf(),
            final(self).same_shard(old(self)),
            final(self).rx_seq == old(self).rx_seq,
            final(self).tx_seq == old(self).tx_seq,
            final(self).outbox == old(self).outbox,
            r == old(self).tx@[i as int],
            r.wf(),
            final(self).tx@[i as int]@ == TxModel::empty(),
            queue_models(final(self).tx@) == queue_models(old(self).tx@).update(
                i as int,
                TxModel::empty(),
            ),
    {
        let ghost n = self.topology@.len();
        assert(self.tx@[i as int].wf());
        let mut queue: TxQueue = match self.spare.pop() {
            Some(q) => q,
            None => TxQueue::new(self.inner_mtu),
        };
        let ghost fresh = queue;
        assert(fresh.wf() && fresh@ == TxModel::empty() && fresh.spec_seg_len() == OVERLAY_HDR_LEN
            + self.inner_mtu);
        core::mem::swap(&mut queue, &mut self.tx[i]);
        proof {
            assert(self.tx@ == old(self).tx@.update(i as int, fresh));
            assert forall|k: int| 0 <= k < n implies (#[trigger] self.tx@[k]).wf()
                && self.tx@[k].spec_seg_len() == OVERLAY_HDR_LEN + self.inner_mtu by {
                if k != i {
                    assert(self.tx@[k] == old(self).tx@[k]);
                }
            }
            assert forall|k: int| 0 <= k < self.spare@.len() implies (#[trigger] self.spare@[k]).wf()
                && self.spare@[k].spec_seg_len() == OVERLAY_HDR_LEN + self.inner_mtu
                && self.spare@[k]@ == TxModel::empty() by {
                assert(self.spare@[k] == old(self).spare@[k]);
            }
            assert(queue_models(self.tx@) =~= queue_models(old(self).tx@).update(
                i as int,
                TxModel::empty(),
            ));
        }
        queue
    }

    /// Move every destination's staged segments to the outbox.
    pub fn flush_all(&mut self, node: &mut Node)
        requires
            old(self).wf(),
            old(node).wf(old(self).fabric().vports.len() as int),
        ensures
            final(self).wf(),
            final(node).wf(old(self).fabric().vports.len() as int),
            final(self).spec_engine() == old(self).spec_engine(),
            final(self).fabric() == old(self).fabric(),
            final(self).spec_caps() == old(self).spec_caps(),
            final(self).spec_id() == old(self).spec_id(),
            final(self).state(final(node)) == old(self).state(old(node)).all_flushed(
                old(self).fabric(),
                old(self).fabric().vports.len() as int,
            ),
    {
        let all: Vec<(VportIdx, Vport)> = self.topology.iter();
        let ghost fabric = self.fabric();
        let ghost before = self.state(node);
        let mut i: usize = 0;
        while i < all.len()
            invariant
                i <= all@.len(),
                all@.len() == fabric.vports.len(),
                fabric == old(self).fabric(),
                before == old(self).state(old(node)),
                forall|j: int| 0 <= j < all@.len() ==> (#[trigger] all@[j]).0.spec_get() == j,
                self.wf(),
                self.same_shard(old(self)),
                node.wf(fabric.vports.len() as int),
                self.state(node) == before.all_flushed(fabric, i as int),
            decreases all.len() - i,
        {
            let egress: VportIdx = all[i].0;
            self.flush(node, egress);
            i += 1;
        }
    }

    /// Stamp an overlay header and stage the frame for `egress`.
    fn stage(&mut self, node: &mut Node, egress: VportIdx, frame: &[u8], ingress_id: u16, now: u32)
        requires
            old(self).wf(),
            old(node).wf(old(self).topology@.len() as int),
            0 <= egress.spec_get() < old(self).topology@.len(),
        ensures
            final(self).wf(),
            final(node).wf(old(self).topology@.len() as int),
            final(self).same_shard(old(self)),
            final(self).state(final(node)) == old(self).state(old(node)).staged(
                old(self).fabric(),
                egress.spec_get(),
                frame@,
                ingress_id,
                now,
            ),
    {
        let i: usize = egress.get();
        let ghost fabric = self.fabric();
        let ghost start = self.state(node);
        if self.tx[i].is_full() {
            self.flush(node, egress);
        }
        let ghost mid = self.state(node);
        proof {
            assert(mid == if start.tx[i as int].is_full() {
                start.flushed(fabric, i as int)
            } else {
                start
            });
            assert(!self.tx@[i as int]@.is_full());
        }
        let seq: SeqNum = self.tx_seq[i];
        let mut hdr: [u8; 12] = [0, 0, 0, 0, 0, 0, 0, 0, 0, 0, 0, 0];
        encode(&Hdr { ingress_vport: ingress_id, seq, ts_us: now }, &mut hdr);
        let ghost queue = self.tx@[i as int];
        let pushed: bool = self.tx[i].push(&hdr, frame);
        if pushed {
            self.tx_seq[i] = seq.next();
        } else {
            node.metrics.bump(Counter::TxOversizeDrop);
        }
        proof {
            let after = self.state(node);
            let want = start.staged(fabric, i as int, frame@, ingress_id, now);
            assert(mid.tx[i as int] == queue@);
            assert(mid.tx_seq[i as int] == seq@);
            assert(hdr@ == header_of(ingress_id as int, seq@, now as int));
            assert(after.tx =~= want.tx);
            assert(after.tx_seq =~= want.tx_seq);
            assert(after.rx_seq =~= want.rx_seq);
            assert(after.outbox =~= want.outbox);
        }
    }

    /// Carry out a verdict.
    fn dispatch(
        &mut self,
        node: &mut Node,
        verdict: Verdict,
        frame: &[u8],
        ingress: VportIdx,
        now: u32,
    )
        requires
            old(self).wf(),
            old(node).wf(old(self).topology@.len() as int),
            0 <= ingress.spec_get() < old(self).topology@.len(),
        ensures
            final(self).wf(),
            final(node).wf(old(self).topology@.len() as int),
            final(self).same_shard(old(self)),
            final(self).state(final(node)) == old(self).state(old(node)).dispatched(
                old(self).fabric(),
                verdict,
                frame@,
                ingress.spec_get(),
                now,
            ),
    {
        let ghost fabric = self.fabric();
        let ghost before = self.state(node);
        let ingress_id: u16 = self.topology.get(ingress).id.get();
        match verdict {
            Verdict::Drop => node.metrics.bump(Counter::EngineDrop),
            Verdict::Punt => punt(node, frame, ingress_id, now),
            Verdict::Forward(port) => match self.topology.idx_of_id(port) {
                Some(egress) => {
                    proof {
                        lemma_found_id(fabric.vports, port, egress.spec_get());
                    }
                    self.stage(node, egress, frame, ingress_id, now)
                },
                None => {
                    proof {
                        lemma_no_id(fabric.vports, port, fabric.vports.len() as int);
                    }
                    node.metrics.bump(Counter::TxUnknownPort)
                },
            },
            Verdict::Broadcast => {
                node.metrics.vport_add(ingress, VportCounter::TxBroadcast, 1);
                assert(self.state(node) == before.vport_counted(
                    ingress.spec_get(),
                    VportCounter::TxBroadcast,
                    1,
                ));
                self.fan_out(node, frame, ingress, ingress_id, now);
            },
        }
    }

    /// Stage a frame for every vport but the one it came from.
    fn fan_out(
        &mut self,
        node: &mut Node,
        frame: &[u8],
        ingress: VportIdx,
        ingress_id: u16,
        now: u32,
    )
        requires
            old(self).wf(),
            old(node).wf(old(self).topology@.len() as int),
            0 <= ingress.spec_get() < old(self).topology@.len(),
            ingress_id == old(self).topology@[ingress.spec_get()].id,
        ensures
            final(self).wf(),
            final(node).wf(old(self).topology@.len() as int),
            final(self).same_shard(old(self)),
            final(self).state(final(node)) == old(self).state(old(node)).fanned_out(
                old(self).fabric(),
                frame@,
                ingress.spec_get(),
                now,
                old(self).topology@.len() as int,
            ),
    {
        let ghost fabric = self.fabric();
        let ghost base = self.state(node);
        let all: Vec<(VportIdx, Vport)> = self.topology.iter();
        let mut i: usize = 0;
        while i < all.len()
            invariant
                i <= all@.len(),
                all@.len() == fabric.vports.len(),
                fabric == old(self).fabric(),
                forall|j: int| 0 <= j < all@.len() ==> (#[trigger] all@[j]).0.spec_get() == j,
                self.wf(),
                self.same_shard(old(self)),
                node.wf(fabric.vports.len() as int),
                0 <= ingress.spec_get() < fabric.vports.len(),
                ingress_id == fabric.vports[ingress.spec_get()].id,
                self.state(node) == base.fanned_out(
                    fabric,
                    frame@,
                    ingress.spec_get(),
                    now,
                    i as int,
                ),
            decreases all.len() - i,
        {
            let egress: VportIdx = all[i].0;
            if egress.get() != ingress.get() {
                self.stage(node, egress, frame, ingress_id, now);
            }
            i += 1;
        }
    }

    /// Account for an accepted frame.
    fn accept(&mut self, node: &mut Node, ingress: VportIdx, seq: SeqNum, frame_len: usize)
        requires
            old(self).wf(),
            old(node).wf(old(self).topology@.len() as int),
            0 <= ingress.spec_get() < old(self).topology@.len(),
        ensures
            final(self).wf(),
            final(node).wf(old(self).topology@.len() as int),
            final(self).same_shard(old(self)),
            final(self).state(final(node)) == old(self).state(old(node)).accepted(
                ingress.spec_get(),
                seq@,
                frame_len as int,
            ),
    {
        let i: usize = ingress.get();
        let ghost before = self.state(node);
        let mut tracker: SeqTracker = self.rx_seq[i];
        let event: SeqEvent = tracker.observe(seq);
        self.rx_seq[i] = tracker;
        node.metrics.vport_add(ingress, VportCounter::RxPkts, 1);
        node.metrics.vport_add(ingress, VportCounter::RxBytes, frame_len as u64);
        match event {
            SeqEvent::InOrder => {},
            SeqEvent::Gap(missing) => node.metrics.vport_add(
                ingress,
                VportCounter::RxSeqGapTotal,
                missing as u64,
            ),
            SeqEvent::Reorder => node.metrics.vport_add(ingress, VportCounter::RxReorder, 1),
        }
        proof {
            let after = self.state(node);
            let want = before.accepted(i as int, seq@, frame_len as int);
            assert(after.rx_seq =~= want.rx_seq);
            assert(after.tx =~= want.tx);
            assert(after.tx_seq =~= want.tx_seq);
            assert(after.outbox =~= want.outbox);
        }
    }

    /// Process the segment that lies in `slot[start..end]`.
    fn receive_segment(
        &mut self,
        node: &mut Node,
        program: &P,
        slot: &mut [u8],
        start: usize,
        end: usize,
        ingress: VportIdx,
        now: u32,
    )
        requires
            old(self).wf(),
            old(node).wf(old(self).topology@.len() as int),
            old(self).engine.follows(program),
            program.inv(),
            0 <= ingress.spec_get() < old(self).topology@.len(),
            HEADROOM <= start <= end <= old(slot)@.len(),
        ensures
            final(self).wf(),
            final(node).wf(old(self).topology@.len() as int),
            final(self).engine.follows(program),
            final(self).topology == old(self).topology,
            final(self).inner_mtu == old(self).inner_mtu,
            final(self).caps == old(self).caps,
            final(self).id == old(self).id,
            final(slot)@.len() == old(slot)@.len(),
            final(slot)@.subrange(end as int, final(slot)@.len() as int) == old(slot)@.subrange(
                end as int,
                old(slot)@.len() as int,
            ),
            final(self).state(final(node)) == segment_received(
                old(self).state(old(node)),
                program,
                old(self).fabric(),
                old(slot)@.subrange(start as int, end as int),
                ingress.spec_get(),
                now,
            ),
    {
        proof {
            reveal(segment_received);
        }
        let ghost fabric = self.fabric();
        let ghost segment = slot@.subrange(start as int, end as int);
        let hdr: Hdr = match decode(&slot[start..end]) {
            Ok(hdr) => hdr,
            Err(_) => {
                node.metrics.bump(Counter::RxBadHeader);
                return;
            },
        };
        let frame_start: usize = start + OVERLAY_HDR_LEN;
        let frame_len: usize = end - frame_start;
        let ghost frame = segment.subrange(OVERLAY_HDR_LEN as int, segment.len() as int);
        assert(frame == slot@.subrange(frame_start as int, end as int));
        self.accept(node, ingress, hdr.seq, frame_len);
        let ghost accepted = self.state(node);
        let ingress_id: u16 = self.topology.get(ingress).id.get();
        let (verdict, head, len): (Verdict, usize, usize) = process_in_place(
            &mut self.engine,
            program,
            slot,
            frame_start,
            end,
            ingress_id,
            now,
        );
        assert(self.state(node) == accepted);
        let is_drop: bool = match verdict {
            Verdict::Drop => true,
            _ => false,
        };
        if !is_drop && len > self.inner_mtu {
            node.metrics.bump(Counter::TxOversizeDrop);
            return;
        }
        let out: &[u8] = &slot[head..head + len];
        self.dispatch(node, verdict, out, ingress, now);
    }

    /// Process one received buffer, which may hold many segments, from the
    /// slot it was received into.
    pub fn receive(
        &mut self,
        node: &mut Node,
        program: &P,
        slot: &mut [u8],
        read: Read,
        now: u32,
    )
        requires
            old(self).wf(),
            old(node).wf(old(self).fabric().vports.len() as int),
            old(self).spec_engine().follows(program),
            program.inv(),
            HEADROOM + read.len <= old(slot)@.len(),
        ensures
            final(self).wf(),
            final(node).wf(old(self).fabric().vports.len() as int),
            final(self).spec_engine().follows(program),
            final(self).fabric() == old(self).fabric(),
            final(self).spec_caps() == old(self).spec_caps(),
            final(self).spec_id() == old(self).spec_id(),
            final(slot)@.len() == old(slot)@.len(),
            final(slot)@.subrange(HEADROOM + read.len, final(slot)@.len() as int) == old(
                slot,
            )@.subrange(HEADROOM + read.len, old(slot)@.len() as int),
            final(self).state(final(node)) == received(
                old(self).state(old(node)),
                program,
                old(self).fabric(),
                old(slot)@.subrange(HEADROOM as int, HEADROOM + read.len),
                read,
                now,
            ),
            read.len == 0 || last_with_peer(
                old(self).fabric().vports,
                read.from,
                old(self).fabric().vports.len() as int,
            ) is None ==> final(slot)@ == old(slot)@ && final(self).spec_engine() == old(
                self,
            ).spec_engine(),
    {
        if read.len == 0 {
            return;
        }
        let ghost fabric = self.fabric();
        let ghost payload = slot@.subrange(HEADROOM as int, HEADROOM + read.len);
        let stride: usize = if read.stride == 0 {
            read.len
        } else {
            read.stride
        };
        proof {
            lemma_segments(read.len as int, stride as int);
        }
        let whole: usize = read.len / stride;
        let segments: usize = if read.len % stride == 0 {
            whole
        } else {
            whole + 1
        };
        node.metrics.record(Hist::GroSegmentsPerRead, segments);
        let ingress: VportIdx = match self.topology.idx_of_peer(&read.from) {
            Some(ingress) => ingress,
            None => {
                proof {
                    lemma_no_peer(fabric.vports, read.from, fabric.vports.len() as int);
                }
                node.metrics.add(Counter::RxUnknownPeer, segments as u64);
                return;
            },
        };
        proof {
            lemma_found_peer(fabric.vports, read.from, ingress.spec_get());
        }
        proof {
            assert(stride == stride_of(read.len as int, read.stride as int));
        }
        self.receive_segments(node, program, slot, read.len, stride, segments, ingress, now);
        assert(slot@.subrange(HEADROOM + read.len, slot@.len() as int) =~= old(slot)@.subrange(
            HEADROOM + read.len,
            slot@.len() as int,
        ));
    }

    /// Process the segments of a read, front to back.
    fn receive_segments(
        &mut self,
        node: &mut Node,
        program: &P,
        slot: &mut [u8],
        len: usize,
        stride: usize,
        segments: usize,
        ingress: VportIdx,
        now: u32,
    )
        requires
            old(self).wf(),
            old(node).wf(old(self).topology@.len() as int),
            old(self).engine.follows(program),
            program.inv(),
            HEADROOM + len <= old(slot)@.len(),
            0 < len,
            0 < stride,
            segments == pieces(len as int, stride as int),
            0 <= ingress.spec_get() < old(self).topology@.len(),
        ensures
            final(self).wf(),
            final(node).wf(old(self).topology@.len() as int),
            final(self).engine.follows(program),
            final(self).topology == old(self).topology,
            final(self).inner_mtu == old(self).inner_mtu,
            final(self).caps == old(self).caps,
            final(self).id == old(self).id,
            final(slot)@.len() == old(slot)@.len(),
            untouched(old(slot)@, final(slot)@, HEADROOM + len),
            final(self).state(final(node)) == segments_received(
                old(self).state(old(node)),
                program,
                old(self).fabric(),
                old(slot)@.subrange(HEADROOM as int, HEADROOM + len),
                stride as int,
                ingress.spec_get(),
                now,
                segments as int,
            ),
    {
        let ghost fabric = self.fabric();
        let ghost base = self.state(node);
        assert(slot.len() <= usize::MAX);
        let end: usize = HEADROOM + len;
        let ghost given = slot@;
        let ghost payload = slot@.subrange(HEADROOM as int, HEADROOM + len);
        let mut k: usize = 0;
        let mut at: usize = HEADROOM;
        assert(segment_start(stride as int, 0) == 0);
        assert(base == segments_received(
            base,
            program,
            fabric,
            payload,
            stride as int,
            ingress.spec_get(),
            now,
            0,
        ));
        while k < segments
            invariant
                k <= segments,
                0 < stride,
                0 < len,
                segments == pieces(len as int, stride as int),
                end == HEADROOM + len,
                end <= given.len(),
                slot@.len() == given.len(),
                k < segments ==> at == HEADROOM + segment_start(stride as int, k as int),
                HEADROOM <= at <= end,
                untouched(given, slot@, at as int),
                given == old(slot)@,
                payload == given.subrange(HEADROOM as int, end as int),
                self.wf(),
                node.wf(fabric.vports.len() as int),
                fabric == self.fabric(),
                self.topology == old(self).topology,
                self.inner_mtu == old(self).inner_mtu,
                self.caps == old(self).caps,
                self.id == old(self).id,
                self.engine.follows(program),
                program.inv(),
                0 <= ingress.spec_get() < fabric.vports.len(),
                self.state(node) == segments_received(
                    base,
                    program,
                    fabric,
                    payload,
                    stride as int,
                    ingress.spec_get(),
                    now,
                    k as int,
                ),
            decreases segments - k,
        {
            proof {
                lemma_next_segment(len as int, stride as int, k as int);
            }
            let next: usize = if end - at <= stride {
                end
            } else {
                at + stride
            };
            proof {
                lemma_segment_lies(given, slot@, payload, len as int, stride as int, k as int);
            }
            let ghost kept = slot@;
            self.receive_segment(node, program, slot, at, next, ingress, now);
            proof {
                assert(untouched(kept, slot@, next as int)) by {
                    let a = slot@.subrange(next as int, slot@.len() as int);
                    let b = kept.subrange(next as int, kept.len() as int);
                    assert forall|j: int| next <= j < kept.len() implies kept[j] == slot@[j] by {
                        assert(a[j - next] == b[j - next]);
                    }
                }
            }
            at = next;
            k += 1;
        }
    }

    /// Take what is to be sent, in the order in which it was flushed.
    pub fn take_outbox(&mut self) -> (r: Vec<Batch>)
        requires
            old(self).wf(),
        ensures
            final(self).wf(),
            final(self).spec_engine() == old(self).spec_engine(),
            final(self).fabric() == old(self).fabric(),
            final(self).spec_caps() == old(self).spec_caps(),
            final(self).spec_id() == old(self).spec_id(),
            forall|i: int|
                0 <= i < r@.len() ==> (#[trigger] r@[i]).wf(
                    at_least_one(old(self).spec_caps().max_gso_segments as int),
                ) && 0 <= r@[i]@.egress < old(self).fabric().vports.len()
                    && r@[i]@.queue.lens.len() > 0,
            forall|node: &Node|
                #![trigger final(self).state(node)]
                old(self).state(node).outbox == batch_models(r@) && final(self).state(node) == (
                ShardState { outbox: Seq::empty(), ..old(self).state(node) }),
    {
        let mut out: Vec<Batch> = Vec::new();
        core::mem::swap(&mut out, &mut self.outbox);
        assert forall|node: &Node| #![trigger self.state(node)] self.state(node) == (ShardState {
            outbox: Seq::empty(),
            ..old(self).state(node)
        }) by {
            assert(self.state(node).outbox =~= Seq::empty());
        }
        out
    }

    /// Account for a batch of which the runs marked in `sent` left, and keep
    /// its buffer for the next one.
    pub fn settle(&mut self, node: &mut Node, batch: Batch, sent: &[bool])
        requires
            old(self).wf(),
            old(node).wf(old(self).fabric().vports.len() as int),
            batch.wf(at_least_one(old(self).spec_caps().max_gso_segments as int)),
            0 <= batch@.egress < old(self).fabric().vports.len(),
            batch@.queue.lens.len() > 0,
            sent@.len() == batch.spec_runs().len(),
        ensures
            final(self).wf(),
            final(node).wf(old(self).fabric().vports.len() as int),
            final(self).spec_engine() == old(self).spec_engine(),
            final(self).fabric() == old(self).fabric(),
            final(self).spec_caps() == old(self).spec_caps(),
            final(self).spec_id() == old(self).spec_id(),
            ({
                let n = segments_sent(batch.spec_runs(), sent@, sent@.len() as int);
                final(self).state(final(node)) == old(self).state(old(node)).vport_counted(
                    batch@.egress,
                    VportCounter::TxPkts,
                    n as u64,
                ).vport_counted(
                    batch@.egress,
                    VportCounter::TxBytes,
                    bytes_charged(batch@.queue, n) as u64,
                )
            }),
    {
        let ghost before = self.state(node);
        proof {
            batch.queue.lemma_bounds();
        }
        let n: usize = count_sent(batch.runs.as_slice(), sent);
        let segments: usize = batch.queue.len();
        let inner: usize = batch.queue.inner_bytes();
        node.metrics.vport_add(batch.egress, VportCounter::TxPkts, n as u64);
        let charged: u64 = if n == segments {
            inner as u64
        } else {
            share(inner, n, segments)
        };
        node.metrics.vport_add(batch.egress, VportCounter::TxBytes, charged);
        let ghost counted = node.metrics@;
        self.recycle(batch.queue);
        proof {
            assert(self.state(node) =~= ShardState { metrics: counted, ..before });
        }
    }

    /// Keep a queue's buffer for the next flush, emptied. One of another
    /// segment length is of no use and is let go.
    fn recycle(&mut self, queue: TxQueue)
        requires
            old(self).wf(),
            queue.wf(),
        ensures
            final(self).wf(),
            final(self).same_shard(old(self)),
            final(self).tx == old(self).tx,
            final(self).tx_seq == old(self).tx_seq,
            final(self).rx_seq == old(self).rx_seq,
            final(self).outbox == old(self).outbox,
            queue.spec_seg_len() != OVERLAY_HDR_LEN + old(self).inner_mtu ==> final(self).spare@
                == old(self).spare@,
            queue.spec_seg_len() == OVERLAY_HDR_LEN + old(self).inner_mtu ==> {
                &&& final(self).spare@.len() == old(self).spare@.len() + 1
                &&& final(self).spare@.drop_last() == old(self).spare@
                &&& final(self).spare@.last()@ == TxModel::empty()
                &&& final(self).spare@.last().spec_storage() == queue.spec_storage()
            },
    {
        let mut spare: TxQueue = queue;
        if spare.seg_len() == OVERLAY_HDR_LEN + self.inner_mtu {
            spare.clear();
            self.spare.push(spare);
            proof {
                assert forall|k: int| 0 <= k < self.spare@.len() implies (
                #[trigger] self.spare@[k]).wf() && self.spare@[k].spec_seg_len() == OVERLAY_HDR_LEN
                    + self.inner_mtu && self.spare@[k]@ == TxModel::empty() by {
                    if k < old(self).spare@.len() {
                        assert(self.spare@[k] == old(self).spare@[k]);
                    }
                }
                assert forall|k: int| 0 <= k < self.tx@.len() implies (#[trigger] self.tx@[k]).wf()
                    && self.tx@[k].spec_seg_len() == OVERLAY_HDR_LEN + self.inner_mtu by {
                    assert(self.tx@[k] == old(self).tx@[k]);
                }
            }
        }
    }
}

/// The segments of the runs that were sent.
fn count_sent(runs: &[Run], sent: &[bool]) -> (n: usize)
    requires
        sent@.len() == runs@.len(),
        crate::tx::segments(runs@, runs@.len() as int) <= TX_BATCH,
    ensures
        n == segments_sent(runs@, sent@, sent@.len() as int),
        n <= crate::tx::segments(runs@, runs@.len() as int),
{
    proof {
        lemma_sent_bounds(runs@, sent@, sent@.len() as int);
    }
    let mut n: usize = 0;
    let mut i: usize = 0;
    while i < sent.len()
        invariant
            i <= sent@.len(),
            sent@.len() == runs@.len(),
            n == segments_sent(runs@, sent@, i as int),
            segments_sent(runs@, sent@, sent@.len() as int) <= TX_BATCH,
        decreases sent.len() - i,
    {
        proof {
            lemma_sent_grows(runs@, sent@, i + 1, sent@.len() as int);
        }
        if sent[i] {
            n = n + runs[i].count;
        }
        i += 1;
    }
    n
}

impl ShardState {
    /// A shard that has seen nothing.
    pub open spec fn fresh(n: nat, metrics: MetricsModel, punt: Option<PuntState>) -> ShardState {
        ShardState {
            tx: Seq::new(n, |i: int| TxModel::empty()),
            tx_seq: Seq::new(n, |i: int| 0int),
            rx_seq: Seq::new(n, |i: int| None::<int>),
            outbox: Seq::empty(),
            metrics,
            punt,
        }
    }
}

/// Deliver a frame to the control channel.
fn punt(node: &mut Node, frame: &[u8], ingress_id: u16, now: u32)
    requires
        old(node).punt matches Some(q) ==> q.wf(),
    ensures
        final(node).punt matches Some(q) ==> q.wf(),
        forall|s: ShardState|
            s.metrics == old(node).metrics@ && s.punt == old(node).spec_punt()
                ==> #[trigger] s.punted(frame@, ingress_id, now) == (ShardState {
                metrics: final(node).metrics@,
                punt: final(node).spec_punt(),
                ..s
            }),
        final(node).metrics@.vports == old(node).metrics@.vports,
{
    let queued: Option<bool> = match &mut node.punt {
        Some(queue) => Some(queue.push(frame, ingress_id, now)),
        None => None,
    };
    match queued {
        Some(true) => {},
        Some(false) => node.metrics.bump(Counter::PuntOverflowDrop),
        None => node.metrics.bump(Counter::PuntUnconfiguredDrop),
    }
}

/// Let the engine process the frame in `slot[start..end]`, with everything in
/// front of it as headroom, at least what every frame is promised. Where the frame stands afterwards is returned with
/// the verdict.
fn process_in_place<P: Pipeline>(
    engine: &mut P::Engine,
    program: &P,
    slot: &mut [u8],
    start: usize,
    end: usize,
    ingress_id: u16,
    now: u32,
) -> (r: (Verdict, usize, usize))
    requires
        program.inv(),
        old(engine).follows(program),
        MIN_HEADROOM <= start <= end <= old(slot)@.len(),
    ensures
        final(engine).follows(program),
        final(slot)@.len() == old(slot)@.len(),
        final(slot)@.subrange(end as int, final(slot)@.len() as int) == old(slot)@.subrange(
            end as int,
            old(slot)@.len() as int,
        ),
        r.1 + r.2 <= end,
        (r.0, final(slot)@.subrange(r.1 as int, r.1 + r.2)) == P::Engine::decision(
            program,
            ingress_id,
            old(slot)@.subrange(start as int, end as int),
        ),
{
    let ghost whole = slot@;
    let (front, _) = slot.split_at_mut(end);
    let ghost shown = front@;
    assert(shown == whole.subrange(0, end as int));
    match FrameCtx::new(front, start, end - start, ingress_id, now) {
        Some(mut ctx) => {
            assert(ctx.bytes() =~= whole.subrange(start as int, end as int));
            let verdict: Verdict = engine.process(program, &mut ctx);
            (verdict, ctx.headroom, ctx.len)
        },
        None => (Verdict::Drop, start, end - start),
    }
}

pub proof fn lemma_found_id(v: Seq<VportModel>, id: u16, at: int)
    requires
        distinct(v),
        0 <= at < v.len(),
        v[at].id == id,
    ensures
        last_with_id(v, id, v.len() as int) == Some(at),
{
    lemma_found_id_below(v, id, at, v.len() as int);
}

proof fn lemma_found_id_below(v: Seq<VportModel>, id: u16, at: int, n: int)
    requires
        distinct(v),
        0 <= at < n <= v.len(),
        v[at].id == id,
    ensures
        last_with_id(v, id, n) == Some(at),
    decreases n,
{
    if n - 1 != at {
        assert(v[at].id != v[n - 1].id);
        lemma_found_id_below(v, id, at, n - 1);
    }
}

pub proof fn lemma_no_id(v: Seq<VportModel>, id: u16, n: int)
    requires
        0 <= n <= v.len(),
        forall|i: int| 0 <= i < v.len() ==> (#[trigger] v[i]).id != id,
    ensures
        last_with_id(v, id, n) is None,
    decreases n,
{
    if n > 0 {
        assert(v[n - 1].id != id);
        lemma_no_id(v, id, n - 1);
    }
}

pub proof fn lemma_found_peer(v: Seq<VportModel>, peer: SocketAddr, at: int)
    requires
        distinct(v),
        0 <= at < v.len(),
        v[at].peer == peer,
    ensures
        last_with_peer(v, peer, v.len() as int) == Some(at),
{
    lemma_found_peer_below(v, peer, at, v.len() as int);
}

proof fn lemma_found_peer_below(v: Seq<VportModel>, peer: SocketAddr, at: int, n: int)
    requires
        distinct(v),
        0 <= at < n <= v.len(),
        v[at].peer == peer,
    ensures
        last_with_peer(v, peer, n) == Some(at),
    decreases n,
{
    if n - 1 != at {
        assert(v[at].peer != v[n - 1].peer);
        lemma_found_peer_below(v, peer, at, n - 1);
    }
}

pub proof fn lemma_no_peer(v: Seq<VportModel>, peer: SocketAddr, n: int)
    requires
        0 <= n <= v.len(),
        forall|i: int| 0 <= i < v.len() ==> (#[trigger] v[i]).peer != peer,
    ensures
        last_with_peer(v, peer, n) is None,
    decreases n,
{
    if n > 0 {
        assert(v[n - 1].peer != peer);
        lemma_no_peer(v, peer, n - 1);
    }
}

/// Rounding up by a remainder is rounding up.
pub proof fn lemma_segments(len: int, stride: int)
    requires
        0 < len,
        0 < stride,
    ensures
        pieces(len, stride) == len / stride + if len % stride == 0 {
            0int
        } else {
            1int
        },
        1 <= pieces(len, stride) <= len,
{
    reveal(pieces);
    let q = len / stride;
    let r = len % stride;
    vstd::arithmetic::div_mod::lemma_fundamental_div_mod(len, stride);
    if r == 0 {
        assert((len + stride - 1) == q * stride + (stride - 1)) by (nonlinear_arith)
            requires
                len == stride * q + r,
                r == 0,
        ;
        vstd::arithmetic::div_mod::lemma_fundamental_div_mod_converse(
            len + stride - 1,
            stride,
            q,
            stride - 1,
        );
        assert(1 <= q <= len) by (nonlinear_arith)
            requires
                len == stride * q + r,
                r == 0,
                len > 0,
                stride > 0,
        ;
    } else {
        assert((len + stride - 1) == (q + 1) * stride + (r - 1)) by (nonlinear_arith)
            requires
                len == stride * q + r,
        ;
        vstd::arithmetic::div_mod::lemma_fundamental_div_mod_converse(
            len + stride - 1,
            stride,
            q + 1,
            r - 1,
        );
        assert(0 <= q < len) by (nonlinear_arith)
            requires
                len == stride * q + r,
                0 < r < stride,
                len > 0,
                stride > 0,
        ;
    }
}

/// Each segment but the last ends where the next one starts, inside the read.
pub proof fn lemma_next_segment(len: int, stride: int, k: int)
    requires
        0 < len,
        0 < stride,
        0 <= k < pieces(len, stride),
    ensures
        0 <= segment_start(stride, k) < len,
        segment_start(stride, k + 1) == segment_start(stride, k) + stride,
        k + 1 < pieces(len, stride) ==> segment_start(stride, k) + stride < len,
        k + 1 == pieces(len, stride) ==> segment_start(stride, k) + stride >= len,
{
    reveal(pieces);
    let n = (len + stride - 1) / stride;
    vstd::arithmetic::div_mod::lemma_fundamental_div_mod(len + stride - 1, stride);
    let r = (len + stride - 1) % stride;
    assert(0 <= k * stride < len && (k + 1) * stride == k * stride + stride) by (nonlinear_arith)
        requires
            0 <= k < n,
            0 < stride,
            0 <= r < stride,
            len + stride - 1 == stride * n + r,
    ;
    if k + 1 < n {
        assert(k * stride + stride < len) by (nonlinear_arith)
            requires
                k + 1 < n,
                0 < stride,
                0 <= r < stride,
                len + stride - 1 == stride * n + r,
        ;
    }
    if k + 1 == n {
        assert(k * stride + stride >= len) by (nonlinear_arith)
            requires
                k + 1 == n,
                0 < stride,
                0 <= r < stride,
                len + stride - 1 == stride * n + r,
        ;
    }
}

/// Whether the bytes from `at` on are what they were.
spec fn untouched(given: Seq<u8>, now: Seq<u8>, at: int) -> bool {
    &&& now.len() == given.len()
    &&& forall|j: int| at <= j < given.len() ==> given[j] == now[j]
}

/// A segment that was not reached yet still lies where it was received.
proof fn lemma_segment_lies(
    given: Seq<u8>,
    slot: Seq<u8>,
    payload: Seq<u8>,
    len: int,
    stride: int,
    k: int,
)
    requires
        0 < len,
        0 < stride,
        HEADROOM + len <= given.len(),
        payload == given.subrange(HEADROOM as int, HEADROOM + len),
        0 <= k < pieces(len, stride),
        untouched(given, slot, HEADROOM + segment_start(stride, k)),
    ensures
        ({
            let at = segment_start(stride, k);
            let end = if at + stride <= len {
                at + stride
            } else {
                len
            };
            segment_of(payload, stride, k) == slot.subrange(HEADROOM + at, HEADROOM + end)
        }),
{
    lemma_next_segment(len, stride, k);
    let at = segment_start(stride, k);
    let end = if at + stride <= len {
        at + stride
    } else {
        len
    };
    assert(segment_of(payload, stride, k) =~= slot.subrange(HEADROOM + at, HEADROOM + end));
}

proof fn lemma_sent_grows(runs: Seq<Run>, sent: Seq<bool>, i: int, j: int)
    requires
        0 <= i <= j,
    ensures
        segments_sent(runs, sent, i) <= segments_sent(runs, sent, j),
    decreases j,
{
    if i < j {
        lemma_sent_grows(runs, sent, i, j - 1);
    }
}

/// No more segments are sent than there are.
proof fn lemma_sent_bounds(runs: Seq<Run>, sent: Seq<bool>, n: int)
    requires
        0 <= n <= runs.len(),
    ensures
        0 <= segments_sent(runs, sent, n) <= crate::tx::segments(runs, n),
    decreases n,
{
    if n > 0 {
        lemma_sent_bounds(runs, sent, n - 1);
    }
}

/// Staging a frame touches one destination only: every other queue and every
/// other sequence counter is as it was.
pub proof fn law_staging_is_local(
    s: ShardState,
    fabric: Fabric,
    egress: int,
    other: int,
    frame: Seq<u8>,
    ingress_id: u16,
    now: u32,
)
    requires
        0 <= egress < s.tx.len(),
        0 <= other < s.tx.len(),
        s.tx_seq.len() == s.tx.len(),
        other != egress,
    ensures
        s.staged(fabric, egress, frame, ingress_id, now).tx[other] == s.tx[other],
        s.staged(fabric, egress, frame, ingress_id, now).tx_seq[other] == s.tx_seq[other],
        s.staged(fabric, egress, frame, ingress_id, now).tx.len() == s.tx.len(),
        s.staged(fabric, egress, frame, ingress_id, now).tx_seq.len() == s.tx_seq.len(),
{
}

/// A broadcast frame never goes back to where it came from.
pub proof fn law_broadcast_skips_the_ingress(
    s: ShardState,
    fabric: Fabric,
    frame: Seq<u8>,
    ingress: int,
    now: u32,
    n: int,
)
    requires
        0 <= n <= s.tx.len(),
        s.tx_seq.len() == s.tx.len(),
        0 <= ingress < s.tx.len(),
    ensures
        s.fanned_out(fabric, frame, ingress, now, n).tx[ingress] == s.tx[ingress],
        s.fanned_out(fabric, frame, ingress, now, n).tx_seq[ingress] == s.tx_seq[ingress],
        s.fanned_out(fabric, frame, ingress, now, n).tx.len() == s.tx.len(),
        s.fanned_out(fabric, frame, ingress, now, n).tx_seq.len() == s.tx_seq.len(),
    decreases n,
{
    if n > 0 {
        law_broadcast_skips_the_ingress(s, fabric, frame, ingress, now, n - 1);
        if n - 1 != ingress {
            law_staging_is_local(
                s.fanned_out(fabric, frame, ingress, now, n - 1),
                fabric,
                n - 1,
                ingress,
                frame,
                fabric.vports[ingress].id,
                now,
            );
        }
    }
}

/// An empty read changes nothing, and a read from an unknown peer nothing but
/// two counts: it is recorded once, and each of its segments is counted.
pub proof fn law_unknown_peers_are_only_counted<P: Pipeline>(
    s: ShardState,
    program: &P,
    fabric: Fabric,
    payload: Seq<u8>,
    read: Read,
    now: u32,
)
    requires
        read.len == 0 || last_with_peer(
            fabric.vports,
            read.from,
            fabric.vports.len() as int,
        ) is None,
    ensures
        read.len == 0 ==> received(s, program, fabric, payload, read, now) == s,
        read.len > 0 ==> received(s, program, fabric, payload, read, now) == (ShardState {
            metrics: s.metrics.recorded(
                Hist::GroSegmentsPerRead,
                segments_of(read.len as int, read.stride as int),
            ).added(
                Counter::RxUnknownPeer,
                segments_of(read.len as int, read.stride as int) as u64,
            ),
            ..s
        }),
        received(s, program, fabric, payload, read, now).metrics.vports == s.metrics.vports,
{
}

/// The headroom promise holds for every segment of a read, not just the first:
/// its frame stands in the slot behind at least [`MIN_HEADROOM`] bytes, and
/// each one behind those of all the segments before it.
pub proof fn law_every_segment_has_headroom(slot: Seq<u8>, len: int, stride: int, k: int)
    requires
        0 < len,
        0 < stride,
        HEADROOM + len <= slot.len(),
        0 <= k < pieces(len, stride),
        segment_of(
            slot.subrange(HEADROOM as int, HEADROOM + len),
            stride,
            k,
        ).len() >= OVERLAY_HDR_LEN,
    ensures
        ({
            let segment = segment_of(slot.subrange(HEADROOM as int, HEADROOM + len), stride, k);
            let frame = segment.subrange(OVERLAY_HDR_LEN as int, segment.len() as int);
            let at = HEADROOM + k * stride + OVERLAY_HDR_LEN;
            &&& MIN_HEADROOM + k * stride <= at
            &&& at + frame.len() <= slot.len()
            &&& slot.subrange(at, at + frame.len()) == frame
        }),
{
    let payload = slot.subrange(HEADROOM as int, HEADROOM + len);
    lemma_segment_lies(slot, slot, payload, len, stride, k);
    lemma_next_segment(len, stride, k);
    let segment = segment_of(payload, stride, k);
    let frame = segment.subrange(OVERLAY_HDR_LEN as int, segment.len() as int);
    let at = HEADROOM + k * stride + OVERLAY_HDR_LEN;
    assert(slot.subrange(at, at + frame.len()) =~= frame);
}

/// A run is tried at most twice: what follows a retry is never another one.
pub proof fn law_at_most_one_retry(result: Result<(), Failure>)
    ensures
        send_outcome(true, result).0 is Done,
{
}

/// Frames to one vport are numbered without a gap: a staged frame carries the
/// number that was due, the next is due afterwards, and a frame that is not
/// staged uses none up.
pub proof fn law_staged_frames_are_numbered(
    s: ShardState,
    fabric: Fabric,
    egress: int,
    frame: Seq<u8>,
    ingress_id: u16,
    now: u32,
)
    requires
        0 <= egress < s.tx.len(),
        s.tx_seq.len() == s.tx.len(),
    ensures
        ({
            let after = s.staged(fabric, egress, frame, ingress_id, now);
            let segment = header_of(ingress_id as int, s.tx_seq[egress], now as int) + frame;
            if frame.len() <= fabric.inner_mtu && OVERLAY_HDR_LEN + frame.len() <= u16::MAX {
                &&& after.tx_seq[egress] == (s.tx_seq[egress] + 1) % 0x1_0000_0000
                &&& after.tx[egress].lens.len() > 0
                &&& after.tx[egress].lens.last() == segment.len()
                &&& after.tx[egress].bytes.subrange(
                    after.tx[egress].bytes.len() - segment.len(),
                    after.tx[egress].bytes.len() as int,
                ) == segment
            } else {
                after.tx_seq[egress] == s.tx_seq[egress]
            }
        }),
{
    let after = s.staged(fabric, egress, frame, ingress_id, now);
    let header = header_of(ingress_id as int, s.tx_seq[egress], now as int);
    if frame.len() <= fabric.inner_mtu && OVERLAY_HDR_LEN + frame.len() <= u16::MAX {
        assert(header.len() == OVERLAY_HDR_LEN);
        assert(after.tx[egress].bytes.subrange(
            after.tx[egress].bytes.len() - (header + frame).len(),
            after.tx[egress].bytes.len() as int,
        ) =~= header + frame);
    }
}

/// The segments staged in the first `n` queues.
pub open spec fn staged_segments(tx: Seq<TxModel>, n: int) -> int
    decreases n,
{
    if n <= 0 {
        0
    } else {
        staged_segments(tx, n - 1) + tx[n - 1].lens.len()
    }
}

/// The segments of the first `n` batches.
pub open spec fn batched_segments(outbox: Seq<BatchModel>, n: int) -> int
    decreases n,
{
    if n <= 0 {
        0
    } else {
        batched_segments(outbox, n - 1) + outbox[n - 1].queue.lens.len()
    }
}

impl ShardState {
    /// The frames in hand: staged, on their way out, or waiting for the
    /// control channel.
    pub open spec fn in_hand(self) -> int {
        staged_segments(self.tx, self.tx.len() as int) + batched_segments(
            self.outbox,
            self.outbox.len() as int,
        ) + match self.punt {
            Some(q) => q.frames.len() as int,
            None => 0,
        }
    }

    /// The frames that were decided about and went nowhere.
    pub open spec fn lost(self) -> int {
        self.metrics.global.value(Counter::EngineDrop) + self.metrics.global.value(
            Counter::TxOversizeDrop,
        ) + self.metrics.global.value(Counter::TxUnknownPort) + self.metrics.global.value(
            Counter::PuntUnconfiguredDrop,
        ) + self.metrics.global.value(Counter::PuntOverflowDrop)
    }

    /// One more of each loss can still be counted.
    pub open spec fn can_count(self, n: int) -> bool {
        let c = self.metrics.global;
        &&& c.value(Counter::EngineDrop) + n <= u64::MAX
        &&& c.value(Counter::TxOversizeDrop) + n <= u64::MAX
        &&& c.value(Counter::TxUnknownPort) + n <= u64::MAX
        &&& c.value(Counter::PuntUnconfiguredDrop) + n <= u64::MAX
        &&& c.value(Counter::PuntOverflowDrop) + n <= u64::MAX
    }
}

proof fn lemma_staged_update(tx: Seq<TxModel>, at: int, queue: TxModel, n: int)
    requires
        0 <= at < tx.len(),
        0 <= n <= tx.len(),
    ensures
        staged_segments(tx.update(at, queue), n) == staged_segments(tx, n) + if at < n {
            queue.lens.len() - tx[at].lens.len()
        } else {
            0
        },
    decreases n,
{
    if n > 0 {
        lemma_staged_update(tx, at, queue, n - 1);
    }
}

proof fn lemma_batched_push(outbox: Seq<BatchModel>, batch: BatchModel, n: int)
    requires
        0 <= n <= outbox.len(),
    ensures
        batched_segments(outbox.push(batch), n) == batched_segments(outbox, n),
    decreases n,
{
    if n > 0 {
        lemma_batched_push(outbox, batch, n - 1);
    }
}

/// Flushing moves segments and loses none.
pub proof fn law_flushing_keeps_every_segment(s: ShardState, fabric: Fabric, egress: int)
    requires
        0 <= egress < s.tx.len(),
    ensures
        s.flushed(fabric, egress).in_hand() == s.in_hand(),
        s.flushed(fabric, egress).lost() == s.lost(),
        s.flushed(fabric, egress).tx.len() == s.tx.len(),
{
    if s.tx[egress].lens.len() > 0 {
        let batch = BatchModel {
            egress,
            destination: fabric.vports[egress].peer,
            queue: s.tx[egress],
        };
        lemma_staged_update(s.tx, egress, TxModel::empty(), s.tx.len() as int);
        lemma_batched_push(s.outbox, batch, s.outbox.len() as int);
    }
}

/// A frame for one vport is staged or counted as lost, and never both.
pub proof fn law_a_staged_frame_has_one_fate(
    s: ShardState,
    fabric: Fabric,
    egress: int,
    frame: Seq<u8>,
    ingress_id: u16,
    now: u32,
)
    requires
        0 <= egress < s.tx.len(),
        s.can_count(1),
    ensures
        ({
            let after = s.staged(fabric, egress, frame, ingress_id, now);
            &&& after.in_hand() + after.lost() == s.in_hand() + s.lost() + 1
            &&& after.tx.len() == s.tx.len()
            &&& frame.len() <= fabric.inner_mtu && OVERLAY_HDR_LEN + frame.len() <= u16::MAX
                ==> after.metrics.global == s.metrics.global
        }),
{
    let before = if s.tx[egress].is_full() {
        s.flushed(fabric, egress)
    } else {
        s
    };
    law_flushing_keeps_every_segment(s, fabric, egress);
    if frame.len() <= fabric.inner_mtu && OVERLAY_HDR_LEN + frame.len() <= u16::MAX {
        let header = header_of(ingress_id as int, before.tx_seq[egress], now as int);
        lemma_staged_update(
            before.tx,
            egress,
            before.tx[egress].pushed(header, frame),
            before.tx.len() as int,
        );
    }
}

proof fn lemma_counted_once(s: ShardState, c: Counter)
    requires
        s.can_count(1),
        c is EngineDrop || c is TxOversizeDrop || c is TxUnknownPort || c is PuntUnconfiguredDrop
            || c is PuntOverflowDrop,
    ensures
        s.counted(c, 1).in_hand() == s.in_hand(),
        s.counted(c, 1).lost() == s.lost() + 1,
{
}

/// A punted frame waits for the control channel or is counted as lost, and
/// never both.
pub proof fn law_a_punted_frame_has_one_fate(
    s: ShardState,
    frame: Seq<u8>,
    ingress_id: u16,
    now: u32,
)
    requires
        s.can_count(1),
    ensures
        ({
            let after = s.punted(frame, ingress_id, now);
            after.in_hand() + after.lost() == s.in_hand() + s.lost() + 1
        }),
{
    match s.punt {
        None => lemma_counted_once(s, Counter::PuntUnconfiguredDrop),
        Some(q) => if q.frames.len() >= q.capacity {
            lemma_counted_once(s, Counter::PuntOverflowDrop)
        },
    }
}

/// Each verdict maps to one destination or one counter: a frame that is not
/// broadcast ends up in hand or is counted as lost, once.
pub proof fn law_each_frame_has_one_fate(
    s: ShardState,
    fabric: Fabric,
    decision: (Verdict, Seq<u8>),
    ingress: int,
    now: u32,
)
    requires
        s.tx.len() == fabric.vports.len(),
        s.can_count(1),
        decision.0 != Verdict::Broadcast,
    ensures
        ({
            let after = s.decided(fabric, decision, ingress, now);
            after.in_hand() + after.lost() == s.in_hand() + s.lost() + 1
        }),
{
    let (verdict, frame) = decision;
    let id = fabric.vports[ingress].id;
    let all = fabric.vports.len() as int;
    if verdict != Verdict::Drop && frame.len() > fabric.inner_mtu {
        lemma_counted_once(s, Counter::TxOversizeDrop);
    } else {
        match verdict {
            Verdict::Drop => lemma_counted_once(s, Counter::EngineDrop),
            Verdict::Punt => law_a_punted_frame_has_one_fate(s, frame, id, now),
            Verdict::Forward(port) => {
                lemma_last_with_id_is_a_place(fabric.vports, port, all);
                match last_with_id(fabric.vports, port, all) {
                    Some(egress) => law_a_staged_frame_has_one_fate(
                        s,
                        fabric,
                        egress,
                        frame,
                        id,
                        now,
                    ),
                    None => lemma_counted_once(s, Counter::TxUnknownPort),
                }
            },
            Verdict::Broadcast => {},
        }
    }
}

proof fn lemma_last_with_id_is_a_place(v: Seq<VportModel>, id: u16, n: int)
    requires
        0 <= n <= v.len(),
    ensures
        last_with_id(v, id, n) matches Some(i) ==> 0 <= i < n,
    decreases n,
{
    if n > 0 {
        lemma_last_with_id_is_a_place(v, id, n - 1);
    }
}

/// A broadcast frame that fits reaches every vport but the one it came from.
pub proof fn law_a_broadcast_reaches_every_other_vport(
    s: ShardState,
    fabric: Fabric,
    frame: Seq<u8>,
    ingress: int,
    now: u32,
    n: int,
)
    requires
        0 <= n <= s.tx.len(),
        s.can_count(1),
        frame.len() <= fabric.inner_mtu,
        OVERLAY_HDR_LEN + frame.len() <= u16::MAX,
    ensures
        ({
            let after = s.fanned_out(fabric, frame, ingress, now, n);
            &&& after.in_hand() == s.in_hand() + n - if 0 <= ingress < n {
                1int
            } else {
                0int
            }
            &&& after.metrics.global == s.metrics.global
            &&& after.tx.len() == s.tx.len()
        }),
    decreases n,
{
    if n > 0 {
        law_a_broadcast_reaches_every_other_vport(s, fabric, frame, ingress, now, n - 1);
        if n - 1 != ingress {
            law_a_staged_frame_has_one_fate(
                s.fanned_out(fabric, frame, ingress, now, n - 1),
                fabric,
                n - 1,
                frame,
                fabric.vports[ingress].id,
                now,
            );
        }
    }
}

/// What is charged when a batch is accounted for: all of its inner bytes where
/// every segment left, none where none did, and never more than it holds.
#[verifier::rlimit(40)]
pub proof fn law_charges_are_a_share(queue: TxModel, sent: int)
    requires
        0 <= sent <= queue.lens.len(),
        queue.lens.len() > 0,
        queue.inner_bytes() >= 0,
    ensures
        sent == queue.lens.len() ==> bytes_charged(queue, sent) == queue.inner_bytes(),
        sent == 0 ==> bytes_charged(queue, sent) == 0,
        0 <= bytes_charged(queue, sent) <= queue.inner_bytes(),
        bytes_charged(queue, sent) * queue.lens.len() <= queue.inner_bytes() * sent < (
        bytes_charged(queue, sent) + 1) * queue.lens.len(),
{
    let n = queue.lens.len() as int;
    let b = queue.inner_bytes();
    let x = b * sent;
    vstd::arithmetic::div_mod::lemma_fundamental_div_mod(x, n);
    let q = x / n;
    assert(q * n <= x < (q + 1) * n && 0 <= q <= b) by (nonlinear_arith)
        requires
            x == n * q + x % n,
            0 <= x % n < n,
            x == b * sent,
            0 <= sent <= n,
            0 <= b,
            n > 0,
    ;
    if sent == n {
        assert(b * n <= x < (b + 1) * n) by (nonlinear_arith)
            requires
                x == b * sent,
                sent == n,
                n > 0,
        ;
    }
    if sent == 0 {
        assert(q == 0) by (nonlinear_arith)
            requires
                q * n <= x,
                x == b * sent,
                sent == 0,
                n > 0,
                0 <= q,
        ;
    }
}

/// Only the segments of runs that left are counted as sent: one more run that
/// left adds its segments, one that did not adds none.
pub proof fn law_only_sent_runs_count(runs: Seq<Run>, sent: Seq<bool>, run: Run, left: bool)
    requires
        runs.len() == sent.len(),
    ensures
        segments_sent(runs.push(run), sent.push(left), runs.len() as int + 1) == segments_sent(
            runs,
            sent,
            runs.len() as int,
        ) + if left {
            run.count as int
        } else {
            0
        },
        segments_sent(Seq::empty(), Seq::empty(), 0) == 0,
{
    lemma_sent_front(runs, sent, run, left, runs.len() as int);
}

proof fn lemma_sent_front(runs: Seq<Run>, sent: Seq<bool>, run: Run, left: bool, n: int)
    requires
        0 <= n <= runs.len(),
        runs.len() == sent.len(),
    ensures
        segments_sent(runs.push(run), sent.push(left), n) == segments_sent(runs, sent, n),
    decreases n,
{
    if n > 0 {
        lemma_sent_front(runs, sent, run, left, n - 1);
    }
}

/// What an attempt to send comes to: a success is one system call; a first
/// failure is tried again where the socket was merely busy, and otherwise is an
/// error of the send; a second failure gives the run up as blocked.
pub proof fn law_attempts_are_counted_once(retried: bool, e: Failure)
    ensures
        send_outcome(retried, Ok(())) == (AfterSend::Done(true), Some(Counter::SyscallsTx)),
        send_outcome(true, Err(e)) == (AfterSend::Done(false), Some(Counter::TxWouldBlock)),
        e is WouldBlock ==> send_outcome(false, Err(e)) == (AfterSend::Retry, None::<Counter>),
        !(e is WouldBlock) ==> send_outcome(false, Err(e)) == (
            AfterSend::Done(false),
            Some(Counter::TxSendError),
        ),
{
}

} // verus!
