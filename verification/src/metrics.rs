//! Counters.
//!
//! Every discard in the switch is attributable: the harness-drop counters and
//! the pipeline's `engine_drop` are deliberately separate, because experiments
//! must be able to say *who* lost a frame.
//!
//! The registry is flat and named by closed enums rather than strings, so a
//! counter that exists cannot be misspelled where it is bumped and a counter
//! that is added cannot be forgotten in the snapshot.
use crate::config::vport::{VportIdx, VportModel, VportTable};
use vstd::prelude::*;

verus! {

/// `n` as a 64-bit counter holds it.
pub open spec fn wrapped(n: int) -> u64 {
    (n % 0x1_0000_0000_0000_0000) as u64
}

/// Node-wide counters.
///
/// The first eight are *harness* drops: frames the switch itself refused.
/// `EngineDrop` is a pipeline decision and is never mixed in with them.
#[derive(Clone, Copy, Debug, PartialEq, Eq, Structural)]
pub enum Counter {
    /// Source tuple matched no configured vport.
    RxUnknownPeer,
    /// Overlay header failed to decode.
    RxBadHeader,
    /// Frame exceeded the fabric's inner MTU after the pipeline ran.
    TxOversizeDrop,
    /// Send would have blocked twice; the remainder was dropped.
    TxWouldBlock,
    /// A punt verdict arrived with no punt channel configured.
    PuntUnconfiguredDrop,
    /// The punt queue was full.
    PuntOverflowDrop,
    /// A pipeline forwarded to a vport id the topology does not have.
    TxUnknownPort,
    /// A send failed for a reason other than "would block".
    TxSendError,
    /// The pipeline decided to drop. Not a harness drop.
    EngineDrop,
    /// Batched receive system calls issued.
    SyscallsRx,
    /// Send system calls issued.
    SyscallsTx,
}

impl Counter {
    /// Every one of them, in declaration order.
    pub open spec fn every() -> Seq<Counter> {
        seq![
            Counter::RxUnknownPeer,
            Counter::RxBadHeader,
            Counter::TxOversizeDrop,
            Counter::TxWouldBlock,
            Counter::PuntUnconfiguredDrop,
            Counter::PuntOverflowDrop,
            Counter::TxUnknownPort,
            Counter::TxSendError,
            Counter::EngineDrop,
            Counter::SyscallsRx,
            Counter::SyscallsTx,
        ]
    }

    /// Every one of them, in declaration order. Drives the snapshot.
    #[must_use]
    pub fn all() -> (r: Vec<Counter>)
        ensures
            r@ == Counter::every(),
    {
        let r: Vec<Counter> = vec![
            Counter::RxUnknownPeer,
            Counter::RxBadHeader,
            Counter::TxOversizeDrop,
            Counter::TxWouldBlock,
            Counter::PuntUnconfiguredDrop,
            Counter::PuntOverflowDrop,
            Counter::TxUnknownPort,
            Counter::TxSendError,
            Counter::EngineDrop,
            Counter::SyscallsRx,
            Counter::SyscallsTx,
        ];
        assert(r@ =~= Counter::every());
        r
    }

    /// The name in snapshots.
    pub open spec fn spec_name(self) -> Seq<char> {
        match self {
            Counter::RxUnknownPeer => "rx_unknown_peer"@,
            Counter::RxBadHeader => "rx_bad_header"@,
            Counter::TxOversizeDrop => "tx_oversize_drop"@,
            Counter::TxWouldBlock => "tx_would_block"@,
            Counter::PuntUnconfiguredDrop => "punt_unconfigured_drop"@,
            Counter::PuntOverflowDrop => "punt_overflow_drop"@,
            Counter::TxUnknownPort => "tx_unknown_port"@,
            Counter::TxSendError => "tx_send_error"@,
            Counter::EngineDrop => "engine_drop"@,
            Counter::SyscallsRx => "syscalls_rx"@,
            Counter::SyscallsTx => "syscalls_tx"@,
        }
    }

    /// The name in snapshots.
    #[must_use]
    pub fn name(self) -> (r: &'static str)
        ensures
            r@ == self.spec_name(),
    {
        match self {
            Counter::RxUnknownPeer => "rx_unknown_peer",
            Counter::RxBadHeader => "rx_bad_header",
            Counter::TxOversizeDrop => "tx_oversize_drop",
            Counter::TxWouldBlock => "tx_would_block",
            Counter::PuntUnconfiguredDrop => "punt_unconfigured_drop",
            Counter::PuntOverflowDrop => "punt_overflow_drop",
            Counter::TxUnknownPort => "tx_unknown_port",
            Counter::TxSendError => "tx_send_error",
            Counter::EngineDrop => "engine_drop",
            Counter::SyscallsRx => "syscalls_rx",
            Counter::SyscallsTx => "syscalls_tx",
        }
    }

    /// The harness's own discards: everything the switch threw away that the
    /// pipeline did not ask it to.
    pub open spec fn harness() -> Seq<Counter> {
        seq![
            Counter::RxUnknownPeer,
            Counter::RxBadHeader,
            Counter::TxOversizeDrop,
            Counter::TxWouldBlock,
            Counter::PuntUnconfiguredDrop,
            Counter::PuntOverflowDrop,
            Counter::TxUnknownPort,
            Counter::TxSendError,
        ]
    }

    /// The harness's own discards: everything the switch threw away that the
    /// pipeline did not ask it to.
    #[must_use]
    pub fn harness_drops() -> (r: Vec<Counter>)
        ensures
            r@ == Counter::harness(),
    {
        let r: Vec<Counter> = vec![
            Counter::RxUnknownPeer,
            Counter::RxBadHeader,
            Counter::TxOversizeDrop,
            Counter::TxWouldBlock,
            Counter::PuntUnconfiguredDrop,
            Counter::PuntOverflowDrop,
            Counter::TxUnknownPort,
            Counter::TxSendError,
        ];
        assert(r@ =~= Counter::harness());
        r
    }
}

/// Per-vport counters.
#[derive(Clone, Copy, Debug, PartialEq, Eq, Structural)]
pub enum VportCounter {
    /// Frames accepted on this vport.
    RxPkts,
    /// Inner bytes accepted on this vport.
    RxBytes,
    /// Frames transmitted on this vport.
    TxPkts,
    /// Inner bytes transmitted on this vport.
    TxBytes,
    /// Frames the pipeline broadcast, charged to the ingress vport.
    TxBroadcast,
    /// Total frames missing, summed over gaps.
    RxSeqGapTotal,
    /// Frames that arrived behind the expectation.
    RxReorder,
}

impl VportCounter {
    /// Every one of them, in declaration order.
    pub open spec fn every() -> Seq<VportCounter> {
        seq![
            VportCounter::RxPkts,
            VportCounter::RxBytes,
            VportCounter::TxPkts,
            VportCounter::TxBytes,
            VportCounter::TxBroadcast,
            VportCounter::RxSeqGapTotal,
            VportCounter::RxReorder,
        ]
    }

    /// Every one of them, in declaration order. Drives the snapshot.
    #[must_use]
    pub fn all() -> (r: Vec<VportCounter>)
        ensures
            r@ == VportCounter::every(),
    {
        let r: Vec<VportCounter> = vec![
            VportCounter::RxPkts,
            VportCounter::RxBytes,
            VportCounter::TxPkts,
            VportCounter::TxBytes,
            VportCounter::TxBroadcast,
            VportCounter::RxSeqGapTotal,
            VportCounter::RxReorder,
        ];
        assert(r@ =~= VportCounter::every());
        r
    }

    /// The name in snapshots.
    pub open spec fn spec_name(self) -> Seq<char> {
        match self {
            VportCounter::RxPkts => "rx_pkts"@,
            VportCounter::RxBytes => "rx_bytes"@,
            VportCounter::TxPkts => "tx_pkts"@,
            VportCounter::TxBytes => "tx_bytes"@,
            VportCounter::TxBroadcast => "tx_broadcast"@,
            VportCounter::RxSeqGapTotal => "rx_seq_gap_total"@,
            VportCounter::RxReorder => "rx_reorder"@,
        }
    }

    /// The name in snapshots.
    #[must_use]
    pub fn name(self) -> (r: &'static str)
        ensures
            r@ == self.spec_name(),
    {
        match self {
            VportCounter::RxPkts => "rx_pkts",
            VportCounter::RxBytes => "rx_bytes",
            VportCounter::TxPkts => "tx_pkts",
            VportCounter::TxBytes => "tx_bytes",
            VportCounter::TxBroadcast => "tx_broadcast",
            VportCounter::RxSeqGapTotal => "rx_seq_gap_total",
            VportCounter::RxReorder => "rx_reorder",
        }
    }
}

/// The two I/O-shape histograms.
#[derive(Clone, Copy, Debug, PartialEq, Eq, Structural)]
pub enum Hist {
    /// Segments coalesced into one receive.
    GroSegmentsPerRead,
    /// Segments per transmit batch.
    TxBatchSize,
}

impl Hist {
    /// Every one of them, in declaration order.
    pub open spec fn every() -> Seq<Hist> {
        seq![
            Hist::GroSegmentsPerRead,
            Hist::TxBatchSize,
        ]
    }

    /// Every one of them, in declaration order. Drives the snapshot.
    #[must_use]
    pub fn all() -> (r: Vec<Hist>)
        ensures
            r@ == Hist::every(),
    {
        let r: Vec<Hist> = vec![
            Hist::GroSegmentsPerRead,
            Hist::TxBatchSize,
        ];
        assert(r@ =~= Hist::every());
        r
    }

    /// The name in snapshots.
    pub open spec fn spec_name(self) -> Seq<char> {
        match self {
            Hist::GroSegmentsPerRead => "gro_segments_per_read"@,
            Hist::TxBatchSize => "tx_batch_size"@,
        }
    }

    /// The name in snapshots.
    #[must_use]
    pub fn name(self) -> (r: &'static str)
        ensures
            r@ == self.spec_name(),
    {
        match self {
            Hist::GroSegmentsPerRead => "gro_segments_per_read",
            Hist::TxBatchSize => "tx_batch_size",
        }
    }
}

/// The node-wide counters.
#[derive(Clone, Copy, Debug, PartialEq, Eq, Structural)]
pub struct Counters {
    /// Source tuple matched no configured vport.
    pub rx_unknown_peer: u64,
    /// Overlay header failed to decode.
    pub rx_bad_header: u64,
    /// Frame exceeded the fabric's inner MTU after the pipeline ran.
    pub tx_oversize_drop: u64,
    /// Send would have blocked twice; the remainder was dropped.
    pub tx_would_block: u64,
    /// A punt verdict arrived with no punt channel configured.
    pub punt_unconfigured_drop: u64,
    /// The punt queue was full.
    pub punt_overflow_drop: u64,
    /// A pipeline forwarded to a vport id the topology does not have.
    pub tx_unknown_port: u64,
    /// A send failed for a reason other than "would block".
    pub tx_send_error: u64,
    /// The pipeline decided to drop. Not a harness drop.
    pub engine_drop: u64,
    /// Batched receive system calls issued.
    pub syscalls_rx: u64,
    /// Send system calls issued.
    pub syscalls_tx: u64,
}

impl Counters {
    /// All zero.
    pub open spec fn zero() -> Counters {
        Counters {
            rx_unknown_peer: 0,
            rx_bad_header: 0,
            tx_oversize_drop: 0,
            tx_would_block: 0,
            punt_unconfigured_drop: 0,
            punt_overflow_drop: 0,
            tx_unknown_port: 0,
            tx_send_error: 0,
            engine_drop: 0,
            syscalls_rx: 0,
            syscalls_tx: 0,
        }
    }

    /// One counter.
    pub open spec fn value(self, c: Counter) -> u64 {
        match c {
            Counter::RxUnknownPeer => self.rx_unknown_peer,
            Counter::RxBadHeader => self.rx_bad_header,
            Counter::TxOversizeDrop => self.tx_oversize_drop,
            Counter::TxWouldBlock => self.tx_would_block,
            Counter::PuntUnconfiguredDrop => self.punt_unconfigured_drop,
            Counter::PuntOverflowDrop => self.punt_overflow_drop,
            Counter::TxUnknownPort => self.tx_unknown_port,
            Counter::TxSendError => self.tx_send_error,
            Counter::EngineDrop => self.engine_drop,
            Counter::SyscallsRx => self.syscalls_rx,
            Counter::SyscallsTx => self.syscalls_tx,
        }
    }

    /// The block with one counter replaced.
    pub open spec fn with(self, c: Counter, n: u64) -> Counters {
        match c {
            Counter::RxUnknownPeer => Counters { rx_unknown_peer: n, ..self },
            Counter::RxBadHeader => Counters { rx_bad_header: n, ..self },
            Counter::TxOversizeDrop => Counters { tx_oversize_drop: n, ..self },
            Counter::TxWouldBlock => Counters { tx_would_block: n, ..self },
            Counter::PuntUnconfiguredDrop => Counters { punt_unconfigured_drop: n, ..self },
            Counter::PuntOverflowDrop => Counters { punt_overflow_drop: n, ..self },
            Counter::TxUnknownPort => Counters { tx_unknown_port: n, ..self },
            Counter::TxSendError => Counters { tx_send_error: n, ..self },
            Counter::EngineDrop => Counters { engine_drop: n, ..self },
            Counter::SyscallsRx => Counters { syscalls_rx: n, ..self },
            Counter::SyscallsTx => Counters { syscalls_tx: n, ..self },
        }
    }

    /// The block with `n` added to one counter. Counters wrap.
    pub open spec fn added(self, c: Counter, n: u64) -> Counters {
        self.with(c, wrapped(self.value(c) + n))
    }

    /// A block of zeros.
    #[must_use]
    pub fn new() -> (r: Self)
        ensures
            r == Counters::zero(),
    {
        Counters {
            rx_unknown_peer: 0,
            rx_bad_header: 0,
            tx_oversize_drop: 0,
            tx_would_block: 0,
            punt_unconfigured_drop: 0,
            punt_overflow_drop: 0,
            tx_unknown_port: 0,
            tx_send_error: 0,
            engine_drop: 0,
            syscalls_rx: 0,
            syscalls_tx: 0,
        }
    }

    /// Add `n` to one counter.
    pub fn add(&mut self, c: Counter, n: u64)
        ensures
            *final(self) == old(self).added(c, n),
    {
        match c {
            Counter::RxUnknownPeer => self.rx_unknown_peer = self.rx_unknown_peer.wrapping_add(n),
            Counter::RxBadHeader => self.rx_bad_header = self.rx_bad_header.wrapping_add(n),
            Counter::TxOversizeDrop => self.tx_oversize_drop = self.tx_oversize_drop.wrapping_add(n),
            Counter::TxWouldBlock => self.tx_would_block = self.tx_would_block.wrapping_add(n),
            Counter::PuntUnconfiguredDrop => self.punt_unconfigured_drop = self.punt_unconfigured_drop.wrapping_add(n),
            Counter::PuntOverflowDrop => self.punt_overflow_drop = self.punt_overflow_drop.wrapping_add(n),
            Counter::TxUnknownPort => self.tx_unknown_port = self.tx_unknown_port.wrapping_add(n),
            Counter::TxSendError => self.tx_send_error = self.tx_send_error.wrapping_add(n),
            Counter::EngineDrop => self.engine_drop = self.engine_drop.wrapping_add(n),
            Counter::SyscallsRx => self.syscalls_rx = self.syscalls_rx.wrapping_add(n),
            Counter::SyscallsTx => self.syscalls_tx = self.syscalls_tx.wrapping_add(n),
        }
    }

    /// Add one.
    pub fn bump(&mut self, c: Counter)
        ensures
            *final(self) == old(self).added(c, 1),
    {
        self.add(c, 1);
    }

    /// Read one counter.
    #[must_use]
    pub fn get(&self, c: Counter) -> (r: u64)
        ensures
            r == self.value(c),
    {
        match c {
            Counter::RxUnknownPeer => self.rx_unknown_peer,
            Counter::RxBadHeader => self.rx_bad_header,
            Counter::TxOversizeDrop => self.tx_oversize_drop,
            Counter::TxWouldBlock => self.tx_would_block,
            Counter::PuntUnconfiguredDrop => self.punt_unconfigured_drop,
            Counter::PuntOverflowDrop => self.punt_overflow_drop,
            Counter::TxUnknownPort => self.tx_unknown_port,
            Counter::TxSendError => self.tx_send_error,
            Counter::EngineDrop => self.engine_drop,
            Counter::SyscallsRx => self.syscalls_rx,
            Counter::SyscallsTx => self.syscalls_tx,
        }
    }
}

/// One vport's counters.
#[derive(Clone, Copy, Debug, PartialEq, Eq, Structural)]
pub struct VportBlock {
    /// Frames accepted on this vport.
    pub rx_pkts: u64,
    /// Inner bytes accepted on this vport.
    pub rx_bytes: u64,
    /// Frames transmitted on this vport.
    pub tx_pkts: u64,
    /// Inner bytes transmitted on this vport.
    pub tx_bytes: u64,
    /// Frames the pipeline broadcast, charged to the ingress vport.
    pub tx_broadcast: u64,
    /// Total frames missing, summed over gaps.
    pub rx_seq_gap_total: u64,
    /// Frames that arrived behind the expectation.
    pub rx_reorder: u64,
}

impl VportBlock {
    /// All zero.
    pub open spec fn zero() -> VportBlock {
        VportBlock {
            rx_pkts: 0,
            rx_bytes: 0,
            tx_pkts: 0,
            tx_bytes: 0,
            tx_broadcast: 0,
            rx_seq_gap_total: 0,
            rx_reorder: 0,
        }
    }

    /// One counter.
    pub open spec fn value(self, c: VportCounter) -> u64 {
        match c {
            VportCounter::RxPkts => self.rx_pkts,
            VportCounter::RxBytes => self.rx_bytes,
            VportCounter::TxPkts => self.tx_pkts,
            VportCounter::TxBytes => self.tx_bytes,
            VportCounter::TxBroadcast => self.tx_broadcast,
            VportCounter::RxSeqGapTotal => self.rx_seq_gap_total,
            VportCounter::RxReorder => self.rx_reorder,
        }
    }

    /// The block with one counter replaced.
    pub open spec fn with(self, c: VportCounter, n: u64) -> VportBlock {
        match c {
            VportCounter::RxPkts => VportBlock { rx_pkts: n, ..self },
            VportCounter::RxBytes => VportBlock { rx_bytes: n, ..self },
            VportCounter::TxPkts => VportBlock { tx_pkts: n, ..self },
            VportCounter::TxBytes => VportBlock { tx_bytes: n, ..self },
            VportCounter::TxBroadcast => VportBlock { tx_broadcast: n, ..self },
            VportCounter::RxSeqGapTotal => VportBlock { rx_seq_gap_total: n, ..self },
            VportCounter::RxReorder => VportBlock { rx_reorder: n, ..self },
        }
    }

    /// The block with `n` added to one counter. Counters wrap.
    pub open spec fn added(self, c: VportCounter, n: u64) -> VportBlock {
        self.with(c, wrapped(self.value(c) + n))
    }

    /// A block of zeros.
    #[must_use]
    pub fn new() -> (r: Self)
        ensures
            r == VportBlock::zero(),
    {
        VportBlock {
            rx_pkts: 0,
            rx_bytes: 0,
            tx_pkts: 0,
            tx_bytes: 0,
            tx_broadcast: 0,
            rx_seq_gap_total: 0,
            rx_reorder: 0,
        }
    }

    /// Add `n` to one counter.
    pub fn add(&mut self, c: VportCounter, n: u64)
        ensures
            *final(self) == old(self).added(c, n),
    {
        match c {
            VportCounter::RxPkts => self.rx_pkts = self.rx_pkts.wrapping_add(n),
            VportCounter::RxBytes => self.rx_bytes = self.rx_bytes.wrapping_add(n),
            VportCounter::TxPkts => self.tx_pkts = self.tx_pkts.wrapping_add(n),
            VportCounter::TxBytes => self.tx_bytes = self.tx_bytes.wrapping_add(n),
            VportCounter::TxBroadcast => self.tx_broadcast = self.tx_broadcast.wrapping_add(n),
            VportCounter::RxSeqGapTotal => self.rx_seq_gap_total = self.rx_seq_gap_total.wrapping_add(n),
            VportCounter::RxReorder => self.rx_reorder = self.rx_reorder.wrapping_add(n),
        }
    }

    /// Add one.
    pub fn bump(&mut self, c: VportCounter)
        ensures
            *final(self) == old(self).added(c, 1),
    {
        self.add(c, 1);
    }

    /// Read one counter.
    #[must_use]
    pub fn get(&self, c: VportCounter) -> (r: u64)
        ensures
            r == self.value(c),
    {
        match c {
            VportCounter::RxPkts => self.rx_pkts,
            VportCounter::RxBytes => self.rx_bytes,
            VportCounter::TxPkts => self.tx_pkts,
            VportCounter::TxBytes => self.tx_bytes,
            VportCounter::TxBroadcast => self.tx_broadcast,
            VportCounter::RxSeqGapTotal => self.rx_seq_gap_total,
            VportCounter::RxReorder => self.rx_reorder,
        }
    }
}

/// The buckets of a histogram.
pub const BUCKETS: usize = 8;

/// Power-of-two histogram over `1, 2, 4, 8, 16, 32, 64`, plus an overflow
/// bucket.
#[derive(Clone, Copy, Debug)]
pub struct Histogram {
    buckets: [u64; 8],
}

impl View for Histogram {
    type V = Seq<u64>;

    closed spec fn view(&self) -> Seq<u64> {
        self.buckets@
    }
}

/// Whether `value` belongs in bucket `b`: bucket `b` starts at `2^b`, zero is
/// charged to the first, and the last takes everything above 64.
pub open spec fn bucket_of(value: int) -> int {
    if value < 2 {
        0
    } else if value < 4 {
        1
    } else if value < 8 {
        2
    } else if value < 16 {
        3
    } else if value < 32 {
        4
    } else if value < 64 {
        5
    } else if value == 64 {
        6
    } else {
        7
    }
}

/// The upper bound under which bucket `b` is shown; the last has none.
pub open spec fn bound_of(b: int) -> Option<u32> {
    if b == 0 {
        Some(1)
    } else if b == 1 {
        Some(2)
    } else if b == 2 {
        Some(4)
    } else if b == 3 {
        Some(8)
    } else if b == 4 {
        Some(16)
    } else if b == 5 {
        Some(32)
    } else if b == 6 {
        Some(64)
    } else {
        None
    }
}

/// A histogram with one more observation.
pub open spec fn recorded(h: Seq<u64>, value: int) -> Seq<u64> {
    h.update(bucket_of(value), wrapped(h[bucket_of(value)] + 1))
}

impl Histogram {
    /// No observations.
    #[must_use]
    pub fn new() -> (r: Self)
        ensures
            r@ == Seq::new(BUCKETS as nat, |i: int| 0u64),
    {
        let r = Histogram { buckets: [0, 0, 0, 0, 0, 0, 0, 0] };
        assert(r@ =~= Seq::new(BUCKETS as nat, |i: int| 0u64));
        r
    }

    /// Record one observation. `0` is charged to the first bucket.
    pub fn record(&mut self, value: usize)
        ensures
            final(self)@ == recorded(old(self)@, value as int),
    {
        let b: usize = if value < 2 {
            0
        } else if value < 4 {
            1
        } else if value < 8 {
            2
        } else if value < 16 {
            3
        } else if value < 32 {
            4
        } else if value < 64 {
            5
        } else if value == 64 {
            6
        } else {
            7
        };
        self.buckets[b] = self.buckets[b].wrapping_add(1);
    }

    /// Read every bucket.
    #[must_use]
    pub fn read(&self) -> (r: [u64; 8])
        ensures
            r@ == self@,
            r@.len() == BUCKETS,
    {
        self.buckets
    }
}

/// What a registry holds.
#[verifier::ext_equal]
pub struct MetricsModel {
    pub node: Seq<char>,
    pub global: Counters,
    pub vports: Seq<VportBlock>,
    pub ids: Seq<u16>,
    pub gro_segments_per_read: Seq<u64>,
    pub tx_batch_size: Seq<u64>,
}

impl MetricsModel {
    /// The registry with `n` added to a node-wide counter.
    pub open spec fn added(self, c: Counter, n: u64) -> MetricsModel {
        MetricsModel { global: self.global.added(c, n), ..self }
    }

    /// The registry with `n` added to a counter of vport `i`.
    pub open spec fn vport_added(self, i: int, c: VportCounter, n: u64) -> MetricsModel {
        MetricsModel { vports: self.vports.update(i, self.vports[i].added(c, n)), ..self }
    }

    /// The registry with one more observation.
    pub open spec fn recorded(self, h: Hist, value: int) -> MetricsModel {
        match h {
            Hist::GroSegmentsPerRead => MetricsModel {
                gro_segments_per_read: recorded(self.gro_segments_per_read, value),
                ..self
            },
            Hist::TxBatchSize => MetricsModel {
                tx_batch_size: recorded(self.tx_batch_size, value),
                ..self
            },
        }
    }

    /// One histogram.
    pub open spec fn hist(self, h: Hist) -> Seq<u64> {
        match h {
            Hist::GroSegmentsPerRead => self.gro_segments_per_read,
            Hist::TxBatchSize => self.tx_batch_size,
        }
    }

    /// The sum of the first `n` harness-drop counters.
    pub open spec fn drops(self, n: int) -> int
        decreases n,
    {
        if n <= 0 {
            0
        } else {
            self.drops(n - 1) + self.global.value(Counter::harness()[n - 1])
        }
    }

    /// The sum of every harness-drop counter.
    pub open spec fn harness_drops(self) -> int {
        self.drops(Counter::harness().len() as int)
    }

    /// The registry of a node where nothing has happened yet.
    pub open spec fn fresh(node: Seq<char>, vports: Seq<VportModel>) -> MetricsModel {
        MetricsModel {
            node,
            global: Counters::zero(),
            vports: Seq::new(vports.len(), |i: int| VportBlock::zero()),
            ids: Seq::new(vports.len(), |i: int| vports[i].id),
            gro_segments_per_read: Seq::new(BUCKETS as nat, |i: int| 0u64),
            tx_batch_size: Seq::new(BUCKETS as nat, |i: int| 0u64),
        }
    }
}

/// The whole registry.
#[derive(Debug)]
pub struct Metrics {
    node: String,
    global: Counters,
    vports: Vec<VportBlock>,
    vport_ids: Vec<u16>,
    gro_segments_per_read: Histogram,
    tx_batch_size: Histogram,
}

impl View for Metrics {
    type V = MetricsModel;

    closed spec fn view(&self) -> MetricsModel {
        MetricsModel {
            node: self.node@,
            global: self.global,
            vports: self.vports@,
            ids: self.vport_ids@,
            gro_segments_per_read: self.gro_segments_per_read@,
            tx_batch_size: self.tx_batch_size@,
        }
    }
}

impl Metrics {
    /// There is one block of counters for each id.
    #[verifier::type_invariant]
    spec fn inv(self) -> bool {
        self.vport_ids@.len() == self.vports@.len()
    }

    /// Allocate the registry for a topology. Done once, at startup.
    #[must_use]
    pub fn new(node: &str, vports: &VportTable) -> (r: Self)
        ensures
            r@ == MetricsModel::fresh(node@, vports@),
    {
        let table: Vec<(VportIdx, crate::config::Vport)> = vports.iter();
        let mut blocks: Vec<VportBlock> = Vec::new();
        let mut ids: Vec<u16> = Vec::new();
        let mut i: usize = 0;
        while i < table.len()
            invariant
                i <= table@.len(),
                table@.len() == vports@.len(),
                forall|j: int| 0 <= j < table@.len() ==> (#[trigger] table@[j]).1@ == vports@[j],
                blocks@.len() == i,
                ids@.len() == i,
                forall|j: int| 0 <= j < i ==> (#[trigger] blocks@[j]) == VportBlock::zero(),
                forall|j: int| 0 <= j < i ==> (#[trigger] ids@[j]) == vports@[j].id,
            decreases table.len() - i,
        {
            blocks.push(VportBlock::new());
            ids.push(table[i].1.id.get());
            i += 1;
        }
        let r = Metrics {
            node: node.to_owned(),
            global: Counters::new(),
            vports: blocks,
            vport_ids: ids,
            gro_segments_per_read: Histogram::new(),
            tx_batch_size: Histogram::new(),
        };
        assert(r@ =~= MetricsModel::fresh(node@, vports@));
        r
    }

    /// Add `n` to a node-wide counter.
    pub fn add(&mut self, c: Counter, n: u64)
        ensures
            final(self)@ == old(self)@.added(c, n),
    {
        proof {
            use_type_invariant(&*self);
        }
        let mut global: Counters = self.global;
        global.add(c, n);
        self.global = global;
    }

    /// Add one to a node-wide counter.
    pub fn bump(&mut self, c: Counter)
        ensures
            final(self)@ == old(self)@.added(c, 1),
    {
        self.add(c, 1);
    }

    /// Read a node-wide counter.
    #[must_use]
    pub fn get(&self, c: Counter) -> (r: u64)
        ensures
            r == self@.global.value(c),
    {
        self.global.get(c)
    }

    /// The counter block for a vport.
    #[must_use]
    pub fn vport(&self, idx: VportIdx) -> (r: &VportBlock)
        requires
            0 <= idx.spec_get() < self@.vports.len(),
        ensures
            *r == self@.vports[idx.spec_get()],
    {
        &self.vports[idx.get()]
    }

    /// Add `n` to a counter of a vport.
    pub fn vport_add(&mut self, idx: VportIdx, c: VportCounter, n: u64)
        requires
            0 <= idx.spec_get() < old(self)@.vports.len(),
        ensures
            final(self)@ == old(self)@.vport_added(idx.spec_get(), c, n),
    {
        proof {
            use_type_invariant(&*self);
        }
        let i: usize = idx.get();
        let mut block: VportBlock = self.vports[i];
        block.add(c, n);
        self.vports[i] = block;
    }

    /// A histogram.
    #[must_use]
    pub fn hist(&self, h: Hist) -> (r: &Histogram)
        ensures
            r@ == self@.hist(h),
    {
        match h {
            Hist::GroSegmentsPerRead => &self.gro_segments_per_read,
            Hist::TxBatchSize => &self.tx_batch_size,
        }
    }

    /// Record one observation.
    pub fn record(&mut self, h: Hist, value: usize)
        ensures
            final(self)@ == old(self)@.recorded(h, value as int),
    {
        proof {
            use_type_invariant(&*self);
        }
        match h {
            Hist::GroSegmentsPerRead => {
                let mut hist: Histogram = self.gro_segments_per_read;
                hist.record(value);
                self.gro_segments_per_read = hist;
            },
            Hist::TxBatchSize => {
                let mut hist: Histogram = self.tx_batch_size;
                hist.record(value);
                self.tx_batch_size = hist;
            },
        }
    }

    /// Sum of every harness-drop counter.
    #[must_use]
    pub fn harness_drops(&self) -> (r: u64)
        requires
            self@.harness_drops() <= u64::MAX,
        ensures
            r == self@.harness_drops(),
    {
        let all: Vec<Counter> = Counter::harness_drops();
        let mut sum: u64 = 0;
        let mut i: usize = 0;
        while i < all.len()
            invariant
                i <= all@.len(),
                all@ == Counter::harness(),
                self@.harness_drops() <= u64::MAX,
                sum == self@.drops(i as int),
            decreases all.len() - i,
        {
            proof {
                lemma_drops_grow(self@, i + 1, all@.len() as int);
            }
            sum = sum + self.global.get(all[i]);
            i += 1;
        }
        sum
    }

    /// The node label carried in snapshots.
    #[must_use]
    pub fn node(&self) -> (r: &str)
        ensures
            r@ == self@.node,
    {
        self.node.as_str()
    }

    /// Configured vport ids, in index order.
    #[must_use]
    pub fn vport_ids(&self) -> (r: &[u16])
        ensures
            r@ == self@.ids,
            r@.len() == self@.vports.len(),
    {
        proof {
            use_type_invariant(self);
        }
        self.vport_ids.as_slice()
    }

    /// Per-vport counter blocks, in index order.
    #[must_use]
    pub fn vport_blocks(&self) -> (r: &[VportBlock])
        ensures
            r@ == self@.vports,
    {
        self.vports.as_slice()
    }
}

proof fn lemma_drops_grow(m: MetricsModel, i: int, j: int)
    requires
        i <= j,
    ensures
        m.drops(i) <= m.drops(j),
    decreases j,
{
    if i < j && j > 0 {
        lemma_drops_grow(m, i, j - 1);
    } else if i < j {
        assert(m.drops(i) == 0 && m.drops(j) == 0);
    }
}

/// Adding to one counter leaves every other alone.
pub proof fn law_counters_are_independent(b: Counters, c: Counter, d: Counter, n: u64)
    ensures
        b.added(c, n).value(d) == (if c == d {
            wrapped(b.value(c) + n)
        } else {
            b.value(d)
        }),
{
}

/// Adding to one counter of a vport leaves every other counter of it, and
/// every other vport, alone.
pub proof fn law_vport_blocks_are_independent(
    m: MetricsModel,
    i: int,
    j: int,
    c: VportCounter,
    d: VportCounter,
    n: u64,
)
    requires
        0 <= i < m.vports.len(),
        0 <= j < m.vports.len(),
    ensures
        m.vport_added(i, c, n).vports[j].value(d) == (if i == j && c == d {
            wrapped(m.vports[i].value(c) + n)
        } else {
            m.vports[j].value(d)
        }),
        m.vport_added(i, c, n).global == m.global,
{
}

/// What the pipeline decides never counts as harness loss, nor do the calls
/// that were made: only the harness-drop counters do.
pub proof fn law_only_harness_drops_count(m: MetricsModel, c: Counter, n: u64)
    requires
        !Counter::harness().contains(c),
    ensures
        m.added(c, n).harness_drops() == m.harness_drops(),
        !Counter::harness().contains(Counter::EngineDrop),
{
    lemma_drops_kept(m, c, n, Counter::harness().len() as int);
}

proof fn lemma_drops_kept(m: MetricsModel, c: Counter, n: u64, k: int)
    requires
        !Counter::harness().contains(c),
        k <= Counter::harness().len(),
    ensures
        m.added(c, n).drops(k) == m.drops(k),
    decreases k,
{
    if k > 0 {
        lemma_drops_kept(m, c, n, k - 1);
        let d = Counter::harness()[k - 1];
        assert(Counter::harness().contains(d));
        law_counters_are_independent(m.global, c, d, n);
    }
}

/// Bucket `b` of a histogram holds what is above the bound of the bucket below
/// and short of its own double: zero and one in the first, then two, four,
/// eight, sixteen and thirty-two on, exactly 64 in the last but one, and
/// everything above in the last.
pub proof fn law_buckets_are_powers_of_two(value: int)
    requires
        0 <= value,
    ensures
        0 <= bucket_of(value) < 8,
        bucket_of(value) == 0 <==> value < 2,
        bucket_of(value) == 1 <==> 2 <= value < 4,
        bucket_of(value) == 2 <==> 4 <= value < 8,
        bucket_of(value) == 3 <==> 8 <= value < 16,
        bucket_of(value) == 4 <==> 16 <= value < 32,
        bucket_of(value) == 5 <==> 32 <= value < 64,
        bucket_of(value) == 6 <==> value == 64,
        bucket_of(value) == 7 <==> 64 < value,
        bound_of(7) is None,
        bound_of(bucket_of(value)) matches Some(b) ==> value == 0 || b <= value,
        bound_of(bucket_of(value)) matches Some(b) ==> value < 2 * b,
{
}

/// One observation adds one to one bucket.
pub proof fn law_an_observation_counts_once(h: Seq<u64>, value: int, i: int)
    requires
        h.len() == 8,
        0 <= i < 8,
        0 <= value,
    ensures
        recorded(h, value).len() == 8,
        recorded(h, value)[i] == (if i == bucket_of(value) {
            (h[i] + 1) % 0x1_0000_0000_0000_0000
        } else {
            h[i] as int
        }),
{
}

/// The two histograms do not mix.
pub proof fn law_histograms_are_independent(m: MetricsModel, value: int)
    ensures
        m.recorded(Hist::GroSegmentsPerRead, value) == (MetricsModel {
            gro_segments_per_read: recorded(m.gro_segments_per_read, value),
            ..m
        }),
        m.recorded(Hist::TxBatchSize, value) == (MetricsModel {
            tx_batch_size: recorded(m.tx_batch_size, value),
            ..m
        }),
        m.hist(Hist::GroSegmentsPerRead) == m.gro_segments_per_read,
        m.hist(Hist::TxBatchSize) == m.tx_batch_size,
{
}

/// The harness's loss is the sum of its eight drop counters; the pipeline's
/// own drops and the calls that were made are no part of it.
pub proof fn law_harness_loss_is_a_sum(m: MetricsModel)
    ensures
        m.harness_drops() == m.global.rx_unknown_peer + m.global.rx_bad_header
            + m.global.tx_oversize_drop + m.global.tx_would_block + m.global.punt_unconfigured_drop
            + m.global.punt_overflow_drop + m.global.tx_unknown_port + m.global.tx_send_error,
{
    reveal_with_fuel(MetricsModel::drops, 9);
    assert(Counter::harness().len() == 8);
}

/// A new registry counts nothing, and knows the vports in their order.
pub proof fn law_a_new_registry_is_zero(node: Seq<char>, vports: Seq<VportModel>, c: Counter, d: VportCounter, i: int)
    requires
        0 <= i < vports.len(),
    ensures
        ({
            let m = MetricsModel::fresh(node, vports);
            &&& m.global.value(c) == 0
            &&& m.vports.len() == vports.len()
            &&& m.vports[i].value(d) == 0
            &&& m.ids.len() == vports.len()
            &&& m.ids[i] == vports[i].id
            &&& m.node == node
            &&& m.harness_drops() == 0
            &&& m.gro_segments_per_read == seq![0u64, 0, 0, 0, 0, 0, 0, 0]
            &&& m.tx_batch_size == seq![0u64, 0, 0, 0, 0, 0, 0, 0]
        }),
{
    let m = MetricsModel::fresh(node, vports);
    law_harness_loss_is_a_sum(m);
    assert(m.gro_segments_per_read =~= seq![0u64, 0, 0, 0, 0, 0, 0, 0]);
    assert(m.tx_batch_size =~= seq![0u64, 0, 0, 0, 0, 0, 0, 0]);
}

} // verus!
