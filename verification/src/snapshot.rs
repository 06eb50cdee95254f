//! Reading the counter registry as a whole.
use crate::metrics::{
    bound_of, Counter, Hist, Histogram, Metrics, MetricsModel, VportBlock, VportCounter, BUCKETS,
};
use vstd::prelude::*;

verus! {

/// One histogram bucket. `le = None` is the unbounded overflow bucket.
#[derive(Clone, Copy, Debug, PartialEq, Eq, Structural)]
pub struct Bucket {
    /// Inclusive upper bound, or `None` for the overflow bucket.
    pub le: Option<u32>,
    /// Observations in this bucket.
    pub count: u64,
}

/// A histogram, rendered.
#[derive(Clone, Debug, PartialEq, Eq)]
pub struct HistogramSnapshot {
    /// Buckets in increasing order, overflow last.
    pub buckets: Vec<Bucket>,
}

/// A histogram as its buckets.
pub open spec fn buckets_of(h: Seq<u64>) -> Seq<Bucket> {
    Seq::new(h.len(), |i: int| Bucket { le: bound_of(i), count: h[i] })
}

impl HistogramSnapshot {
    /// Render a histogram.
    #[must_use]
    pub fn of(h: &Histogram) -> (r: Self)
        ensures
            r.buckets@ == buckets_of(h@),
            r.buckets@.len() == BUCKETS,
    {
        let counts: [u64; 8] = h.read();
        let buckets: Vec<Bucket> = vec![
            Bucket { le: Some(1), count: counts[0] },
            Bucket { le: Some(2), count: counts[1] },
            Bucket { le: Some(4), count: counts[2] },
            Bucket { le: Some(8), count: counts[3] },
            Bucket { le: Some(16), count: counts[4] },
            Bucket { le: Some(32), count: counts[5] },
            Bucket { le: Some(64), count: counts[6] },
            Bucket { le: None, count: counts[7] },
        ];
        assert(buckets@ =~= buckets_of(h@));
        HistogramSnapshot { buckets }
    }
}

/// One vport's counters, rendered.
#[derive(Clone, Debug, PartialEq, Eq)]
pub struct VportSnapshot {
    /// Configured vport id.
    pub id: u16,
    /// Counter name and value, in declaration order.
    pub counters: Vec<(String, u64)>,
}

/// A full counter snapshot.
#[derive(Clone, Debug, PartialEq, Eq)]
pub struct Snapshot {
    /// The node's label.
    pub node: String,
    /// Wall-clock microseconds since the Unix epoch when the snapshot was
    /// taken, so that snapshots can be joined against other traces.
    pub ts_us: u64,
    /// Node-wide counters: name and value, in declaration order.
    pub counters: Vec<(String, u64)>,
    /// Sum of the harness-drop counters.
    pub harness_drops: u64,
    /// Per-vport counters.
    pub vports: Vec<VportSnapshot>,
    /// I/O-shape histograms, by name.
    pub histograms: Vec<(String, HistogramSnapshot)>,
}

/// The names and values of `v`.
pub open spec fn values_of(v: Seq<(String, u64)>) -> Seq<(Seq<char>, u64)> {
    Seq::new(v.len(), |i: int| (v[i].0@, v[i].1))
}

/// A [`VportSnapshot`] with its texts as characters.
#[verifier::ext_equal]
pub struct VportSnapshotModel {
    pub id: u16,
    pub counters: Seq<(Seq<char>, u64)>,
}

impl View for VportSnapshot {
    type V = VportSnapshotModel;

    open spec fn view(&self) -> VportSnapshotModel {
        VportSnapshotModel { id: self.id, counters: values_of(self.counters@) }
    }
}

/// A [`Snapshot`] with its texts as characters.
#[verifier::ext_equal]
pub struct SnapshotModel {
    pub node: Seq<char>,
    pub ts_us: u64,
    pub counters: Seq<(Seq<char>, u64)>,
    pub harness_drops: int,
    pub vports: Seq<VportSnapshotModel>,
    pub histograms: Seq<(Seq<char>, Seq<Bucket>)>,
}

impl View for Snapshot {
    type V = SnapshotModel;

    open spec fn view(&self) -> SnapshotModel {
        SnapshotModel {
            node: self.node@,
            ts_us: self.ts_us,
            counters: values_of(self.counters@),
            harness_drops: self.harness_drops as int,
            vports: Seq::new(self.vports@.len(), |i: int| self.vports@[i]@),
            histograms: Seq::new(
                self.histograms@.len(),
                |i: int| (self.histograms@[i].0@, self.histograms@[i].1.buckets@),
            ),
        }
    }
}

/// The counters of a vport by name.
pub open spec fn block_values(b: VportBlock) -> Seq<(Seq<char>, u64)> {
    Seq::new(
        VportCounter::every().len(),
        |i: int| (VportCounter::every()[i].spec_name(), b.value(VportCounter::every()[i])),
    )
}

/// The snapshot of a registry: every counter, zero or not.
pub open spec fn snapshot_of(m: MetricsModel, ts_us: u64) -> SnapshotModel {
    SnapshotModel {
        node: m.node,
        ts_us,
        counters: Seq::new(
            Counter::every().len(),
            |i: int| (Counter::every()[i].spec_name(), m.global.value(Counter::every()[i])),
        ),
        harness_drops: m.harness_drops(),
        vports: Seq::new(
            m.vports.len(),
            |i: int| VportSnapshotModel { id: m.ids[i], counters: block_values(m.vports[i]) },
        ),
        histograms: Seq::new(
            Hist::every().len(),
            |i: int| (Hist::every()[i].spec_name(), buckets_of(m.hist(Hist::every()[i]))),
        ),
    }
}

fn block_counters(b: &VportBlock) -> (r: Vec<(String, u64)>)
    ensures
        values_of(r@) == block_values(*b),
{
    let all: Vec<VportCounter> = VportCounter::all();
    let mut out: Vec<(String, u64)> = Vec::new();
    let mut i: usize = 0;
    while i < all.len()
        invariant
            i <= all@.len(),
            all@ == VportCounter::every(),
            out@.len() == i,
            forall|j: int| 0 <= j < i ==> (#[trigger] values_of(out@)[j]) == block_values(*b)[j],
        decreases all.len() - i,
    {
        let ghost before = out@;
        out.push((all[i].name().to_owned(), b.get(all[i])));
        assert forall|j: int| 0 <= j < i + 1 implies (#[trigger] values_of(out@)[j])
            == block_values(*b)[j] by {
            if j < i {
                assert(values_of(out@)[j] == values_of(before)[j]);
            }
        }
        i += 1;
    }
    assert(values_of(out@) =~= block_values(*b));
    out
}

impl Metrics {
    fn snapshot_counters(&self) -> (r: Vec<(String, u64)>)
        ensures
            values_of(r@) == snapshot_of(self@, 0).counters,
    {
        let ghost want = snapshot_of(self@, 0).counters;
        let all: Vec<Counter> = Counter::all();
        let mut out: Vec<(String, u64)> = Vec::new();
        let mut i: usize = 0;
        while i < all.len()
            invariant
                i <= all@.len(),
                all@ == Counter::every(),
                want == snapshot_of(self@, 0).counters,
                out@.len() == i,
                forall|j: int| 0 <= j < i ==> (#[trigger] values_of(out@)[j]) == want[j],
            decreases all.len() - i,
        {
            let ghost before = out@;
            out.push((all[i].name().to_owned(), self.get(all[i])));
            assert forall|j: int| 0 <= j < i + 1 implies (#[trigger] values_of(out@)[j])
                == want[j] by {
                if j < i {
                    assert(values_of(out@)[j] == values_of(before)[j]);
                }
            }
            i += 1;
        }
        assert(values_of(out@) =~= want);
        out
    }

    fn snapshot_vports(&self) -> (r: Vec<VportSnapshot>)
        ensures
            r@.len() == self@.vports.len(),
            forall|j: int|
                0 <= j < r@.len() ==> (#[trigger] r@[j])@ == snapshot_of(self@, 0).vports[j],
    {
        let ids: &[u16] = self.vport_ids();
        let blocks: &[VportBlock] = self.vport_blocks();
        let mut out: Vec<VportSnapshot> = Vec::new();
        let mut i: usize = 0;
        while i < blocks.len()
            invariant
                i <= blocks@.len(),
                blocks@ == self@.vports,
                ids@ == self@.ids,
                ids@.len() == blocks@.len(),
                out@.len() == i,
                forall|j: int|
                    0 <= j < i ==> (#[trigger] out@[j])@ == snapshot_of(self@, 0).vports[j],
            decreases blocks.len() - i,
        {
            out.push(VportSnapshot { id: ids[i], counters: block_counters(&blocks[i]) });
            i += 1;
        }
        out
    }

    /// Read every counter.
    #[must_use]
    pub fn snapshot(&self, ts_us: u64) -> (r: Snapshot)
        requires
            self@.harness_drops() <= u64::MAX,
        ensures
            r@ == snapshot_of(self@, ts_us),
    {
        let counters: Vec<(String, u64)> = self.snapshot_counters();
        let vports: Vec<VportSnapshot> = self.snapshot_vports();
        let histograms: Vec<(String, HistogramSnapshot)> = vec![
            (
                Hist::GroSegmentsPerRead.name().to_owned(),
                HistogramSnapshot::of(self.hist(Hist::GroSegmentsPerRead)),
            ),
            (
                Hist::TxBatchSize.name().to_owned(),
                HistogramSnapshot::of(self.hist(Hist::TxBatchSize)),
            ),
        ];
        let r = Snapshot {
            node: self.node().to_owned(),
            ts_us,
            counters,
            harness_drops: self.harness_drops(),
            vports,
            histograms,
        };
        proof {
            let want = snapshot_of(self@, ts_us);
            assert(r@.counters =~= want.counters);
            assert(r@.vports =~= want.vports);
            assert(r@.histograms =~= want.histograms);
        }
        r
    }
}

/// The name of the file that a node's snapshots are appended to.
#[must_use]
pub fn snapshot_file(node: &str) -> (r: String)
    ensures
        r@ == "up4-metrics-"@ + node@ + ".jsonl"@,
{
    let mut out: String = "up4-metrics-".to_owned();
    out.append(node);
    out.append(".jsonl");
    out
}

/// A snapshot shows every node-wide counter under its name, zero or not, and
/// the harness's loss beside them.
pub proof fn law_a_snapshot_names_every_counter(m: MetricsModel, ts_us: u64)
    ensures
        ({
            let s = snapshot_of(m, ts_us);
            let g = m.global;
            &&& s.node == m.node
            &&& s.ts_us == ts_us
            &&& s.counters == seq![
                ("rx_unknown_peer"@, g.rx_unknown_peer),
                ("rx_bad_header"@, g.rx_bad_header),
                ("tx_oversize_drop"@, g.tx_oversize_drop),
                ("tx_would_block"@, g.tx_would_block),
                ("punt_unconfigured_drop"@, g.punt_unconfigured_drop),
                ("punt_overflow_drop"@, g.punt_overflow_drop),
                ("tx_unknown_port"@, g.tx_unknown_port),
                ("tx_send_error"@, g.tx_send_error),
                ("engine_drop"@, g.engine_drop),
                ("syscalls_rx"@, g.syscalls_rx),
                ("syscalls_tx"@, g.syscalls_tx),
            ]
            &&& s.harness_drops == g.rx_unknown_peer + g.rx_bad_header + g.tx_oversize_drop
                + g.tx_would_block + g.punt_unconfigured_drop + g.punt_overflow_drop
                + g.tx_unknown_port + g.tx_send_error
        }),
{
    crate::metrics::law_harness_loss_is_a_sum(m);
    assert(Counter::every().len() == 11);
}

/// A snapshot shows every vport in order, under its id, with each of its
/// counters by name.
pub proof fn law_a_snapshot_names_every_vport_counter(m: MetricsModel, ts_us: u64, i: int)
    requires
        0 <= i < m.vports.len(),
    ensures
        ({
            let s = snapshot_of(m, ts_us);
            let b = m.vports[i];
            &&& s.vports.len() == m.vports.len()
            &&& s.vports[i].id == m.ids[i]
            &&& s.vports[i].counters == seq![
                ("rx_pkts"@, b.rx_pkts),
                ("rx_bytes"@, b.rx_bytes),
                ("tx_pkts"@, b.tx_pkts),
                ("tx_bytes"@, b.tx_bytes),
                ("tx_broadcast"@, b.tx_broadcast),
                ("rx_seq_gap_total"@, b.rx_seq_gap_total),
                ("rx_reorder"@, b.rx_reorder),
            ]
        }),
{
    assert(VportCounter::every().len() == 7);
}

/// A snapshot shows both histograms by name, each bucket under its bound.
pub proof fn law_a_snapshot_shows_both_histograms(m: MetricsModel, ts_us: u64, i: int)
    requires
        m.gro_segments_per_read.len() == 8,
        m.tx_batch_size.len() == 8,
        0 <= i < 8,
    ensures
        ({
            let h = snapshot_of(m, ts_us).histograms;
            let bound = if i == 0 {
                Some(1u32)
            } else if i == 1 {
                Some(2)
            } else if i == 2 {
                Some(4)
            } else if i == 3 {
                Some(8)
            } else if i == 4 {
                Some(16)
            } else if i == 5 {
                Some(32)
            } else if i == 6 {
                Some(64)
            } else {
                None
            };
            &&& h.len() == 2
            &&& h[0].0 == "gro_segments_per_read"@
            &&& h[1].0 == "tx_batch_size"@
            &&& h[0].1.len() == 8
            &&& h[1].1.len() == 8
            &&& h[0].1[i] == (Bucket { le: bound, count: m.gro_segments_per_read[i] })
            &&& h[1].1[i] == (Bucket { le: bound, count: m.tx_batch_size[i] })
        }),
{
    assert(Hist::every().len() == 2);
}

} // verus!
