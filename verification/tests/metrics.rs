use up4::config::raw::{RawAddr, RawConfig, RawNode, RawVport};
use up4::config::vport::VportTable;
use up4::config::Config;
use up4::metrics::{Counter, Hist, Histogram, Metrics, VportBlock, VportCounter};
use up4::net::SocketAddr;
use up4::snapshot::{snapshot_file, HistogramSnapshot};

fn local(port: u16) -> RawAddr {
    let shown = format!("127.0.0.1:{port}");
    RawAddr {
        text: shown.clone(),
        addr: Some(SocketAddr::V4 { ip: 0x7f00_0001, port }),
        shown,
    }
}

fn table(ids: &[i64]) -> VportTable {
    let mut vport = Vec::new();
    for (i, id) in ids.iter().enumerate() {
        vport.push(RawVport { id: *id, peer: local(2 + i as u16) });
    }
    let raw = RawConfig {
        node: RawNode {
            id: "a".into(),
            bind: local(1),
            fabric: "ipv4".into(),
            pipeline: "p".into(),
            threads: 1,
            pin_cores: None,
            ctl_socket: "/tmp/t.sock".into(),
            metrics_interval_s: 5,
        },
        vport,
        punt: None,
    };
    Config::from_parsed(Ok(raw), &["p"]).expect("fixture is valid").vports
}

#[test]
fn counter_names_are_the_spec_names() {
    let names: Vec<&str> = Counter::all().iter().map(|c| c.name()).collect();
    assert_eq!(
        names,
        [
            "rx_unknown_peer",
            "rx_bad_header",
            "tx_oversize_drop",
            "tx_would_block",
            "punt_unconfigured_drop",
            "punt_overflow_drop",
            "tx_unknown_port",
            "tx_send_error",
            "engine_drop",
            "syscalls_rx",
            "syscalls_tx",
        ]
    );
    let vnames: Vec<&str> = VportCounter::all().iter().map(|c| c.name()).collect();
    assert_eq!(
        vnames,
        [
            "rx_pkts",
            "rx_bytes",
            "tx_pkts",
            "tx_bytes",
            "tx_broadcast",
            "rx_seq_gap_total",
            "rx_reorder",
        ]
    );
    let hists: Vec<&str> = Hist::all().iter().map(|h| h.name()).collect();
    assert_eq!(hists, ["gro_segments_per_read", "tx_batch_size"]);
}

#[test]
fn engine_drop_is_not_a_harness_drop() {
    let mut m = Metrics::new("t", &table(&[0, 9]));
    m.bump(Counter::EngineDrop);
    assert_eq!(m.harness_drops(), 0, "pipeline decisions never count as harness loss");
    m.bump(Counter::RxBadHeader);
    assert_eq!(m.harness_drops(), 1);
    assert!(!Counter::harness_drops().contains(&Counter::EngineDrop));
}

#[test]
fn per_vport_blocks_are_independent() {
    let t = table(&[0, 9]);
    let mut m = Metrics::new("t", &t);
    let a = t.idx_of_id(0).expect("configured");
    let b = t.idx_of_id(9).expect("configured");
    m.vport_add(a, VportCounter::RxPkts, 5);
    m.vport_add(b, VportCounter::RxPkts, 2);
    assert_eq!(m.vport(a).get(VportCounter::RxPkts), 5);
    assert_eq!(m.vport(b).get(VportCounter::RxPkts), 2);
    assert_eq!(m.vport_ids(), &[0, 9]);
    assert_eq!(m.vport_blocks().len(), 2);
}

#[test]
fn histogram_buckets_are_powers_of_two_with_an_overflow() {
    let mut h = Histogram::new();
    for v in [0usize, 1, 2, 3, 4, 63, 64, 65, usize::MAX] {
        h.record(v);
    }
    // 0 and 1 -> bucket "1"; 2,3 -> "2"; 4 -> "4"; 63 -> "32"; 64 -> "64";
    // 65 and MAX -> overflow.
    assert_eq!(h.read(), [2, 2, 1, 0, 0, 1, 1, 2]);
}

#[test]
fn counters_wrap_rather_than_stop() {
    let mut b = VportBlock::new();
    b.add(VportCounter::TxBytes, u64::MAX);
    b.add(VportCounter::TxBytes, 2);
    assert_eq!(b.get(VportCounter::TxBytes), 1);
    b.bump(VportCounter::TxPkts);
    assert_eq!(b.get(VportCounter::TxPkts), 1);
    let mut m = Metrics::new("t", &table(&[4]));
    m.add(Counter::SyscallsRx, u64::MAX);
    m.bump(Counter::SyscallsRx);
    assert_eq!(m.get(Counter::SyscallsRx), 0);
    assert_eq!(m.node(), "t");
}

#[test]
fn snapshot_names_every_counter_even_at_zero() {
    let snap = Metrics::new("a", &table(&[4])).snapshot(0);
    assert_eq!(snap.counters.len(), Counter::all().len());
    assert_eq!(snap.vports.len(), 1);
    assert_eq!(snap.vports[0].id, 4);
    assert_eq!(snap.vports[0].counters.len(), VportCounter::all().len());
    assert_eq!(snap.histograms.len(), Hist::all().len());
    let gro = snap
        .histograms
        .iter()
        .find(|(name, _)| name == "gro_segments_per_read")
        .expect("named");
    assert_eq!(gro.1.buckets.last().map(|b| b.le), Some(None));
}

#[test]
fn a_snapshot_holds_what_was_counted() {
    let t = table(&[4]);
    let mut m = Metrics::new("a", &t);
    m.add(Counter::RxBadHeader, 3);
    m.record(Hist::GroSegmentsPerRead, 8);
    m.vport_add(t.idx_of_id(4).expect("configured"), VportCounter::RxReorder, 7);
    let snap = m.snapshot(42);
    assert_eq!(snap.node, "a");
    assert_eq!(snap.ts_us, 42);
    assert_eq!(snap.harness_drops, 3);
    assert!(snap.counters.contains(&("rx_bad_header".to_owned(), 3)));
    assert!(snap.vports[0].counters.contains(&("rx_reorder".to_owned(), 7)));
    let gro = HistogramSnapshot::of(m.hist(Hist::GroSegmentsPerRead));
    assert_eq!(gro.buckets[3].le, Some(8));
    assert_eq!(gro.buckets[3].count, 1);
    assert_eq!(gro.buckets.len(), 8);
}

#[test]
fn a_snapshot_file_is_named_after_its_node() {
    assert_eq!(snapshot_file("a"), "up4-metrics-a.jsonl");
}
