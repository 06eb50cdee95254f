use up4::headers::{Ethernet, Ipv4, ETHERTYPE_IPV4, ETH_HDR_LEN, IP_PROTO_UDP, MIN_FRAME_LEN};
use up4::net::{Ipv4Addr, SocketAddr};
use up4::pktgen::{
    batch_size, finish, pace, percentile, split_read, Generator, PktgenConfig, Receiver,
};
use up4::seq::SeqNum;
use up4::socket::{GSO_MAX_BYTES, TX_BATCH};
use up4::template::{FrameSpec, FrameTemplate};
use up4::value::MacAddr;
use up4::wire::{decode, encode, Hdr, OVERLAY_HDR_LEN};

#[test]
fn a_template_is_a_frame_a_pipeline_can_parse() {
    let t = FrameTemplate::new(FrameSpec::default());
    let eth = Ethernet::parse(t.bytes()).expect("ethernet");
    assert_eq!(eth.ethertype, ETHERTYPE_IPV4);
    assert_eq!(eth.dst, MacAddr::new([0x02, 0, 0, 0, 0, 2]));
    let ip = Ipv4::parse(t.bytes(), ETH_HDR_LEN).expect("ipv4");
    assert_eq!(ip.ttl, 64);
    assert_eq!(ip.protocol, IP_PROTO_UDP);
    assert_eq!(ip.dst, Ipv4Addr::new(10, 0, 2, 1));
    assert_eq!(usize::from(ip.total_len), t.len() - ETH_HDR_LEN);
}

#[test]
fn short_requests_are_raised_to_a_legal_frame() {
    let t = FrameTemplate::new(FrameSpec { len: 1, ..FrameSpec::default() });
    assert_eq!(t.len(), MIN_FRAME_LEN);
    assert!(Ipv4::parse(t.bytes(), ETH_HDR_LEN).is_some());
    assert_eq!(t.spec().len, MIN_FRAME_LEN, "the spec reports what was built");
    assert!(!t.is_empty());
}

#[test]
fn flows_vary_the_source_and_leave_the_destination_alone() {
    let mut t = FrameTemplate::new(FrameSpec::default());
    let first = t.for_flow(0, 4).to_vec();
    let second = t.for_flow(1, 4).to_vec();
    assert_ne!(first, second);
    let a = Ipv4::parse(&first, ETH_HDR_LEN).expect("ipv4");
    let b = Ipv4::parse(&second, ETH_HDR_LEN).expect("ipv4");
    assert_ne!(a.src, b.src);
    assert_eq!(a.dst, b.dst, "the route under test does not move");
}

#[test]
fn a_single_flow_is_byte_identical_every_time() {
    let mut t = FrameTemplate::new(FrameSpec::default());
    assert_eq!(t.for_flow(0, 1).to_vec(), t.for_flow(7, 1).to_vec());
}

#[test]
fn percentiles_index_a_sorted_slice() {
    let s: Vec<i64> = (0..100).collect();
    assert_eq!(percentile(&s, 50), 50);
    assert_eq!(percentile(&s, 99), 99);
    assert_eq!(percentile(&s, 100), 99, "clamped to the last sample");
    assert_eq!(percentile(&[], 50), 0);
}

#[test]
fn pacing_sleeps_only_when_it_is_ahead() {
    // Frame 1_000_000 at 1 Mpps is due one second in; but frame 0 is due now.
    assert_eq!(pace(1_000_000, 0, 0), 0, "no sleep for the first frame");
    assert_eq!(pace(0, 0, 1_000_000), 0, "rate 0 never sleeps");
    assert_eq!(pace(1_000_000, 0, 1_000_000), 1_000_000_000);
    assert_eq!(pace(1_000_000, 400_000_000, 1_000_000), 600_000_000);
    assert_eq!(pace(1_000_000, 2_000_000_000, 1_000_000), 0, "behind, so no sleep");
    assert_eq!(pace(1, 0, u64::MAX), u64::MAX, "the deadline saturates");
}

#[test]
fn the_batch_is_bounded_by_what_one_segmented_write_can_carry() {
    let segment = OVERLAY_HDR_LEN + 1460;
    assert!(TX_BATCH * segment > GSO_MAX_BYTES, "the bound is not vacuous");
    assert!((GSO_MAX_BYTES / segment) * segment <= GSO_MAX_BYTES);
    assert_eq!(batch_size(TX_BATCH, segment), GSO_MAX_BYTES / segment);
    assert_eq!(batch_size(TX_BATCH, 64), TX_BATCH);
    assert_eq!(batch_size(0, 64), 1);
    assert_eq!(batch_size(TX_BATCH, GSO_MAX_BYTES + 1), 1);
}

#[test]
fn the_defaults_are_the_documented_ones() {
    let c = PktgenConfig::default();
    assert_eq!(c.frame.len, 1460);
    assert_eq!((c.frame.src_port, c.frame.dst_port), (4000, 4001));
    assert_eq!(c.target, SocketAddr::V4 { ip: 0x7f00_0001, port: 7400 });
    assert_eq!((c.rate_pps, c.flows, c.duration_ms, c.vport), (0, 1, 1_000, 0));
    assert_eq!(c.batch, TX_BATCH);
    assert!(c.same_host);
}

#[test]
fn generated_segments_carry_consecutive_sequence_numbers() {
    let mut g = Generator::new(FrameSpec { len: 64, ..FrameSpec::default() });
    let mut buf = Vec::new();
    for _ in 0..3 {
        g.push(&mut buf, 7, 2, 99);
    }
    let segment = OVERLAY_HDR_LEN + g.frame_len();
    assert_eq!(buf.len(), 3 * segment);
    assert_eq!(g.sent(), 3);
    let mut sources = Vec::new();
    for (i, s) in buf.chunks(segment).enumerate() {
        let h = decode(s).expect("header");
        assert_eq!(h.ingress_vport, 7);
        assert_eq!(h.seq.get(), i as u32);
        assert_eq!(h.ts_us, 99);
        sources.push(Ipv4::parse(&s[OVERLAY_HDR_LEN..], ETH_HDR_LEN).expect("ipv4").src);
    }
    assert_ne!(sources[0], sources[1]);
    assert_eq!(sources[0], sources[2], "two flows take turns");
}

fn segment(vport: u16, seq: u32, ts_us: u32, len: usize) -> Vec<u8> {
    let mut hdr = [0u8; OVERLAY_HDR_LEN];
    encode(&Hdr { ingress_vport: vport, seq: SeqNum::new(seq), ts_us }, &mut hdr);
    let mut s = hdr.to_vec();
    s.resize(OVERLAY_HDR_LEN + len, 0);
    s
}

#[test]
fn the_receiver_tells_loss_from_disorder() {
    let mut r = Receiver::new(64);
    r.segment(&segment(0, 0, 10, 64), 15);
    r.segment(&segment(0, 3, 10, 64), 17);
    r.segment(&segment(0, 1, 20, 60), 17);
    r.segment(&segment(5, 9, 10, 64), 11);
    r.segment(&[0xf0; 20], 0);
    r.segment(&[0x10; 3], 0);
    let s = r.stats();
    assert_eq!(s.frames, 4);
    assert_eq!(s.bytes, 64 * 3 + 60);
    assert_eq!(s.gaps, 2, "1 and 2 were missing when 3 came");
    assert_eq!(s.reorder, 1);
    assert_eq!(s.bad_header, 2);
    assert_eq!(s.length_mismatch, 1);
    assert_eq!(r.into_samples(), vec![5, 7, -3, 1]);
}

#[test]
fn a_coalesced_read_is_split_at_its_stride() {
    assert_eq!(split_read(10, 4), vec![(0, 4), (4, 8), (8, 10)]);
    assert_eq!(split_read(8, 4), vec![(0, 4), (4, 8)]);
    assert_eq!(split_read(5, 0), vec![(0, 5)]);
    assert_eq!(split_read(0, 4), Vec::new());
}

#[test]
fn a_run_reports_the_percentiles_of_its_samples_in_order() {
    let mut r = Receiver::new(64);
    for i in 0..100u32 {
        // Delays of 100 down to 1.
        r.segment(&segment(0, i, 1_000 + i, 64), 1_100);
    }
    let stats = r.stats();
    let t = finish(stats, r.into_samples(), 120, 64, false);
    assert_eq!((t.sent, t.sent_bytes), (120, 120 * 64));
    assert_eq!((t.received, t.received_bytes), (100, 100 * 64));
    assert_eq!(t.lost, 20);
    let l = t.latency.expect("frames came back");
    assert_eq!((l.p50_us, l.p99_us), (51, 100));
    assert_eq!(l.samples, 100);
    assert!(!l.calibrated);
}

#[test]
fn a_run_without_replies_has_no_latency() {
    let r = Receiver::new(64);
    let stats = r.stats();
    let t = finish(stats, r.into_samples(), 5, 64, true);
    assert_eq!(t.lost, 5);
    assert_eq!(t.received, 0);
    assert!(t.latency.is_none());
}
