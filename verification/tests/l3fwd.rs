use up4::engine::{Engine, Pipeline, PipelineParams, Verdict};
use up4::frame::FrameCtx;
use up4::headers::{ETHERTYPE_IPV4, ETH_HDR_LEN, IPV4_MIN_HDR_LEN, IP_PROTO_UDP};
use up4::net::Ipv4Addr;
use up4::ops::TableOps;
use up4::programs::l3fwd::{table_schemas, L3Engine, L3Fwd};
use up4::shim::TypedKey;
use up4::value::{TypedVal, ValKind};

fn key(text: &str) -> TypedKey {
    TypedKey::parse(table_schemas()[0].key, text).expect("valid key")
}

fn mac(s: &str) -> TypedVal {
    TypedVal::parse(ValKind::Mac, s).expect("valid mac")
}

/// eth + ipv4(ttl, dst) + 8 payload bytes, with non-zero checksums.
fn frame(dst: &str, ttl: u8) -> Vec<u8> {
    let mut f = vec![0u8; ETH_HDR_LEN + IPV4_MIN_HDR_LEN + 8];
    f[0..6].copy_from_slice(&[0xaa, 0, 0, 0, 0, 1]);
    f[6..12].copy_from_slice(&[0xaa, 0, 0, 0, 0, 2]);
    f[12..14].copy_from_slice(&ETHERTYPE_IPV4.to_be_bytes());
    f[14] = 0x45;
    f[16..18].copy_from_slice(&28u16.to_be_bytes());
    f[22] = ttl;
    f[23] = IP_PROTO_UDP;
    f[24..26].copy_from_slice(&[0xde, 0xad]);
    f[26..30].copy_from_slice(&[10, 0, 0, 1]);
    f[30..34].copy_from_slice(&Ipv4Addr::parse(dst).expect("literal").octets());
    f[40..42].copy_from_slice(&[0xbe, 0xef]);
    f
}

fn run(p: &L3Fwd, engine: &mut L3Engine, frame: &mut Vec<u8>) -> Verdict {
    let mut buf = vec![0u8; 64 + frame.len()];
    buf[64..].copy_from_slice(frame);
    let mut ctx = FrameCtx::new(&mut buf, 64, frame.len(), 0, 0).expect("fits");
    let v = engine.process(p, &mut ctx);
    frame.clear();
    frame.extend_from_slice(ctx.frame());
    v
}

fn routed() -> (L3Fwd, L3Engine) {
    let mut p = L3Fwd::new(&PipelineParams::new(vec![0, 1]));
    p.table_add(
        "ipv4_lpm",
        key("10.0.0.0/24"),
        "forward",
        &[TypedVal::U16(1), mac("bb:bb:bb:bb:bb:01")],
    )
    .expect("install");
    p.table_add(
        "ipv4_lpm",
        key("10.0.0.7/32"),
        "forward",
        &[TypedVal::U16(2), mac("bb:bb:bb:bb:bb:02")],
    )
    .expect("install");
    let e = p.engine();
    (p, e)
}

#[test]
fn longest_prefix_wins() {
    let (p, mut e) = routed();
    assert_eq!(
        run(&p, &mut e, &mut frame("10.0.0.9", 64)),
        Verdict::Forward(1)
    );
    assert_eq!(
        run(&p, &mut e, &mut frame("10.0.0.7", 64)),
        Verdict::Forward(2)
    );
}

#[test]
fn a_miss_takes_the_default_action() {
    let (mut p, mut e) = routed();
    assert_eq!(run(&p, &mut e, &mut frame("192.168.1.1", 64)), Verdict::Drop);
    p.table_set_default("ipv4_lpm", "punt", &[])
        .expect("set default");
    assert_eq!(run(&p, &mut e, &mut frame("192.168.1.1", 64)), Verdict::Punt);
}

#[test]
fn forwarding_decrements_ttl_rewrites_dmac_and_zeroes_checksums() {
    let (p, mut e) = routed();
    let mut f = frame("10.0.0.9", 64);
    assert_eq!(run(&p, &mut e, &mut f), Verdict::Forward(1));
    assert_eq!(f[22], 63, "ttl decremented");
    assert_eq!(
        &f[0..6],
        &[0xbb, 0xbb, 0xbb, 0xbb, 0xbb, 0x01],
        "dmac rewritten"
    );
    assert_eq!(&f[6..12], &[0xaa, 0, 0, 0, 0, 2], "smac untouched");
    assert_eq!(&f[24..26], &[0, 0], "ipv4 checksum zero-filled");
    assert_eq!(&f[40..42], &[0, 0], "udp checksum zero-filled");
}

#[test]
fn ttl_one_forwards_with_ttl_zero_and_ttl_zero_is_dropped() {
    let (p, mut e) = routed();
    let mut f = frame("10.0.0.9", 1);
    assert_eq!(run(&p, &mut e, &mut f), Verdict::Forward(1));
    assert_eq!(f[22], 0);

    let mut f = frame("10.0.0.9", 0);
    let before = f.clone();
    assert_eq!(run(&p, &mut e, &mut f), Verdict::Drop);
    assert_eq!(f, before, "a dropped frame leaves the switch untouched");
}

#[test]
fn non_ipv4_and_truncated_frames_are_dropped_by_the_parser() {
    let (p, mut e) = routed();
    let mut arp = frame("10.0.0.9", 64);
    arp[12..14].copy_from_slice(&0x0806u16.to_be_bytes());
    assert_eq!(run(&p, &mut e, &mut arp), Verdict::Drop);

    for len in [
        0,
        ETH_HDR_LEN - 1,
        ETH_HDR_LEN,
        ETH_HDR_LEN + IPV4_MIN_HDR_LEN - 1,
    ] {
        let mut short = frame("10.0.0.9", 64);
        short.truncate(len);
        assert_eq!(run(&p, &mut e, &mut short), Verdict::Drop, "len {len}");
    }
}

#[test]
fn punt_action_reaches_the_harness_as_a_punt_verdict() {
    let (mut p, mut e) = routed();
    p.table_add("ipv4_lpm", key("10.9.0.0/16"), "punt", &[])
        .expect("install");
    assert_eq!(run(&p, &mut e, &mut frame("10.9.1.1", 64)), Verdict::Punt);
}

#[test]
fn dump_is_longest_prefix_first_and_round_trips() {
    let (mut p, _e) = routed();
    p.table_add("ipv4_lpm", key("0.0.0.0/0"), "drop", &[])
        .expect("install");
    let dump = p.table_dump("ipv4_lpm").expect("known table");
    assert_eq!(
        dump.iter().map(|e| e.key.as_str()).collect::<Vec<_>>(),
        ["10.0.0.7/32", "10.0.0.0/24", "0.0.0.0/0"]
    );
    assert_eq!(dump[0].params.get("dmac").map(String::as_str), Some("bb:bb:bb:bb:bb:02"));
    assert_eq!(p.table_default("ipv4_lpm").expect("known table").key, "*");
    assert_eq!(p.table_clear("ipv4_lpm"), Ok(3));
    assert_eq!(p.table_dump("ipv4_lpm").expect("known table"), vec![]);
}

#[test]
fn host_bits_in_a_route_are_canonicalized_not_duplicated() {
    let (mut p, _e) = routed();
    p.table_add("ipv4_lpm", key("10.0.0.55/24"), "drop", &[])
        .expect("install");
    let dump = p.table_dump("ipv4_lpm").expect("known table");
    assert_eq!(dump.iter().filter(|e| e.key == "10.0.0.0/24").count(), 1);
    assert_eq!(dump.len(), 2);
}

#[test]
fn a_thousand_routes_resolve() {
    let mut p = L3Fwd::new(&PipelineParams::new(vec![0, 1]));
    for i in 0..1000u32 {
        let addr = Ipv4Addr { bits: 0x0a00_0000 | (i << 8) }.to_text();
        p.table_add(
            "ipv4_lpm",
            key(&format!("{addr}/24")),
            "forward",
            &[TypedVal::U16((i % 2) as u16), mac("bb:bb:bb:bb:bb:01")],
        )
        .expect("install");
    }
    let mut e = p.engine();
    assert_eq!(
        run(&p, &mut e, &mut frame("10.3.231.5", 64)),
        Verdict::Forward(1),
        "route 999"
    );
    assert_eq!(run(&p, &mut e, &mut frame("11.0.0.1", 64)), Verdict::Drop);
}
