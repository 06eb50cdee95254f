use up4::net::Ipv4Addr;
use up4::probe::{
    checked_cpuset, content, count_cpuset, hex_addr, peer_mtu, probe, route_interface, HostFacts,
    PeerMtu,
};
use up4::socket::{SocketCaps, WANT_BUF_BYTES};

#[test]
fn route_table_parsing_prefers_the_longest_prefix() {
    // Little-endian hex as the kernel prints it: 10.0.2.0/24 via eth0,
    // default via eth1, and 10.0.0.0/8 via eth2.
    let table = "\
Iface\tDestination\tGateway\tFlags\tRefCnt\tUse\tMetric\tMask\tMTU\tWindow\tIRTT
eth1\t00000000\t0102000A\t0003\t0\t0\t0\t00000000\t0\t0\t0
eth2\t0000000A\t00000000\t0001\t0\t0\t0\t000000FF\t0\t0\t0
eth0\t0002000A\t00000000\t0001\t0\t0\t0\t00FFFFFF\t0\t0\t0
";
    let route = |a: &str| route_interface(table, Ipv4Addr::parse(a).expect("literal"), true);
    assert_eq!(route("10.0.2.5").as_deref(), Some("eth0"));
    assert_eq!(route("10.9.9.9").as_deref(), Some("eth2"));
    assert_eq!(
        route("8.8.8.8").as_deref(),
        Some("eth1"),
        "the default route matches all"
    );
}

#[test]
fn a_host_without_routes_has_no_interface() {
    let dest = Ipv4Addr::new(10, 0, 0, 1);
    assert_eq!(route_interface("", dest, true), None);
    assert_eq!(route_interface("Iface\tDestination\n", dest, true), None);
}

#[test]
fn kernel_addresses_follow_the_byte_order() {
    let field: Vec<char> = "0100007F".chars().collect();
    assert_eq!(hex_addr(&field, true), Some(0x7f00_0001));
    assert_eq!(hex_addr(&field, false), Some(0x0100_007f));
    assert_eq!(hex_addr(&['z'], true), None);
}

#[test]
fn cpuset_lists_are_counted_not_guessed() {
    assert_eq!(count_cpuset("0-3"), 4);
    assert_eq!(count_cpuset("0-3,8"), 5);
    assert_eq!(count_cpuset("2"), 1);
    assert_eq!(count_cpuset(""), 0);
}

#[test]
fn a_backward_range_counts_for_nothing() {
    assert_eq!(count_cpuset("3-0,5"), 1);
    assert_eq!(count_cpuset("a,b-c, 7 "), 1);
    assert_eq!(checked_cpuset("0-1"), Some(2));
}

#[test]
fn ipv6_peers_report_no_route_rather_than_a_wrong_one() {
    let p = peer_mtu("::1".to_owned(), None, None);
    assert_eq!(p.interface, "unknown");
    assert_eq!(p.mtu, None);
}

#[test]
fn an_interface_reports_its_mtu_if_it_is_a_number() {
    let p = peer_mtu("10.0.0.1".into(), Some("eth0".into()), Some("9000".into()));
    assert_eq!(p.mtu, Some(9000));
    let q = peer_mtu("10.0.0.1".into(), Some("eth0".into()), Some("large".into()));
    assert_eq!(q.mtu, None);
    assert_eq!(q.interface, "eth0");
}

fn facts(caps: Option<SocketCaps>, peer: Option<PeerMtu>) -> HostFacts {
    HostFacts {
        kernel: "6.1".into(),
        arch: "x86_64".into(),
        caps,
        udp_gro: true,
        udp_segment: true,
        io_uring_disabled: None,
        cpuset: Some("0-1".into()),
        parallelism: Some(8),
        peer_mtu: peer,
    }
}

#[test]
fn contradicted_assumptions_are_warned_about() {
    let caps = SocketCaps {
        rcvbuf: 100,
        sndbuf: 100,
        gro_segments: 1,
        max_gso_segments: 1,
        may_fragment: false,
        reuse_port: false,
    };
    let peer = peer_mtu("10.0.0.1".into(), Some("eth0".into()), Some("1400".into()));
    let p = probe(facts(Some(caps), Some(peer)));
    assert_eq!(p.warnings.len(), 4);
    assert!(p.warnings[0].contains("MTU 1400 < 1500"), "{:?}", p.warnings);
    assert!(p.warnings[1].contains("GRO"), "{:?}", p.warnings);
    assert!(p.warnings[2].contains("GSO"), "{:?}", p.warnings);
    assert!(p.warnings[3].contains("granted 100 of 8388608"), "{:?}", p.warnings);
    assert_eq!(p.cpus_available, 2, "the cpuset says how many");
    assert_eq!(p.sockbuf_requested, WANT_BUF_BYTES);
    assert_eq!(p.rcvbuf_granted, 100);
}

#[test]
fn a_host_that_meets_every_assumption_is_not_warned() {
    let caps = SocketCaps {
        rcvbuf: WANT_BUF_BYTES,
        sndbuf: WANT_BUF_BYTES,
        gro_segments: 64,
        max_gso_segments: 64,
        may_fragment: false,
        reuse_port: false,
    };
    let peer = peer_mtu("10.0.0.1".into(), Some("eth0".into()), Some("1500".into()));
    assert!(probe(facts(Some(caps), Some(peer))).warnings.is_empty());
    assert!(probe(facts(None, None)).warnings.is_empty());
}

#[test]
fn files_are_read_without_their_white_space() {
    assert_eq!(content(" 0-3\n").as_deref(), Some("0-3"));
    assert_eq!(content("\n \t"), None);
}
