use up4::headers::{
    zero_inner_checksums, Ethernet, Ipv4, ETHERTYPE_IPV4, ETH_HDR_LEN, IPV4_MIN_HDR_LEN,
    IP_PROTO_TCP, IP_PROTO_UDP,
};
use up4::net::Ipv4Addr;
use up4::value::MacAddr;

/// eth(dst=aa..01, src=aa..02, ipv4) + ipv4(ttl=64, proto) + 8 payload bytes.
fn frame(proto: u8) -> Vec<u8> {
    let mut f = vec![0u8; ETH_HDR_LEN + IPV4_MIN_HDR_LEN + 8];
    f[0..6].copy_from_slice(&[0xaa, 0, 0, 0, 0, 0x01]);
    f[6..12].copy_from_slice(&[0xaa, 0, 0, 0, 0, 0x02]);
    f[12..14].copy_from_slice(&ETHERTYPE_IPV4.to_be_bytes());
    f[14] = 0x45;
    f[16..18].copy_from_slice(&28u16.to_be_bytes());
    f[22] = 64;
    f[23] = proto;
    f[24..26].copy_from_slice(&[0xde, 0xad]); // IPv4 header checksum
    f[26..30].copy_from_slice(&[10, 0, 0, 1]);
    f[30..34].copy_from_slice(&[10, 0, 1, 1]);
    f
}

#[test]
fn parses_ethernet_and_ipv4() {
    let f = frame(IP_PROTO_UDP);
    let eth = Ethernet::parse(&f).expect("full header");
    assert_eq!(eth.ethertype, ETHERTYPE_IPV4);
    assert_eq!(eth.dst.to_text(), "aa:00:00:00:00:01");
    let ip = Ipv4::parse(&f, ETH_HDR_LEN).expect("full header");
    assert_eq!((ip.ttl, ip.protocol, ip.hdr_len), (64, IP_PROTO_UDP, 20));
    assert_eq!(ip.dst, Ipv4Addr::new(10, 0, 1, 1));
    assert_eq!(ip.payload_offset(), 34);
}

#[test]
fn truncation_is_absence_not_a_panic() {
    let f = frame(IP_PROTO_UDP);
    for len in 0..ETH_HDR_LEN {
        assert_eq!(Ethernet::parse(&f[..len]), None, "len {len}");
    }
    for len in ETH_HDR_LEN..ETH_HDR_LEN + IPV4_MIN_HDR_LEN {
        assert_eq!(Ipv4::parse(&f[..len], ETH_HDR_LEN), None, "len {len}");
    }
}

#[test]
fn rejects_bad_version_and_lying_ihl() {
    let mut f = frame(IP_PROTO_UDP);
    f[14] = 0x65; // version 6
    assert_eq!(Ipv4::parse(&f, ETH_HDR_LEN), None);
    f[14] = 0x43; // ihl 3 -> 12 bytes, below the minimum
    assert_eq!(Ipv4::parse(&f, ETH_HDR_LEN), None);
    f[14] = 0x4f; // ihl 15 -> 60 bytes, past the end of this frame
    assert_eq!(Ipv4::parse(&f, ETH_HDR_LEN), None);
}

#[test]
fn ttl_and_macs_are_written_in_place() {
    let mut f = frame(IP_PROTO_UDP);
    let ip = Ipv4::parse(&f, ETH_HDR_LEN).expect("full header");
    ip.set_ttl(&mut f, 63);
    Ethernet::set_dst(&mut f, MacAddr::parse("bb:bb:bb:bb:bb:bb").expect("literal"));
    Ethernet::set_src(&mut f, MacAddr::parse("cc:cc:cc:cc:cc:cc").expect("literal"));
    let re = Ipv4::parse(&f, ETH_HDR_LEN).expect("still parses");
    assert_eq!(re.ttl, 63);
    let eth = Ethernet::parse(&f).expect("still parses");
    assert_eq!(eth.dst.to_text(), "bb:bb:bb:bb:bb:bb");
    assert_eq!(eth.src.to_text(), "cc:cc:cc:cc:cc:cc");
}

#[test]
fn zeroes_ipv4_and_udp_checksums() {
    let mut f = frame(IP_PROTO_UDP);
    f[40..42].copy_from_slice(&[0xbe, 0xef]); // UDP checksum at l4 + 6
    zero_inner_checksums(&mut f);
    assert_eq!(&f[24..26], &[0, 0], "ipv4 header checksum");
    assert_eq!(&f[40..42], &[0, 0], "udp checksum");
}

#[test]
fn zeroes_tcp_checksum() {
    let mut f = frame(IP_PROTO_TCP);
    f.resize(ETH_HDR_LEN + IPV4_MIN_HDR_LEN + 20, 0);
    f[50..52].copy_from_slice(&[0xbe, 0xef]); // TCP checksum at l4 + 16
    zero_inner_checksums(&mut f);
    assert_eq!(&f[50..52], &[0, 0]);
}

#[test]
fn leaves_non_ip_and_truncated_frames_untouched() {
    let mut arp = vec![0xaa; ETH_HDR_LEN + 8];
    arp[12..14].copy_from_slice(&0x0806u16.to_be_bytes());
    let before = arp.clone();
    zero_inner_checksums(&mut arp);
    assert_eq!(arp, before);

    let mut short = frame(IP_PROTO_UDP);
    short.truncate(ETH_HDR_LEN + 4);
    let before = short.clone();
    zero_inner_checksums(&mut short);
    assert_eq!(short, before, "a truncated IPv4 header is not zeroed blind");
}

#[test]
fn truncated_l4_does_not_reach_past_the_frame() {
    let mut f = frame(IP_PROTO_TCP); // 8 payload bytes; TCP checksum is at +16
    zero_inner_checksums(&mut f);
    assert_eq!(&f[24..26], &[0, 0], "ipv4 checksum still zeroed");
    assert_eq!(f.len(), ETH_HDR_LEN + IPV4_MIN_HDR_LEN + 8);
}

#[test]
fn masking_twice_is_masking_once() {
    let mut f = frame(IP_PROTO_UDP);
    f[40..42].copy_from_slice(&[0xbe, 0xef]);
    zero_inner_checksums(&mut f);
    let once = f.clone();
    zero_inner_checksums(&mut f);
    assert_eq!(f, once);
}
