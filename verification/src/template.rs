//! Synthetic inner frames.
//!
//! One template, built once, with the per-flow fields patched in place. The
//! frames are real Ethernet/IPv4/UDP so that a real pipeline parses them.
use crate::bytes::{be16_bytes, be32_bytes, lemma_be16_round_trip, lemma_be32_round_trip};
use crate::headers::{
    inner_ipv4, write_at, written, Ethernet, ETHERTYPE_IPV4, ETH_HDR_LEN, IPV4_MIN_HDR_LEN, IP_PROTO_UDP, MIN_FRAME_LEN,
};
use crate::net::Ipv4Addr;
use crate::value::MacAddr;
use vstd::arithmetic::div_mod::lemma_add_mod_noop;
use vstd::prelude::*;

verus! {

/// UDP header length.
pub const UDP_HDR_LEN: usize = 8;

/// Bytes of Ethernet + IPv4 + UDP header, the smallest frame this builds.
pub const MIN_TEMPLATE_LEN: usize = 42;

/// What the generator puts in each frame.
#[derive(Clone, Copy, Debug, PartialEq, Eq)]
pub struct FrameSpec {
    /// Source MAC.
    pub src_mac: MacAddr,
    /// Destination MAC.
    pub dst_mac: MacAddr,
    /// Source IPv4 address; flows vary its low octets.
    pub src_ip: Ipv4Addr,
    /// Destination IPv4 address.
    pub dst_ip: Ipv4Addr,
    /// UDP source port; flows vary it.
    pub src_port: u16,
    /// UDP destination port.
    pub dst_port: u16,
    /// Total frame length, at least [`MIN_TEMPLATE_LEN`].
    pub len: usize,
}

impl Default for FrameSpec {
    fn default() -> (r: Self)
        ensures
            r.src_mac.spec_octets() == seq![2u8, 0, 0, 0, 0, 1],
            r.dst_mac.spec_octets() == seq![2u8, 0, 0, 0, 0, 2],
            r.src_ip.bits == 0x0a00_0101,
            r.dst_ip.bits == 0x0a00_0201,
            r.src_port == 4000,
            r.dst_port == 4001,
            r.len == 1460,
    {
        let src_mac: MacAddr = MacAddr::new([2, 0, 0, 0, 0, 1]);
        let dst_mac: MacAddr = MacAddr::new([2, 0, 0, 0, 0, 2]);
        proof {
            assert([2u8, 0, 0, 0, 0, 1]@ =~= seq![2u8, 0, 0, 0, 0, 1]);
            assert([2u8, 0, 0, 0, 0, 2]@ =~= seq![2u8, 0, 0, 0, 0, 2]);
        }
        FrameSpec {
            src_mac,
            dst_mac,
            src_ip: Ipv4Addr { bits: 0x0a00_0101 },
            dst_ip: Ipv4Addr { bits: 0x0a00_0201 },
            src_port: 4000,
            dst_port: 4001,
            len: 1460,
        }
    }
}

/// The length that a request is raised to: what a UDP-over-IPv4 frame needs,
/// and Ethernet's floor.
pub open spec fn built_len(len: usize) -> usize {
    if len < MIN_FRAME_LEN {
        MIN_FRAME_LEN
    } else {
        len
    }
}

/// A recognizable payload, so that a corrupted frame is obvious in a capture.
pub open spec fn payload(n: int) -> Seq<u8> {
    Seq::new(n as nat, |i: int| (i % 251) as u8)
}

/// The Ethernet header of a template.
pub open spec fn eth_part(spec: FrameSpec) -> Seq<u8> {
    spec.dst_mac.spec_octets() + spec.src_mac.spec_octets() + be16_bytes(ETHERTYPE_IPV4 as int)
}

/// The IPv4 header of a template `len` bytes long. Its checksum is zero by
/// construction: no inner checksum is ever verified.
pub open spec fn ip_part(spec: FrameSpec, len: int) -> Seq<u8> {
    seq![0x45u8, 0] + be16_bytes((len - ETH_HDR_LEN) % 0x1_0000) + seq![
        0u8,
        0,
        0,
        0,
        64,
        IP_PROTO_UDP,
        0,
        0,
    ] + be32_bytes(spec.src_ip.bits as int) + be32_bytes(spec.dst_ip.bits as int)
}

/// The UDP header of a template `len` bytes long.
pub open spec fn udp_part(spec: FrameSpec, len: int) -> Seq<u8> {
    be16_bytes(spec.src_port as int) + be16_bytes(spec.dst_port as int) + be16_bytes(
        (len - ETH_HDR_LEN - IPV4_MIN_HDR_LEN) % 0x1_0000,
    ) + seq![0u8, 0]
}

/// The frame that a spec describes.
pub open spec fn built(spec: FrameSpec) -> Seq<u8> {
    let len = built_len(spec.len) as int;
    eth_part(spec) + ip_part(spec, len) + udp_part(spec, len) + payload(len - MIN_TEMPLATE_LEN)
}

/// The source address of flow `flow`: its two low octets vary, each by itself.
pub open spec fn flow_ip(ip: Ipv4Addr, flow: u32) -> Seq<u8> {
    let o = be32_bytes(ip.bits as int);
    seq![
        o[0],
        o[1],
        ((o[2] + flow / 0x100 % 0x100) % 0x100) as u8,
        ((o[3] + flow % 0x100) % 0x100) as u8,
    ]
}

/// The source port of flow `flow`.
pub open spec fn flow_port(port: u16, flow: u32) -> int {
    (port + flow % 0x1_0000) % 0x1_0000
}

/// A frame of flow `flow`.
pub open spec fn of_flow(frame: Seq<u8>, spec: FrameSpec, flow: u32) -> Seq<u8> {
    written(
        written(frame, 26, flow_ip(spec.src_ip, flow)),
        34,
        be16_bytes(flow_port(spec.src_port, flow)),
    )
}

fn push_be16(out: &mut Vec<u8>, x: u16)
    ensures
        final(out)@ == old(out)@ + be16_bytes(x as int),
{
    out.push((x / 0x100) as u8);
    out.push((x % 0x100) as u8);
    assert(out@ =~= old(out)@ + be16_bytes(x as int));
}

fn push_be32(out: &mut Vec<u8>, x: u32)
    ensures
        final(out)@ == old(out)@ + be32_bytes(x as int),
{
    out.push((x / 0x100_0000) as u8);
    out.push((x / 0x1_0000 % 0x100) as u8);
    out.push((x / 0x100 % 0x100) as u8);
    out.push((x % 0x100) as u8);
    assert(out@ =~= old(out)@ + be32_bytes(x as int));
}

/// A prebuilt frame whose per-flow fields can be rewritten without rebuilding.
#[derive(Clone, Debug)]
pub struct FrameTemplate {
    bytes: Vec<u8>,
    spec: FrameSpec,
}

impl View for FrameTemplate {
    type V = Seq<u8>;

    closed spec fn view(&self) -> Seq<u8> {
        self.bytes@
    }
}

impl FrameTemplate {
    /// The frame is as long as its spec says, and has room for its headers.
    pub closed spec fn wf(&self) -> bool {
        &&& self.bytes@.len() == self.spec.len
        &&& self.spec.len >= MIN_FRAME_LEN
    }

    /// The spec as built.
    pub closed spec fn spec_spec(&self) -> FrameSpec {
        self.spec
    }

    /// Build the template. The requested length is raised to the minimum a
    /// well-formed UDP-over-IPv4 frame needs, and to Ethernet's floor.
    #[must_use]
    pub fn new(spec: FrameSpec) -> (r: Self)
        ensures
            r.wf(),
            r@ == built(spec),
            r@.len() == built_len(spec.len),
            r.spec_spec() == (FrameSpec { len: built_len(spec.len), ..spec }),
    {
        let len: usize = if spec.len < MIN_FRAME_LEN {
            MIN_FRAME_LEN
        } else {
            spec.len
        };
        let mut bytes: Vec<u8> = Vec::new();
        let dst: [u8; 6] = spec.dst_mac.octets();
        let src: [u8; 6] = spec.src_mac.octets();
        bytes.extend_from_slice(dst.as_slice());
        bytes.extend_from_slice(src.as_slice());
        push_be16(&mut bytes, ETHERTYPE_IPV4);
        assert(bytes@ =~= eth_part(spec));
        let ip_total: usize = len - ETH_HDR_LEN;
        bytes.push(0x45);
        bytes.push(0);
        push_be16(&mut bytes, (ip_total % 0x1_0000) as u16);
        bytes.push(0);
        bytes.push(0);
        bytes.push(0);
        bytes.push(0);
        bytes.push(64);
        bytes.push(IP_PROTO_UDP);
        bytes.push(0);
        bytes.push(0);
        push_be32(&mut bytes, spec.src_ip.bits);
        push_be32(&mut bytes, spec.dst_ip.bits);
        assert(bytes@ =~= eth_part(spec) + ip_part(spec, len as int));
        push_be16(&mut bytes, spec.src_port);
        push_be16(&mut bytes, spec.dst_port);
        push_be16(&mut bytes, ((ip_total - IPV4_MIN_HDR_LEN) % 0x1_0000) as u16);
        bytes.push(0);
        bytes.push(0);
        let ghost head = eth_part(spec) + ip_part(spec, len as int) + udp_part(spec, len as int);
        assert(bytes@ =~= head);
        assert(head.len() == MIN_TEMPLATE_LEN);
        let mut i: usize = 0;
        assert(bytes@ =~= head + payload(0));
        while i < len - MIN_TEMPLATE_LEN
            invariant
                MIN_TEMPLATE_LEN <= len,
                i <= len - MIN_TEMPLATE_LEN,
                bytes@ == head + payload(i as int),
            decreases len - MIN_TEMPLATE_LEN - i,
        {
            bytes.push((i % 251) as u8);
            assert(bytes@ =~= head + payload(i + 1));
            i += 1;
        }
        FrameTemplate { bytes, spec: FrameSpec { len, ..spec } }
    }

    /// The frame.
    #[must_use]
    pub fn bytes(&self) -> (r: &[u8])
        ensures
            r@ == self@,
    {
        self.bytes.as_slice()
    }

    /// The template's length after rounding.
    #[must_use]
    pub fn len(&self) -> (r: usize)
        ensures
            r == self@.len(),
    {
        self.bytes.len()
    }

    /// Always false; a template always has headers.
    #[must_use]
    pub fn is_empty(&self) -> (r: bool)
        requires
            self.wf(),
        ensures
            !r,
            self@.len() > 0,
    {
        false
    }

    /// The spec as built, with the effective length.
    #[must_use]
    pub fn spec(&self) -> (r: FrameSpec)
        ensures
            r == self.spec_spec(),
    {
        self.spec
    }

    /// The frame for flow `flow`, of `flows` total.
    ///
    /// Varying the source address and port is what gives the fabric something
    /// to hash on.
    #[must_use]
    pub fn for_flow(&mut self, flow: u32, flows: u32) -> (r: &[u8])
        requires
            old(self).wf(),
        ensures
            final(self).wf(),
            final(self).spec_spec() == old(self).spec_spec(),
            final(self)@ == (if flows > 1 {
                of_flow(old(self)@, old(self).spec_spec(), flow)
            } else {
                old(self)@
            }),
            final(self)@.len() == old(self)@.len(),
            r@ == final(self)@,
    {
        if flows > 1 {
            let octets: [u8; 4] = self.spec.src_ip.octets();
            let ip: [u8; 4] = [
                octets[0],
                octets[1],
                octets[2].wrapping_add((flow / 0x100 % 0x100) as u8),
                octets[3].wrapping_add((flow % 0x100) as u8),
            ];
            assert(ip@ =~= flow_ip(self.spec.src_ip, flow));
            let port: u16 = self.spec.src_port.wrapping_add((flow % 0x1_0000) as u16);
            let ports: [u8; 2] = [(port / 0x100) as u8, (port % 0x100) as u8];
            assert(ports@ =~= be16_bytes(flow_port(self.spec.src_port, flow)));
            write_at(self.bytes.as_mut_slice(), 26, ip.as_slice());
            write_at(self.bytes.as_mut_slice(), 34, ports.as_slice());
        }
        self.bytes.as_slice()
    }
}

/// Flows vary the source and leave everything else alone: the destination
/// address and port, and the payload, are those of the template.
pub proof fn law_flows_vary_only_the_source(frame: Seq<u8>, spec: FrameSpec, flow: u32, i: int)
    requires
        frame.len() >= MIN_TEMPLATE_LEN,
        0 <= i < frame.len(),
        !(26 <= i < 30),
        !(34 <= i < 36),
    ensures
        of_flow(frame, spec, flow)[i] == frame[i],
        of_flow(frame, spec, flow).len() == frame.len(),
{
}

/// Two neighbouring flows have different source ports, so no two frames of
/// different flows within a run of 65536 are alike.
pub proof fn law_flows_differ(port: u16, a: u32, b: u32)
    requires
        a % 0x1_0000 != b % 0x1_0000,
    ensures
        flow_port(port, a) != flow_port(port, b),
{
}

/// Every field of a built frame reads back, at its place, as what was asked
/// for: Ethernet addresses at 0 and 6, IPv4 addresses at 26 and 30, ports at 34
/// and 36, and the lengths that the frame really has, each with the most
/// significant byte first. The rest of the headers is fixed, and the payload
/// counts up, starting over after 250.
#[verifier::rlimit(40)]
pub proof fn law_built_fields_read_back(spec: FrameSpec, i: int)
    requires
        0 <= i < built(spec).len(),
    ensures
        ({
            let b = built(spec);
            let len = if spec.len < 60 {
                60
            } else {
                spec.len as int
            };
            &&& b.len() == len
            &&& b[0] * 0x100 + b[1] == spec.dst_mac.hi
            &&& b[2] * 0x100_0000 + b[3] * 0x1_0000 + b[4] * 0x100 + b[5] == spec.dst_mac.lo
            &&& b[6] * 0x100 + b[7] == spec.src_mac.hi
            &&& b[8] * 0x100_0000 + b[9] * 0x1_0000 + b[10] * 0x100 + b[11] == spec.src_mac.lo
            &&& b[12] == 0x08 && b[13] == 0x00
            &&& b[14] == 0x45
            &&& b[16] * 0x100 + b[17] == (len - 14) % 0x1_0000
            &&& b[22] == 64
            &&& b[23] == 17
            &&& b[26] * 0x100_0000 + b[27] * 0x1_0000 + b[28] * 0x100 + b[29] == spec.src_ip.bits
            &&& b[30] * 0x100_0000 + b[31] * 0x1_0000 + b[32] * 0x100 + b[33] == spec.dst_ip.bits
            &&& b[34] * 0x100 + b[35] == spec.src_port
            &&& b[36] * 0x100 + b[37] == spec.dst_port
            &&& b[38] * 0x100 + b[39] == (len - 34) % 0x1_0000
            &&& i == 15 || 18 <= i < 22 || i == 24 || i == 25 || i == 40 || i == 41 ==> b[i] == 0
            &&& 42 <= i ==> b[i] == (i - 42) % 251
        }),
{
    lemma_built_layout(spec);
    let b = built(spec);
    let len = built_len(spec.len) as int;
    let (e, p, u) = (eth_part(spec), ip_part(spec, len), udp_part(spec, len));
    lemma_be16_round_trip(spec.dst_mac.hi as int);
    lemma_be32_round_trip(spec.dst_mac.lo as int);
    lemma_be16_round_trip(spec.src_mac.hi as int);
    lemma_be32_round_trip(spec.src_mac.lo as int);
    lemma_be32_round_trip(spec.src_ip.bits as int);
    lemma_be32_round_trip(spec.dst_ip.bits as int);
    lemma_be16_round_trip(spec.src_port as int);
    lemma_be16_round_trip(spec.dst_port as int);
    lemma_be16_round_trip((len - 14) % 0x1_0000);
    lemma_be16_round_trip((len - 34) % 0x1_0000);
    assert(forall|k: int| 0 <= k < 14 ==> b[k] == #[trigger] e[k]);
    assert(forall|k: int| 0 <= k < 20 ==> b[14 + k] == #[trigger] p[k]);
    assert(forall|k: int| 0 <= k < 8 ==> b[34 + k] == #[trigger] u[k]);
    assert(e[12] == 8 && e[13] == 0);
    assert(b[14] == p[0] && b[15] == p[1] && b[18] == p[4] && b[19] == p[5] && b[20] == p[6]
        && b[21] == p[7] && b[22] == p[8] && b[23] == p[9] && b[24] == p[10] && b[25] == p[11]);
    assert(b[16] == p[2] && b[17] == p[3]);
    assert(b[26] == p[12] && b[27] == p[13] && b[28] == p[14] && b[29] == p[15]);
    assert(b[30] == p[16] && b[31] == p[17] && b[32] == p[18] && b[33] == p[19]);
    assert(b[34] == u[0] && b[35] == u[1] && b[36] == u[2] && b[37] == u[3]);
    assert(b[38] == u[4] && b[39] == u[5] && b[40] == u[6] && b[41] == u[7]);
    if 42 <= i {
        assert(b[i] == payload(len - 42)[i - 42]);
    }
}

proof fn lemma_built_layout(spec: FrameSpec)
    ensures
        ({
            let len = built_len(spec.len) as int;
            &&& eth_part(spec).len() == 14
            &&& ip_part(spec, len).len() == 20
            &&& udp_part(spec, len).len() == 8
            &&& built(spec).len() == len
        }),
{
}

/// A built frame is one that the parser understands, and what the parser finds
/// is what was asked for.
#[verifier::rlimit(40)]
pub proof fn law_built_frames_parse(spec: FrameSpec)
    ensures
        ({
            let b = built(spec);
            let eth = Ethernet::parsed(b);
            let ip = inner_ipv4(b);
            &&& eth is Some
            &&& eth->0.dst == spec.dst_mac
            &&& eth->0.src == spec.src_mac
            &&& eth->0.ethertype == 0x0800
            &&& ip is Some
            &&& ip->0.offset == 14
            &&& ip->0.hdr_len == 20
            &&& ip->0.total_len == (b.len() - 14) % 0x1_0000
            &&& ip->0.ttl == 64
            &&& ip->0.protocol == 17
            &&& ip->0.src == spec.src_ip
            &&& ip->0.dst == spec.dst_ip
        }),
{
    lemma_built_layout(spec);
    law_built_fields_read_back(spec, 0);
}

/// The frame of a flow: its source port is the template's plus the flow,
/// modulo 2^16, and each of the two low octets of its source address is the
/// template's plus one byte of the flow, modulo 2^8.
#[verifier::rlimit(40)]
pub proof fn law_flows_count_up(frame: Seq<u8>, spec: FrameSpec, flow: u32)
    requires
        frame.len() >= 42,
    ensures
        ({
            let f = of_flow(frame, spec, flow);
            let ip = spec.src_ip.bits;
            &&& f[34] * 0x100 + f[35] == (spec.src_port + flow) % 0x1_0000
            &&& f[26] == ip / 0x100_0000
            &&& f[27] == ip / 0x1_0000 % 0x100
            &&& f[28] == (ip / 0x100 + flow / 0x100) % 0x100
            &&& f[29] == (ip + flow) % 0x100
        }),
{
    let f = of_flow(frame, spec, flow);
    let ip = flow_ip(spec.src_ip, flow);
    let port = be16_bytes(flow_port(spec.src_port, flow));
    let bits = spec.src_ip.bits as int;
    lemma_be16_round_trip(flow_port(spec.src_port, flow));
    lemma_add_mod_noop(spec.src_port as int, flow as int, 0x1_0000);
    lemma_add_mod_noop(bits / 0x100, flow as int / 0x100, 0x100);
    lemma_add_mod_noop(bits, flow as int, 0x100);
    assert(spec.src_port as int % 0x1_0000 == spec.src_port);
    assert(flow_port(spec.src_port, flow) == (spec.src_port + flow) % 0x1_0000);
    assert(ip[2] == (bits / 0x100 + flow as int / 0x100) % 0x100);
    assert(ip[3] == (bits + flow as int) % 0x100);
    assert(f[26] == ip[0] && f[27] == ip[1] && f[28] == ip[2] && f[29] == ip[3]);
    assert(f[34] == port[0] && f[35] == port[1]);
}

} // verus!
