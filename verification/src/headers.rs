//! Header parsing and deparsing.
//!
//! * **Validity is `Option`.** A header is either extracted or it is not; a
//!   truncated packet yields `None` and the program's control block decides
//!   what that means. It is never a panic and never a partially filled struct.
//! * **Views, not copies.** Each parsed header remembers its offset, so
//!   modification writes back into the frame in place.
use crate::bytes::{be16, be32, read_be16, read_be32};
use crate::net::Ipv4Addr;
use crate::value::MacAddr;
use vstd::prelude::*;

verus! {

/// Ethernet II header length.
pub const ETH_HDR_LEN: usize = 14;

/// Minimum legal IPv4 header length.
pub const IPV4_MIN_HDR_LEN: usize = 20;

/// Smallest Ethernet frame, without its frame check sequence.
pub const MIN_FRAME_LEN: usize = 60;

/// EtherType for IPv4.
pub const ETHERTYPE_IPV4: u16 = 0x0800;

/// IP protocol number for TCP.
pub const IP_PROTO_TCP: u8 = 6;

/// IP protocol number for UDP.
pub const IP_PROTO_UDP: u8 = 17;

/// An extracted Ethernet header, always at offset 0.
#[derive(Clone, Copy, Debug, PartialEq, Eq, Structural)]
pub struct Ethernet {
    /// Destination address.
    pub dst: MacAddr,
    /// Source address.
    pub src: MacAddr,
    /// EtherType / length field.
    pub ethertype: u16,
}

/// The Ethernet address whose six octets stand at `at`.
pub open spec fn mac_at(s: Seq<u8>, at: int) -> MacAddr {
    MacAddr { hi: be16(s, at) as u16, lo: be32(s, at + 2) as u32 }
}

/// `s` with `b` written over it from `at` on.
pub open spec fn written(s: Seq<u8>, at: int, b: Seq<u8>) -> Seq<u8> {
    Seq::new(
        s.len(),
        |i: int|
            if at <= i < at + b.len() {
                b[i - at]
            } else {
                s[i]
            },
    )
}

/// Write `b` over `s` from `at` on.
pub fn write_at(s: &mut [u8], at: usize, b: &[u8])
    requires
        at + b@.len() <= old(s)@.len(),
    ensures
        final(s)@ == written(old(s)@, at as int, b@),
{
    let ghost before = s@;
    let mut i: usize = 0;
    while i < b.len()
        invariant
            i <= b@.len(),
            at + b@.len() <= s@.len(),
            s@ == written(before, at as int, b@.subrange(0, i as int)),
        decreases b.len() - i,
    {
        assert(s.len() <= usize::MAX);
        s[at + i] = b[i];
        i += 1;
        assert(s@ == written(before, at as int, b@.subrange(0, i as int)));
    }
    assert(b@.subrange(0, i as int) == b@);
}

impl Ethernet {
    /// The header at the start of `frame`, where the frame holds one.
    pub open spec fn parsed(frame: Seq<u8>) -> Option<Ethernet> {
        if frame.len() >= ETH_HDR_LEN {
            Some(
                Ethernet {
                    dst: mac_at(frame, 0),
                    src: mac_at(frame, 6),
                    ethertype: be16(frame, 12) as u16,
                },
            )
        } else {
            None
        }
    }

    /// Extract the header, or `None` if the frame is truncated.
    #[must_use]
    pub fn parse(frame: &[u8]) -> (r: Option<Self>)
        ensures
            r == Ethernet::parsed(frame@),
    {
        if frame.len() < ETH_HDR_LEN {
            return None;
        }
        Some(
            Ethernet {
                dst: MacAddr { hi: read_be16(frame, 0), lo: read_be32(frame, 2) },
                src: MacAddr { hi: read_be16(frame, 6), lo: read_be32(frame, 8) },
                ethertype: read_be16(frame, 12),
            },
        )
    }

    /// `frame` with its destination address replaced, where it holds a header.
    pub open spec fn with_dst(frame: Seq<u8>, mac: MacAddr) -> Seq<u8> {
        if frame.len() >= ETH_HDR_LEN {
            written(frame, 0, mac.spec_octets())
        } else {
            frame
        }
    }

    /// `frame` with its source address replaced, where it holds a header.
    pub open spec fn with_src(frame: Seq<u8>, mac: MacAddr) -> Seq<u8> {
        if frame.len() >= ETH_HDR_LEN {
            written(frame, 6, mac.spec_octets())
        } else {
            frame
        }
    }

    /// Overwrite the destination address in place.
    pub fn set_dst(frame: &mut [u8], mac: MacAddr)
        ensures
            final(frame)@ == Ethernet::with_dst(old(frame)@, mac),
    {
        if frame.len() >= ETH_HDR_LEN {
            let octets: [u8; 6] = mac.octets();
            write_at(frame, 0, octets.as_slice());
        }
    }

    /// Overwrite the source address in place.
    pub fn set_src(frame: &mut [u8], mac: MacAddr)
        ensures
            final(frame)@ == Ethernet::with_src(old(frame)@, mac),
    {
        if frame.len() >= ETH_HDR_LEN {
            let octets: [u8; 6] = mac.octets();
            write_at(frame, 6, octets.as_slice());
        }
    }
}

/// An extracted IPv4 header and where it sits in the frame.
#[derive(Clone, Copy, Debug, PartialEq, Eq, Structural)]
pub struct Ipv4 {
    /// Offset of the header within the frame.
    pub offset: usize,
    /// Header length in bytes, at least [`IPV4_MIN_HDR_LEN`].
    pub hdr_len: usize,
    /// Total length field, as sent.
    pub total_len: u16,
    /// Time to live, as sent.
    pub ttl: u8,
    /// Transport protocol number.
    pub protocol: u8,
    /// Source address.
    pub src: Ipv4Addr,
    /// Destination address.
    pub dst: Ipv4Addr,
}

impl Ipv4 {
    /// The header length that the first byte claims.
    pub open spec fn claimed_len(first: u8) -> int {
        (first % 16) * 4
    }

    /// The header at `offset`, where the frame holds a whole one: version 4,
    /// and a header length between the minimum and what the frame holds.
    pub open spec fn parsed(frame: Seq<u8>, offset: int) -> Option<Ipv4> {
        if offset + IPV4_MIN_HDR_LEN <= frame.len() && frame[offset] / 16 == 4
            && IPV4_MIN_HDR_LEN <= Ipv4::claimed_len(frame[offset]) <= frame.len() - offset {
            Some(
                Ipv4 {
                    offset: offset as usize,
                    hdr_len: Ipv4::claimed_len(frame[offset]) as usize,
                    total_len: be16(frame, offset + 2) as u16,
                    ttl: frame[offset + 8],
                    protocol: frame[offset + 9],
                    src: Ipv4Addr { bits: be32(frame, offset + 12) as u32 },
                    dst: Ipv4Addr { bits: be32(frame, offset + 16) as u32 },
                },
            )
        } else {
            None
        }
    }

    /// Extract an IPv4 header at `offset`.
    ///
    /// Refuses a truncated header, a version other than 4, and a length that
    /// claims more bytes than the frame holds, so `offset + hdr_len` is a
    /// valid index range for every value this returns.
    #[must_use]
    pub fn parse(frame: &[u8], offset: usize) -> (r: Option<Self>)
        ensures
            r == Ipv4::parsed(frame@, offset as int),
            r matches Some(ip) ==> ip.offset + ip.hdr_len <= frame@.len(),
    {
        if offset > frame.len() || frame.len() - offset < IPV4_MIN_HDR_LEN {
            return None;
        }
        let first: u8 = frame[offset];
        if first / 16 != 4 {
            return None;
        }
        let hdr_len: usize = (first % 16) as usize * 4;
        if hdr_len < IPV4_MIN_HDR_LEN || hdr_len > frame.len() - offset {
            return None;
        }
        Some(
            Ipv4 {
                offset,
                hdr_len,
                total_len: read_be16(frame, offset + 2),
                ttl: frame[offset + 8],
                protocol: frame[offset + 9],
                src: Ipv4Addr { bits: read_be32(frame, offset + 12) },
                dst: Ipv4Addr { bits: read_be32(frame, offset + 16) },
            },
        )
    }

    /// Offset of the transport header, given this header's extent.
    #[must_use]
    pub fn payload_offset(&self) -> (r: usize)
        requires
            self.offset + self.hdr_len <= usize::MAX,
        ensures
            r == self.offset + self.hdr_len,
    {
        self.offset + self.hdr_len
    }

    /// Write a new TTL in place, where the frame holds the byte.
    pub fn set_ttl(&self, frame: &mut [u8], ttl: u8)
        requires
            self.offset + 8 <= usize::MAX,
        ensures
            final(frame)@ == (if self.offset + 8 < old(frame)@.len() {
                old(frame)@.update(self.offset + 8, ttl)
            } else {
                old(frame)@
            }),
    {
        let at: usize = self.offset + 8;
        if at < frame.len() {
            frame[at] = ttl;
        }
    }
}

/// `s` with the 16-bit field at `at` zeroed, where `s` holds it.
pub open spec fn zeroed(s: Seq<u8>, at: int) -> Seq<u8> {
    if 0 <= at && at + 2 <= s.len() {
        s.update(at, 0u8).update(at + 1, 0u8)
    } else {
        s
    }
}

/// Where the transport checksum of the packet `ip` stands, for the protocols
/// that the switch knows.
pub open spec fn l4_checksum_at(ip: Ipv4) -> Option<int> {
    if ip.protocol == IP_PROTO_TCP {
        Some(ip.offset + ip.hdr_len + 16)
    } else if ip.protocol == IP_PROTO_UDP {
        Some(ip.offset + ip.hdr_len + 6)
    } else {
        None
    }
}

/// The IPv4 header behind an Ethernet header that announces one.
pub open spec fn inner_ipv4(frame: Seq<u8>) -> Option<Ipv4> {
    match Ethernet::parsed(frame) {
        Some(eth) if eth.ethertype == ETHERTYPE_IPV4 => Ipv4::parsed(frame, ETH_HDR_LEN as int),
        _ => None,
    }
}

/// `frame` with every inner checksum it carries zeroed: the one of the IPv4
/// header and that of TCP or UDP behind it.
pub open spec fn without_checksums(frame: Seq<u8>) -> Seq<u8> {
    match inner_ipv4(frame) {
        None => frame,
        Some(ip) => {
            let s = zeroed(frame, ETH_HDR_LEN + 10);
            match l4_checksum_at(ip) {
                Some(at) => zeroed(s, at),
                None => s,
            }
        },
    }
}

/// Zero every inner checksum the frame carries.
///
/// The switch never computes or verifies an inner checksum; the outer UDP
/// checksum covers integrity on the fabric. Whenever a pipeline may have
/// touched a header, the containing checksum fields are zero-filled so that a
/// stale checksum is never mistaken for a valid one.
pub fn zero_inner_checksums(frame: &mut [u8])
    ensures
        final(frame)@ == without_checksums(old(frame)@),
{
    let eth: Ethernet = match Ethernet::parse(&*frame) {
        Some(eth) => eth,
        None => {
            return;
        },
    };
    if eth.ethertype != ETHERTYPE_IPV4 {
        return;
    }
    let ip: Ipv4 = match Ipv4::parse(&*frame, ETH_HDR_LEN) {
        Some(ip) => ip,
        None => {
            return;
        },
    };
    zero_at(frame, ip.offset + 10);
    let l4: usize = ip.payload_offset();
    if ip.protocol == IP_PROTO_TCP {
        if l4 <= frame.len() && frame.len() - l4 >= 18 {
            zero_at(frame, l4 + 16);
        }
    } else if ip.protocol == IP_PROTO_UDP {
        if l4 <= frame.len() && frame.len() - l4 >= 8 {
            zero_at(frame, l4 + 6);
        }
    }
}

/// Zero the 16-bit field at `at`, if the frame is long enough to hold it.
fn zero_at(frame: &mut [u8], at: usize)
    ensures
        final(frame)@ == zeroed(old(frame)@, at as int),
{
    if at < frame.len() && frame.len() - at >= 2 {
        frame[at] = 0;
        frame[at + 1] = 0;
    }
}

/// Masking touches only the checksums: every byte outside the two fields keeps
/// its value, and no byte is gained or lost.
pub proof fn law_masking_touches_only_checksums(frame: Seq<u8>, i: int)
    requires
        0 <= i < frame.len(),
    ensures
        without_checksums(frame).len() == frame.len(),
        without_checksums(frame)[i] != frame[i] ==> inner_ipv4(frame) is Some && (ETH_HDR_LEN + 10
            <= i < ETH_HDR_LEN + 12 || (l4_checksum_at(inner_ipv4(frame)->0) is Some
            && l4_checksum_at(inner_ipv4(frame)->0)->0 <= i < l4_checksum_at(
            inner_ipv4(frame)->0,
        )->0 + 2)),
{
}

/// Masking is idempotent and hides nothing from the parser: the masked frame
/// parses to the same headers, and masking it again changes nothing.
pub proof fn law_masking_is_idempotent(frame: Seq<u8>)
    ensures
        Ethernet::parsed(without_checksums(frame)) == Ethernet::parsed(frame),
        inner_ipv4(without_checksums(frame)) == inner_ipv4(frame),
        without_checksums(without_checksums(frame)) == without_checksums(frame),
{
    let masked = without_checksums(frame);
    assert(without_checksums(masked) =~= masked);
}

/// The first fourteen bytes of a frame are its Ethernet header: destination,
/// source, type, most significant byte first. A shorter frame has none.
pub proof fn law_ethernet_fields(frame: Seq<u8>)
    ensures
        Ethernet::parsed(frame) is Some <==> frame.len() >= 14,
        Ethernet::parsed(frame) matches Some(eth) ==> {
            &&& eth.dst.hi == frame[0] * 0x100 + frame[1]
            &&& eth.dst.lo == frame[2] * 0x100_0000 + frame[3] * 0x1_0000 + frame[4] * 0x100
                + frame[5]
            &&& eth.src.hi == frame[6] * 0x100 + frame[7]
            &&& eth.src.lo == frame[8] * 0x100_0000 + frame[9] * 0x1_0000 + frame[10] * 0x100
                + frame[11]
            &&& eth.ethertype == frame[12] * 0x100 + frame[13]
        },
{
}

/// A header is IPv4 where its version says so and where the length it claims,
/// at least twenty bytes, is there. Its fields stand at fixed offsets.
pub proof fn law_ipv4_fields(frame: Seq<u8>, at: int)
    requires
        0 <= at,
        frame.len() <= usize::MAX,
    ensures
        Ipv4::parsed(frame, at) is Some <==> at + 20 <= frame.len() && frame[at] / 16 == 4
            && frame[at] % 16 >= 5 && at + (frame[at] % 16) * 4 <= frame.len(),
        Ipv4::parsed(frame, at) matches Some(ip) ==> {
            &&& ip.offset == at
            &&& ip.hdr_len == (frame[at] % 16) * 4
            &&& ip.total_len == frame[at + 2] * 0x100 + frame[at + 3]
            &&& ip.ttl == frame[at + 8]
            &&& ip.protocol == frame[at + 9]
            &&& ip.src.bits == frame[at + 12] * 0x100_0000 + frame[at + 13] * 0x1_0000
                + frame[at + 14] * 0x100 + frame[at + 15]
            &&& ip.dst.bits == frame[at + 16] * 0x100_0000 + frame[at + 17] * 0x1_0000
                + frame[at + 18] * 0x100 + frame[at + 19]
        },
{
}

/// Replacing an address replaces its six bytes: the destination's are the
/// first six, the source's the next.
pub proof fn law_addresses_are_replaced_in_place(frame: Seq<u8>, mac: MacAddr, i: int)
    requires
        frame.len() >= 14,
        0 <= i < frame.len(),
    ensures
        ({
            let d = Ethernet::with_dst(frame, mac);
            let s = Ethernet::with_src(frame, mac);
            &&& d.len() == frame.len() && s.len() == frame.len()
            &&& d[0] * 0x100 + d[1] == mac.hi
            &&& d[2] * 0x100_0000 + d[3] * 0x1_0000 + d[4] * 0x100 + d[5] == mac.lo
            &&& s[6] * 0x100 + s[7] == mac.hi
            &&& s[8] * 0x100_0000 + s[9] * 0x1_0000 + s[10] * 0x100 + s[11] == mac.lo
            &&& 6 <= i ==> d[i] == frame[i]
            &&& i < 6 || 12 <= i ==> s[i] == frame[i]
        }),
{
    let o = mac.spec_octets();
    crate::bytes::lemma_be16_round_trip(mac.hi as int);
    crate::bytes::lemma_be32_round_trip(mac.lo as int);
    let d = Ethernet::with_dst(frame, mac);
    let s = Ethernet::with_src(frame, mac);
    assert(forall|k: int| 0 <= k < 6 ==> d[k] == #[trigger] o[k]);
    assert(forall|k: int| 0 <= k < 6 ==> s[6 + k] == #[trigger] o[k]);
    assert(s[6] == o[0] && s[7] == o[1] && s[8] == o[2] && s[9] == o[3] && s[10] == o[4] && s[11]
        == o[5]);
}

/// Masking clears the checksum of the IPv4 header, that of TCP sixteen bytes
/// behind it and that of UDP six bytes behind it, where the frame holds them,
/// and no other byte. A frame that is not IPv4 is left alone.
#[verifier::rlimit(40)]
pub proof fn law_masking_clears_the_checksums(frame: Seq<u8>, i: int)
    requires
        0 <= i < frame.len(),
    ensures
        ({
            let out = without_checksums(frame);
            let l4 = 14 + (frame[14] % 16) * 4;
            let ipv4 = frame.len() >= 34 && frame[12] == 0x08 && frame[13] == 0x00 && frame[14] / 16
                == 4 && frame[14] % 16 >= 5 && l4 <= frame.len();
            let tcp = ipv4 && frame[23] == 6 && l4 + 18 <= frame.len() && l4 + 16 <= i < l4 + 18;
            let udp = ipv4 && frame[23] == 17 && l4 + 8 <= frame.len() && l4 + 6 <= i < l4 + 8;
            let cleared = ipv4 && 24 <= i < 26 || tcp || udp;
            &&& out.len() == frame.len()
            &&& out[i] == (if cleared {
                0
            } else {
                frame[i]
            })
        }),
{
}

} // verus!
