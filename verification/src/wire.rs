//! Overlay wire format.
//!
//! A segment on the fabric is
//!
//! ```text
//! [ cluster IPv4/UDP (kernel) ][ 12-byte overlay header ][ inner Ethernet frame ]
//! ```
//!
//! Everything here is total: [`decode`] is the single gate through which
//! untrusted fabric bytes become a trusted [`Hdr`], and its refusal set is
//! closed ([`WireError`]).
use crate::bytes::{be16, be16_bytes, be32, be32_bytes, read_be16, read_be32};
use crate::seq::SeqNum;
use crate::text::{dec, push_dec};
use vstd::prelude::*;

verus! {

/// Overlay header length in bytes.
pub const OVERLAY_HDR_LEN: usize = 12;

/// Overlay version carried in the high nibble of byte 0.
pub const VERSION: u8 = 1;

/// Byte 0 as transmitted: version in the high nibble, flags (all zero in
/// version 1) in the low nibble.
pub const VER_FLAGS: u8 = 16;

/// Largest inner Ethernet frame on an IPv4 fabric with a 1500 B path MTU.
pub const INNER_MTU_V4: usize = 1460;

/// Largest inner Ethernet frame on an IPv6 fabric with a 1500 B path MTU.
pub const INNER_MTU_V6: usize = 1440;

/// Reserved vport id: frames whose egress port is this are punted to the
/// control channel. It is *not* a legal configured vport id.
pub const PUNT_VPORT: u16 = 65535;

/// Size of one fabric segment carrying an inner frame of `inner_len` bytes.
#[must_use]
pub fn segment_len(inner_len: usize) -> (r: usize)
    requires
        inner_len + OVERLAY_HDR_LEN <= usize::MAX,
    ensures
        r == OVERLAY_HDR_LEN + inner_len,
{
    OVERLAY_HDR_LEN + inner_len
}

/// A decoded overlay header.
///
/// Version and flags are not fields: version 1 has exactly one legal value for
/// each, so they are constants of the codec and illegal ones die in
/// [`decode`].
#[derive(Clone, Copy, Debug, PartialEq, Eq, Structural)]
pub struct Hdr {
    /// Sender-side vport id. Tracing only; the receiver derives ingress from
    /// the source tuple, never from this field.
    pub ingress_vport: u16,
    /// Per-(sender, vport) counter, monotonically increasing modulo 2^32.
    pub seq: SeqNum,
    /// Sender monotonic-clock microseconds, truncated to 32 bits.
    pub ts_us: u32,
}

impl Default for Hdr {
    fn default() -> (r: Self)
        ensures
            r.ingress_vport == 0,
            r.seq@ == 0,
            r.ts_us == 0,
    {
        Hdr { ingress_vport: 0, seq: SeqNum::new(0), ts_us: 0 }
    }
}

/// The closed set of reasons a buffer is not a version 1 overlay segment.
#[derive(Clone, Copy, Debug, PartialEq, Eq, Structural)]
pub enum WireError {
    /// Fewer than [`OVERLAY_HDR_LEN`] bytes were available.
    ShortBuffer,
    /// The version nibble was not [`VERSION`]; the observed value is carried.
    BadVersion(u8),
}

impl WireError {
    /// What the error says.
    pub open spec fn spec_message(self) -> Seq<char> {
        match self {
            WireError::ShortBuffer => "segment shorter than 12-byte overlay header"@,
            WireError::BadVersion(v) => "unsupported overlay version "@ + dec(v as int)
                + " (expected 1)"@,
        }
    }

    /// What the error says, for a log line.
    pub fn message(&self) -> (r: String)
        ensures
            r@ == self.spec_message(),
    {
        match *self {
            WireError::ShortBuffer => "segment shorter than 12-byte overlay header".to_owned(),
            WireError::BadVersion(v) => {
                let mut out: String = "unsupported overlay version ".to_owned();
                push_dec(&mut out, v as u64);
                out.append(" (expected 1)");
                out
            },
        }
    }
}

/// The twelve bytes of a header with these fields.
pub open spec fn header_of(ingress_vport: int, seq: int, ts_us: int) -> Seq<u8> {
    seq![VER_FLAGS, 0u8] + be16_bytes(ingress_vport) + be32_bytes(seq) + be32_bytes(ts_us)
}

/// The twelve bytes of a header.
pub open spec fn header_bytes(hdr: Hdr) -> Seq<u8> {
    header_of(hdr.ingress_vport as int, hdr.seq@, hdr.ts_us as int)
}

/// Serialize `hdr` into a fixed 12-byte buffer.
pub fn encode(hdr: &Hdr, out: &mut [u8; 12])
    ensures
        final(out)@ == header_bytes(*hdr),
{
    let v: u16 = hdr.ingress_vport;
    let s: u32 = hdr.seq.get();
    let t: u32 = hdr.ts_us;
    *out = [
        VER_FLAGS,
        0,
        (v / 0x100) as u8,
        (v % 0x100) as u8,
        (s / 0x100_0000) as u8,
        (s / 0x1_0000 % 0x100) as u8,
        (s / 0x100 % 0x100) as u8,
        (s % 0x100) as u8,
        (t / 0x100_0000) as u8,
        (t / 0x1_0000 % 0x100) as u8,
        (t / 0x100 % 0x100) as u8,
        (t % 0x100) as u8,
    ];
    assert(out@ == header_bytes(*hdr));
}

/// What a header at the start of `buf` says, field by field.
pub open spec fn spells(buf: Seq<u8>, hdr: Hdr) -> bool {
    &&& hdr.ingress_vport == be16(buf, 2)
    &&& hdr.seq@ == be32(buf, 4)
    &&& hdr.ts_us == be32(buf, 8)
}

/// Parse the overlay header at the start of `buf`.
///
/// The only gate between fabric bytes and a trusted [`Hdr`]. The reserved byte
/// and the flag nibble are ignored by contract (the sender must send zero), so
/// they are not part of the refusal set.
pub fn decode(buf: &[u8]) -> (r: Result<Hdr, WireError>)
    ensures
        buf@.len() < OVERLAY_HDR_LEN ==> r == Err::<Hdr, WireError>(WireError::ShortBuffer),
        buf@.len() >= OVERLAY_HDR_LEN && buf@[0] / 16 != VERSION ==> r == Err::<Hdr, WireError>(
            WireError::BadVersion((buf@[0] / 16) as u8),
        ),
        buf@.len() >= OVERLAY_HDR_LEN && buf@[0] / 16 == VERSION ==> r is Ok && spells(
            buf@,
            r->Ok_0,
        ),
{
    if buf.len() < OVERLAY_HDR_LEN {
        return Err(WireError::ShortBuffer);
    }
    let version: u8 = buf[0] / 16;
    if version != VERSION {
        return Err(WireError::BadVersion(version));
    }
    Ok(
        Hdr {
            ingress_vport: read_be16(buf, 2),
            seq: SeqNum::new(read_be32(buf, 4)),
            ts_us: read_be32(buf, 8),
        },
    )
}

/// A header survives the wire: whatever payload follows, the bytes of `hdr`
/// decode (see [`decode`]) to `hdr` and to nothing else.
pub proof fn law_round_trip(hdr: Hdr, payload: Seq<u8>, back: Hdr)
    requires
        spells(header_bytes(hdr) + payload, back),
    ensures
        (header_bytes(hdr) + payload).len() >= OVERLAY_HDR_LEN,
        (header_bytes(hdr) + payload)[0] / 16 == VERSION,
        back == hdr,
{
    let buf = header_bytes(hdr) + payload;
    assert(buf.subrange(2, 4) == be16_bytes(hdr.ingress_vport as int));
    assert(buf.subrange(4, 8) == be32_bytes(hdr.seq@));
    assert(buf.subrange(8, 12) == be32_bytes(hdr.ts_us as int));
    SeqNum::lemma_range(hdr.seq, back.seq);
    crate::bytes::lemma_be16_round_trip(hdr.ingress_vport as int);
    crate::bytes::lemma_be32_round_trip(hdr.seq@);
    crate::bytes::lemma_be32_round_trip(hdr.ts_us as int);
    assert(be16(buf, 2) == be16(be16_bytes(hdr.ingress_vport as int), 0));
    assert(be32(buf, 4) == be32(be32_bytes(hdr.seq@), 0));
    assert(be32(buf, 8) == be32(be32_bytes(hdr.ts_us as int), 0));
}

/// The flag nibble and the reserved byte are ignored: two buffers that differ
/// in nothing else spell the same headers.
pub proof fn law_ignores_flags_and_reserved(buf: Seq<u8>, flags: u8, reserved: u8, hdr: Hdr)
    requires
        buf.len() >= OVERLAY_HDR_LEN,
        flags / 16 == buf[0] / 16,
    ensures
        spells(buf, hdr) == spells(buf.update(0, flags).update(1, reserved), hdr),
        buf.update(0, flags).update(1, reserved)[0] / 16 == buf[0] / 16,
{
}

/// The layout of a header on the wire: version 1 in the upper half of the
/// first byte and no flags below it, a zero byte, then the vport in two bytes,
/// the number in four and the time in four, most significant byte first.
pub proof fn law_header_layout(hdr: Hdr)
    ensures
        ({
            let b = header_bytes(hdr);
            &&& b.len() == 12
            &&& b[0] == 0x10
            &&& b[1] == 0
            &&& b[2] * 0x100 + b[3] == hdr.ingress_vport
            &&& b[4] * 0x100_0000 + b[5] * 0x1_0000 + b[6] * 0x100 + b[7] == hdr.seq@
            &&& b[8] * 0x100_0000 + b[9] * 0x1_0000 + b[10] * 0x100 + b[11] == hdr.ts_us
        }),
{
    SeqNum::lemma_range(hdr.seq, hdr.seq);
    crate::bytes::lemma_be16_round_trip(hdr.ingress_vport as int);
    crate::bytes::lemma_be32_round_trip(hdr.seq@);
    crate::bytes::lemma_be32_round_trip(hdr.ts_us as int);
    let b = header_bytes(hdr);
    let (v, n, t) = (
        be16_bytes(hdr.ingress_vport as int),
        be32_bytes(hdr.seq@),
        be32_bytes(hdr.ts_us as int),
    );
    assert(b[2] == v[0] && b[3] == v[1]);
    assert(b[4] == n[0] && b[5] == n[1] && b[6] == n[2] && b[7] == n[3]);
    assert(b[8] == t[0] && b[9] == t[1] && b[10] == t[2] && b[11] == t[3]);
}

/// What a received header says, byte by byte.
pub proof fn law_headers_are_read_big_endian(buf: Seq<u8>, hdr: Hdr)
    requires
        buf.len() >= 12,
        spells(buf, hdr),
    ensures
        hdr.ingress_vport == buf[2] * 0x100 + buf[3],
        hdr.seq@ == buf[4] * 0x100_0000 + buf[5] * 0x1_0000 + buf[6] * 0x100 + buf[7],
        hdr.ts_us == buf[8] * 0x100_0000 + buf[9] * 0x1_0000 + buf[10] * 0x100 + buf[11],
{
}

} // verus!
