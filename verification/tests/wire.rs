use up4::seq::SeqNum;
use up4::wire::{decode, encode, segment_len, Hdr, WireError, OVERLAY_HDR_LEN, VERSION};

/// Deterministic xorshift64*, so the property test is reproducible.
struct XorShift(u64);

impl XorShift {
    fn next(&mut self) -> u64 {
        let mut x = self.0;
        x ^= x >> 12;
        x ^= x << 25;
        x ^= x >> 27;
        self.0 = x;
        x.wrapping_mul(0x2545_f491_4f6c_dd1d)
    }
}

#[test]
fn round_trip_property() {
    let mut rng = XorShift(0x9e37_79b9_7f4a_7c15);
    let mut buf = [0u8; OVERLAY_HDR_LEN];
    for _ in 0..1_000_000 {
        let r = rng.next();
        let hdr = Hdr {
            ingress_vport: r as u16,
            seq: SeqNum::new((r >> 16) as u32),
            ts_us: (r >> 32) as u32,
        };
        encode(&hdr, &mut buf);
        assert_eq!(decode(&buf), Ok(hdr));
    }
}

#[test]
fn encode_is_big_endian_at_documented_offsets() {
    let mut buf = [0xffu8; OVERLAY_HDR_LEN];
    encode(
        &Hdr {
            ingress_vport: 0x0102,
            seq: SeqNum::new(0x0304_0506),
            ts_us: 0x0708_090a,
        },
        &mut buf,
    );
    assert_eq!(
        buf,
        [
            0x10, 0x00, 0x01, 0x02, 0x03, 0x04, 0x05, 0x06, 0x07, 0x08, 0x09, 0x0a
        ]
    );
}

#[test]
fn rejects_short_buffer() {
    for len in 0..OVERLAY_HDR_LEN {
        let buf = vec![0x10; len];
        assert_eq!(decode(&buf), Err(WireError::ShortBuffer));
    }
}

#[test]
fn rejects_wrong_version() {
    let mut buf = [0u8; OVERLAY_HDR_LEN];
    encode(&Hdr::default(), &mut buf);
    for version in (0u8..16).filter(|v| *v != VERSION) {
        buf[0] = version << 4;
        assert_eq!(decode(&buf), Err(WireError::BadVersion(version)));
    }
}

#[test]
fn ignores_flags_and_reserved_byte() {
    let mut buf = [0u8; OVERLAY_HDR_LEN];
    let hdr = Hdr {
        ingress_vport: 7,
        seq: SeqNum::new(9),
        ts_us: 11,
    };
    encode(&hdr, &mut buf);
    buf[0] |= 0x0f;
    buf[1] = 0xff;
    assert_eq!(decode(&buf), Ok(hdr));
}

#[test]
fn accepts_trailing_payload() {
    let mut buf = [0u8; OVERLAY_HDR_LEN + 64];
    let hdr = Hdr {
        ingress_vport: 3,
        seq: SeqNum::new(4),
        ts_us: 5,
    };
    let (head, _) = buf.split_at_mut(OVERLAY_HDR_LEN);
    encode(&hdr, head.try_into().expect("split at header length"));
    assert_eq!(decode(&buf), Ok(hdr));
}

#[test]
fn a_segment_is_the_header_and_the_frame() {
    assert_eq!(segment_len(0), 12);
    assert_eq!(segment_len(1460), 1472);
}

#[test]
fn refusals_say_what_was_wrong() {
    assert_eq!(
        WireError::ShortBuffer.message(),
        "segment shorter than 12-byte overlay header"
    );
    assert_eq!(
        WireError::BadVersion(13).message(),
        "unsupported overlay version 13 (expected 1)"
    );
}
