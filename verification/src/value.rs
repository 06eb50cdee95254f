//! Control-plane scalars: the closed set of value shapes the tables use.
//!
//! Every string an operator types (`10.0.0.0`, `aa:bb:cc:dd:ee:01`, `0x1f`)
//! enters the switch through exactly one function here and leaves it as a
//! [`TypedVal`]. Nothing downstream parses text.
use crate::bytes::{be16_bytes, be32_bytes};
use crate::net::{dotted_quad, Ipv4Addr};
use crate::text::{
    at_most, chars_of, debug_text, dec, fields, hex2, number, parse_number, push_dec, push_hex2,
    quoted, rows, split_fields,
};
use vstd::prelude::*;

verus! {

/// A 48-bit Ethernet address.
#[derive(Clone, Copy, Debug, PartialEq, Eq, PartialOrd, Ord, Hash, Structural)]
pub struct MacAddr {
    /// The first two octets, most significant first.
    pub hi: u16,
    /// The last four octets, most significant first.
    pub lo: u32,
}

/// One octet of an Ethernet address: a hexadecimal number up to 255.
pub open spec fn hex_octet(s: Seq<char>) -> Option<int> {
    at_most(number(s, 16), 255)
}

/// The address that `s` spells: six hexadecimal octets between five
/// separators, each a colon or a dash.
pub open spec fn mac_text(s: Seq<char>) -> Option<MacAddr> {
    let f = fields(s, seq![':', '-']);
    if f.len() == 6 && (forall|i: int| 0 <= i < 6 ==> (#[trigger] hex_octet(f[i])) is Some) {
        Some(
            MacAddr {
                hi: (hex_octet(f[0])->0 * 0x100 + hex_octet(f[1])->0) as u16,
                lo: (hex_octet(f[2])->0 * 0x100_0000 + hex_octet(f[3])->0 * 0x1_0000 + hex_octet(
                    f[4],
                )->0 * 0x100 + hex_octet(f[5])->0) as u32,
            },
        )
    } else {
        None
    }
}

fn parse_hex_octet(s: &[char]) -> (r: Option<u8>)
    ensures
        r matches Some(v) ==> hex_octet(s@) == Some(v as int),
        r is None ==> hex_octet(s@) is None,
{
    match parse_number(s, 16) {
        Some(v) => if v <= 255 {
            Some(v as u8)
        } else {
            None
        },
        None => None,
    }
}

impl MacAddr {
    /// The octets in wire order.
    pub open spec fn spec_octets(self) -> Seq<u8> {
        be16_bytes(self.hi as int) + be32_bytes(self.lo as int)
    }

    /// The 48 bits as one number.
    pub open spec fn spec_bits(self) -> int {
        self.hi * 0x1_0000_0000 + self.lo
    }

    /// The all-ones broadcast address.
    #[must_use]
    pub fn broadcast() -> (r: Self)
        ensures
            r.hi == 0xffff,
            r.lo == 0xffff_ffff,
            r.spec_octets() == seq![0xffu8, 0xff, 0xff, 0xff, 0xff, 0xff],
    {
        MacAddr { hi: 0xffff, lo: 0xffff_ffff }
    }

    /// Wrap six octets in wire order.
    #[must_use]
    pub fn new(octets: [u8; 6]) -> (r: Self)
        ensures
            r.spec_octets() == octets@,
            r.hi == octets@[0] * 0x100 + octets@[1],
            r.lo == octets@[2] * 0x100_0000 + octets@[3] * 0x1_0000 + octets@[4] * 0x100
                + octets@[5],
    {
        let r = MacAddr {
            hi: octets[0] as u16 * 0x100 + octets[1] as u16,
            lo: octets[2] as u32 * 0x100_0000 + octets[3] as u32 * 0x1_0000 + octets[4] as u32
                * 0x100 + octets[5] as u32,
        };
        proof {
            crate::bytes::lemma_be32_bytes_of(octets@.subrange(2, 6));
            assert(r.spec_octets() == octets@);
        }
        r
    }

    /// The octets in wire order.
    #[must_use]
    pub fn octets(self) -> (r: [u8; 6])
        ensures
            r@ == self.spec_octets(),
    {
        let r: [u8; 6] = [
            (self.hi / 0x100) as u8,
            (self.hi % 0x100) as u8,
            (self.lo / 0x100_0000) as u8,
            (self.lo / 0x1_0000 % 0x100) as u8,
            (self.lo / 0x100 % 0x100) as u8,
            (self.lo % 0x100) as u8,
        ];
        assert(r@ == self.spec_octets());
        r
    }

    /// The 48 bits as one number.
    #[must_use]
    pub fn to_bits(self) -> (r: u64)
        ensures
            r == self.spec_bits(),
    {
        self.hi as u64 * 0x1_0000_0000 + self.lo as u64
    }

    /// True for the broadcast and multicast group addresses.
    #[must_use]
    pub fn is_group(self) -> (r: bool)
        ensures
            r == (self.spec_octets()[0] % 2 == 1),
    {
        self.hi / 0x100 % 2 == 1
    }

    /// How the address is written: six pairs of hexadecimal digits.
    pub open spec fn spec_text(self) -> Seq<char> {
        let o = self.spec_octets();
        hex2(o[0]).push(':') + hex2(o[1]).push(':') + hex2(o[2]).push(':') + hex2(o[3]).push(':')
            + hex2(o[4]).push(':') + hex2(o[5])
    }

    /// Append the address as it is written.
    pub fn push_text(&self, out: &mut String)
        ensures
            final(out)@ == old(out)@ + self.spec_text(),
    {
        let o: [u8; 6] = self.octets();
        push_hex2(out, o[0]);
        out.push(':');
        push_hex2(out, o[1]);
        out.push(':');
        push_hex2(out, o[2]);
        out.push(':');
        push_hex2(out, o[3]);
        out.push(':');
        push_hex2(out, o[4]);
        out.push(':');
        push_hex2(out, o[5]);
        assert(out@ == old(out)@ + self.spec_text());
    }

    /// How the address is written.
    #[must_use]
    pub fn to_text(&self) -> (r: String)
        ensures
            r@ == self.spec_text(),
    {
        let mut out: String = String::new();
        self.push_text(&mut out);
        assert(out@ == self.spec_text());
        out
    }

    /// Read an address: six hexadecimal octets between colons or dashes.
    pub fn parse(s: &str) -> (r: Result<Self, ValueError>)
        ensures
            r matches Ok(m) ==> mac_text(s@) == Some(m),
            r matches Err(e) ==> mac_text(s@) is None && e@ == (ValueErrorModel::Malformed {
                kind: ValKind::Mac,
                text: s@,
            }),
    {
        let text: Vec<char> = chars_of(s);
        let seps: [char; 2] = [':', '-'];
        let parts: Vec<Vec<char>> = split_fields(text.as_slice(), seps.as_slice());
        assert(seps@ == seq![':', '-']);
        let ghost f = fields(s@, seq![':', '-']);
        assert(f == rows(parts@));
        if parts.len() != 6 {
            return Err(ValueError::Malformed { kind: ValKind::Mac, text: s.to_owned() });
        }
        let mut octets: [u8; 6] = [0, 0, 0, 0, 0, 0];
        let mut i: usize = 0;
        while i < 6
            invariant
                i <= 6,
                parts@.len() == 6,
                f == rows(parts@),
                f == fields(s@, seq![':', '-']),
                forall|j: int|
                    0 <= j < i ==> (#[trigger] hex_octet(f[j])) == Some(octets@[j] as int),
            decreases 6 - i,
        {
            assert(f[i as int] == parts@[i as int]@);
            match parse_hex_octet(parts[i].as_slice()) {
                Some(v) => {
                    octets[i] = v;
                },
                None => {
                    assert(hex_octet(f[i as int]) is None);
                    return Err(ValueError::Malformed { kind: ValKind::Mac, text: s.to_owned() });
                },
            }
            i += 1;
        }
        let m = MacAddr::new(octets);
        proof {
            assert(hex_octet(f[0]) == Some(octets@[0] as int));
            assert(hex_octet(f[1]) == Some(octets@[1] as int));
            assert(hex_octet(f[2]) == Some(octets@[2] as int));
            assert(hex_octet(f[3]) == Some(octets@[3] as int));
            assert(hex_octet(f[4]) == Some(octets@[4] as int));
            assert(hex_octet(f[5]) == Some(octets@[5] as int));
        }
        Ok(m)
    }
}

proof fn lemma_six_fields(
    a: Seq<char>,
    b: Seq<char>,
    c: Seq<char>,
    d: Seq<char>,
    e: Seq<char>,
    g: Seq<char>,
)
    requires
        crate::text::unbroken(a, seq![':', '-']),
        crate::text::unbroken(b, seq![':', '-']),
        crate::text::unbroken(c, seq![':', '-']),
        crate::text::unbroken(d, seq![':', '-']),
        crate::text::unbroken(e, seq![':', '-']),
        crate::text::unbroken(g, seq![':', '-']),
    ensures
        fields(
            a.push(':') + b.push(':') + c.push(':') + d.push(':') + e.push(':') + g,
            seq![':', '-'],
        ) == seq![a, b, c, d, e, g],
{
    let seps = seq![':', '-'];
    assert(seps[0] == ':');
    crate::text::lemma_fields_unbroken(a, seps);
    crate::text::lemma_fields_extend(a, ':', b, seps);
    let s2 = a.push(':') + b;
    crate::text::lemma_fields_extend(s2, ':', c, seps);
    let s3 = s2.push(':') + c;
    crate::text::lemma_fields_extend(s3, ':', d, seps);
    let s4 = s3.push(':') + d;
    crate::text::lemma_fields_extend(s4, ':', e, seps);
    let s5 = s4.push(':') + e;
    crate::text::lemma_fields_extend(s5, ':', g, seps);
    assert(s5.push(':') + g == a.push(':') + b.push(':') + c.push(':') + d.push(':') + e.push(':')
        + g);
    assert(seq![a].push(b).push(c).push(d).push(e).push(g) == seq![a, b, c, d, e, g]);
}

proof fn lemma_hex_octet_text(b: u8)
    ensures
        hex_octet(hex2(b)) == Some(b as int),
        crate::text::unbroken(hex2(b), seq![':', '-']),
{
    crate::text::lemma_hex2_spells(b);
    let seps = seq![':', '-'];
    assert(seps[0] == ':' && seps[1] == '-');
    crate::text::lemma_digits_unbroken(hex2(b), 16, seps);
}

/// What an address is shown as reads back as that address.
pub proof fn law_mac_text_round_trip(m: MacAddr)
    ensures
        mac_text(m.spec_text()) == Some(m),
{
    let o = m.spec_octets();
    lemma_hex_octet_text(o[0]);
    lemma_hex_octet_text(o[1]);
    lemma_hex_octet_text(o[2]);
    lemma_hex_octet_text(o[3]);
    lemma_hex_octet_text(o[4]);
    lemma_hex_octet_text(o[5]);
    lemma_six_fields(hex2(o[0]), hex2(o[1]), hex2(o[2]), hex2(o[3]), hex2(o[4]), hex2(o[5]));
    crate::bytes::lemma_be16_round_trip(m.hi as int);
    crate::bytes::lemma_be32_round_trip(m.lo as int);
    let f = fields(m.spec_text(), seq![':', '-']);
    assert forall|i: int| 0 <= i < 6 implies (#[trigger] hex_octet(f[i])) is Some by {
        assert(i == 0 || i == 1 || i == 2 || i == 3 || i == 4 || i == 5);
    }
}

/// The shape of a table key field or action parameter.
///
/// Carried in the table schemas so the control tool can tell an operator what
/// to type before they type it.
#[derive(Clone, Copy, Debug, PartialEq, Eq, Structural)]
pub enum ValKind {
    /// An 8-bit unsigned integer, decimal or `0x`-prefixed.
    U8,
    /// A 16-bit unsigned integer, decimal or `0x`-prefixed.
    U16,
    /// A 32-bit unsigned integer, decimal or `0x`-prefixed.
    U32,
    /// An Ethernet address, `aa:bb:cc:dd:ee:ff`.
    Mac,
    /// An IPv4 address, dotted quad.
    Ipv4,
}

impl ValKind {
    /// How to spell a value of this kind.
    pub open spec fn spec_syntax(self) -> Seq<char> {
        match self {
            ValKind::U8 => "u8 (e.g. 64 or 0x40)"@,
            ValKind::U16 => "u16 (e.g. 1 or 0x1f)"@,
            ValKind::U32 => "u32"@,
            ValKind::Mac => "mac (aa:bb:cc:dd:ee:ff)"@,
            ValKind::Ipv4 => "ipv4 (10.0.0.1)"@,
        }
    }

    /// How to spell a value of this kind, for help text.
    #[must_use]
    pub fn syntax(self) -> (r: &'static str)
        ensures
            r@ == self.spec_syntax(),
    {
        match self {
            ValKind::U8 => "u8 (e.g. 64 or 0x40)",
            ValKind::U16 => "u16 (e.g. 1 or 0x1f)",
            ValKind::U32 => "u32",
            ValKind::Mac => "mac (aa:bb:cc:dd:ee:ff)",
            ValKind::Ipv4 => "ipv4 (10.0.0.1)",
        }
    }

    /// The kind's own name.
    pub open spec fn spec_name(self) -> Seq<char> {
        match self {
            ValKind::U8 => "U8"@,
            ValKind::U16 => "U16"@,
            ValKind::U32 => "U32"@,
            ValKind::Mac => "Mac"@,
            ValKind::Ipv4 => "Ipv4"@,
        }
    }

    /// The kind's own name, for error text.
    #[must_use]
    pub fn name(self) -> (r: &'static str)
        ensures
            r@ == self.spec_name(),
    {
        match self {
            ValKind::U8 => "U8",
            ValKind::U16 => "U16",
            ValKind::U32 => "U32",
            ValKind::Mac => "Mac",
            ValKind::Ipv4 => "Ipv4",
        }
    }

    /// How many bits a value of this kind has.
    pub open spec fn spec_width(self) -> int {
        match self {
            ValKind::U8 => 8,
            ValKind::U16 => 16,
            ValKind::U32 => 32,
            ValKind::Ipv4 => 32,
            ValKind::Mac => 48,
        }
    }

    /// How many bits a value of this kind has.
    #[must_use]
    pub fn width(self) -> (r: u8)
        ensures
            r == self.spec_width(),
    {
        match self {
            ValKind::U8 => 8,
            ValKind::U16 => 16,
            ValKind::U32 => 32,
            ValKind::Ipv4 => 32,
            ValKind::Mac => 48,
        }
    }
}

/// A scalar control-plane value, always of a known [`ValKind`].
#[derive(Clone, Copy, Debug, PartialEq, Eq, Hash, Structural)]
pub enum TypedVal {
    /// See [`ValKind::U8`].
    U8(u8),
    /// See [`ValKind::U16`].
    U16(u16),
    /// See [`ValKind::U32`].
    U32(u32),
    /// See [`ValKind::Mac`].
    Mac(MacAddr),
    /// See [`ValKind::Ipv4`].
    Ipv4(Ipv4Addr),
}

/// Why a control-plane value could not be accepted.
#[derive(Clone, Debug, PartialEq, Eq)]
pub enum ValueError {
    /// The text is not a value of the expected kind.
    Malformed {
        /// Kind that was expected.
        kind: ValKind,
        /// Text that was offered.
        text: String,
    },
    /// A value of the wrong kind was supplied where `expected` was required.
    Mismatched {
        /// Kind the table demands.
        expected: ValKind,
        /// Kind that was offered.
        got: ValKind,
    },
}

/// A [`ValueError`] with its text as characters.
pub enum ValueErrorModel {
    Malformed { kind: ValKind, text: Seq<char> },
    Mismatched { expected: ValKind, got: ValKind },
}

impl View for ValueError {
    type V = ValueErrorModel;

    open spec fn view(&self) -> ValueErrorModel {
        match *self {
            ValueError::Malformed { kind, text } => ValueErrorModel::Malformed { kind, text: text@ },
            ValueError::Mismatched { expected, got } => ValueErrorModel::Mismatched {
                expected,
                got,
            },
        }
    }
}

impl ValueErrorModel {
    /// What the error says.
    pub open spec fn message(self) -> Seq<char> {
        match self {
            ValueErrorModel::Malformed { kind, text } => quoted(text) + " is not a valid "@
                + kind.spec_syntax(),
            ValueErrorModel::Mismatched { expected, got } => "expected "@ + expected.spec_syntax()
                + ", got "@ + got.spec_name(),
        }
    }
}

impl ValueError {
    /// What the error says, for the operator.
    pub fn message(&self) -> (r: String)
        ensures
            r@ == self@.message(),
    {
        match self {
            ValueError::Malformed { kind, text } => {
                let mut out: String = debug_text(text.as_str());
                out.append(" is not a valid ");
                out.append(kind.syntax());
                out
            },
            ValueError::Mismatched { expected, got } => {
                let mut out: String = "expected ".to_owned();
                out.append(expected.syntax());
                out.append(", got ");
                out.append(got.name());
                out
            },
        }
    }
}

/// `s` without a leading `0x` or `0X`, where it has one.
pub open spec fn hex_part(s: Seq<char>) -> Option<Seq<char>> {
    if s.len() >= 2 && s[0] == '0' && (s[1] == 'x' || s[1] == 'X') {
        Some(s.subrange(2, s.len() as int))
    } else {
        None
    }
}

/// The integer that `s` spells: decimal, or hexadecimal behind `0x`.
pub open spec fn integer(s: Seq<char>) -> Option<int> {
    match hex_part(s) {
        Some(h) => number(h, 16),
        None => number(s, 10),
    }
}

/// Decimal, or hexadecimal with an `0x` prefix, up to what a `u64` holds.
pub fn parse_int(text: &str) -> (r: Option<u64>)
    ensures
        r matches Some(v) ==> integer(text@) == Some(v as int),
        r is None ==> at_most(integer(text@), u64::MAX as int) is None,
{
    let s: Vec<char> = chars_of(text);
    if s.len() >= 2 && s[0] == '0' && (s[1] == 'x' || s[1] == 'X') {
        let t: &[char] = s.as_slice();
        parse_number(&t[2..t.len()], 16)
    } else {
        parse_number(s.as_slice(), 10)
    }
}

impl TypedVal {
    /// The kind of this value.
    pub open spec fn spec_kind(self) -> ValKind {
        match self {
            TypedVal::U8(_) => ValKind::U8,
            TypedVal::U16(_) => ValKind::U16,
            TypedVal::U32(_) => ValKind::U32,
            TypedVal::Mac(_) => ValKind::Mac,
            TypedVal::Ipv4(_) => ValKind::Ipv4,
        }
    }

    /// The kind of this value.
    #[must_use]
    pub fn kind(self) -> (r: ValKind)
        ensures
            r == self.spec_kind(),
    {
        match self {
            TypedVal::U8(_) => ValKind::U8,
            TypedVal::U16(_) => ValKind::U16,
            TypedVal::U32(_) => ValKind::U32,
            TypedVal::Mac(_) => ValKind::Mac,
            TypedVal::Ipv4(_) => ValKind::Ipv4,
        }
    }

    /// The value of `kind` that `s` spells.
    pub open spec fn spelled(kind: ValKind, s: Seq<char>) -> Option<TypedVal> {
        match kind {
            ValKind::U8 => match at_most(integer(s), u8::MAX as int) {
                Some(v) => Some(TypedVal::U8(v as u8)),
                None => None,
            },
            ValKind::U16 => match at_most(integer(s), u16::MAX as int) {
                Some(v) => Some(TypedVal::U16(v as u16)),
                None => None,
            },
            ValKind::U32 => match at_most(integer(s), u32::MAX as int) {
                Some(v) => Some(TypedVal::U32(v as u32)),
                None => None,
            },
            ValKind::Mac => match mac_text(s) {
                Some(m) => Some(TypedVal::Mac(m)),
                None => None,
            },
            ValKind::Ipv4 => match dotted_quad(s) {
                Some(a) => Some(TypedVal::Ipv4(a)),
                None => None,
            },
        }
    }

    /// Parse `text` as a value of `kind`. The single text gate.
    pub fn parse(kind: ValKind, text: &str) -> (r: Result<Self, ValueError>)
        ensures
            r matches Ok(v) ==> TypedVal::spelled(kind, text@) == Some(v) && v.spec_kind() == kind,
            r matches Err(e) ==> TypedVal::spelled(kind, text@) is None && e@ == (
            ValueErrorModel::Malformed { kind, text: text@ }),
    {
        match kind {
            ValKind::U8 => if let Some(v) = parse_int(text) {
                if v <= u8::MAX as u64 {
                    return Ok(TypedVal::U8(v as u8));
                }
            },
            ValKind::U16 => if let Some(v) = parse_int(text) {
                if v <= u16::MAX as u64 {
                    return Ok(TypedVal::U16(v as u16));
                }
            },
            ValKind::U32 => if let Some(v) = parse_int(text) {
                if v <= u32::MAX as u64 {
                    return Ok(TypedVal::U32(v as u32));
                }
            },
            ValKind::Mac => if let Ok(m) = MacAddr::parse(text) {
                return Ok(TypedVal::Mac(m));
            },
            ValKind::Ipv4 => if let Some(a) = Ipv4Addr::parse(text) {
                return Ok(TypedVal::Ipv4(a));
            },
        }
        Err(ValueError::Malformed { kind, text: text.to_owned() })
    }

    /// Require this value to be of `expected` kind.
    pub fn require(self, expected: ValKind) -> (r: Result<Self, ValueError>)
        ensures
            self.spec_kind() == expected ==> r == Ok::<TypedVal, ValueError>(self),
            self.spec_kind() != expected ==> r is Err && r->Err_0@ == (
            ValueErrorModel::Mismatched { expected, got: self.spec_kind() }),
    {
        if self.kind() == expected {
            Ok(self)
        } else {
            Err(ValueError::Mismatched { expected, got: self.kind() })
        }
    }

    /// The value as a `u16`, if it is one.
    #[must_use]
    pub fn as_u16(self) -> (r: Option<u16>)
        ensures
            r == (match self {
                TypedVal::U16(v) => Some(v),
                _ => None,
            }),
    {
        match self {
            TypedVal::U16(v) => Some(v),
            _ => None,
        }
    }

    /// The value as a MAC address, if it is one.
    #[must_use]
    pub fn as_mac(self) -> (r: Option<MacAddr>)
        ensures
            r == (match self {
                TypedVal::Mac(v) => Some(v),
                _ => None,
            }),
    {
        match self {
            TypedVal::Mac(v) => Some(v),
            _ => None,
        }
    }

    /// The value as an IPv4 address, if it is one.
    #[must_use]
    pub fn as_ipv4(self) -> (r: Option<Ipv4Addr>)
        ensures
            r == (match self {
                TypedVal::Ipv4(v) => Some(v),
                _ => None,
            }),
    {
        match self {
            TypedVal::Ipv4(v) => Some(v),
            _ => None,
        }
    }

    /// The value as an operator would type it.
    pub open spec fn spec_text(self) -> Seq<char> {
        match self {
            TypedVal::U8(v) => dec(v as int),
            TypedVal::U16(v) => dec(v as int),
            TypedVal::U32(v) => dec(v as int),
            TypedVal::Mac(m) => m.spec_text(),
            TypedVal::Ipv4(a) => a.spec_text(),
        }
    }

    /// The value as an operator would type it.
    #[must_use]
    pub fn to_text(&self) -> (r: String)
        ensures
            r@ == self.spec_text(),
    {
        let mut out: String = String::new();
        match *self {
            TypedVal::U8(v) => push_dec(&mut out, v as u64),
            TypedVal::U16(v) => push_dec(&mut out, v as u64),
            TypedVal::U32(v) => push_dec(&mut out, v as u64),
            TypedVal::Mac(m) => m.push_text(&mut out),
            TypedVal::Ipv4(a) => a.push_text(&mut out),
        }
        assert(out@ == self.spec_text());
        out
    }
}

/// A value reads back from what it is shown as: nothing is lost between the
/// operator's text and the table.
pub proof fn law_value_text_round_trip(v: TypedVal)
    ensures
        TypedVal::spelled(v.spec_kind(), v.spec_text()) == Some(v),
{
    match v {
        TypedVal::U8(n) => lemma_dec_is_integer(n as int),
        TypedVal::U16(n) => lemma_dec_is_integer(n as int),
        TypedVal::U32(n) => lemma_dec_is_integer(n as int),
        TypedVal::Mac(m) => law_mac_text_round_trip(m),
        TypedVal::Ipv4(a) => crate::net::law_ipv4_text_round_trip(a),
    }
}

proof fn lemma_dec_is_integer(n: int)
    requires
        0 <= n,
    ensures
        integer(dec(n)) == Some(n),
{
    crate::text::lemma_dec_spells(n);
    let s = dec(n);
    if s.len() >= 2 {
        assert(crate::text::digit_value(s[1], 10) is Some);
    }
}

/// Whether `s` could stand in front of a slash.
pub open spec fn slashless(s: Seq<char>) -> bool {
    forall|i: int| 0 <= i < s.len() ==> (#[trigger] s[i]) != '/'
}

proof fn lemma_dec_is_slashless(n: int)
    requires
        0 <= n,
    ensures
        slashless(dec(n)),
{
    crate::text::lemma_dec_spells(n);
    assert forall|i: int| 0 <= i < dec(n).len() implies (#[trigger] dec(n)[i]) != '/' by {
        assert(crate::text::digit_value(dec(n)[i], 10) is Some);
    }
}

/// No value is shown with a slash in it.
pub proof fn lemma_value_text_is_slashless(v: TypedVal)
    ensures
        slashless(v.spec_text()),
{
    match v {
        TypedVal::U8(n) => lemma_dec_is_slashless(n as int),
        TypedVal::U16(n) => lemma_dec_is_slashless(n as int),
        TypedVal::U32(n) => lemma_dec_is_slashless(n as int),
        TypedVal::Mac(m) => {},
        TypedVal::Ipv4(a) => {
            let o = a.spec_octets();
            lemma_dec_is_slashless(o[0] as int);
            lemma_dec_is_slashless(o[1] as int);
            lemma_dec_is_slashless(o[2] as int);
            lemma_dec_is_slashless(o[3] as int);
        },
    }
}

/// A number behind `0x` is hexadecimal, and any other decimal.
pub proof fn law_integers_are_decimal_or_hexadecimal(s: Seq<char>)
    ensures
        integer(seq!['0', 'x'] + s) == number(s, 16),
        integer(seq!['0', 'X'] + s) == number(s, 16),
        !(s.len() >= 2 && s[0] == '0' && (s[1] == 'x' || s[1] == 'X')) ==> integer(s) == number(
            s,
            10,
        ),
{
    let a = seq!['0', 'x'] + s;
    let b = seq!['0', 'X'] + s;
    assert(a[0] == '0' && a[1] == 'x' && b[0] == '0' && b[1] == 'X');
    assert(a.subrange(2, a.len() as int) =~= s);
    assert(b.subrange(2, b.len() as int) =~= s);
}

/// A value is taken where it fits its kind, and is then the number itself;
/// addresses are read as such.
pub proof fn law_values_fit_their_kind(s: Seq<char>)
    ensures
        ({
            let n = integer(s);
            &&& TypedVal::spelled(ValKind::U8, s) == (if n is Some && n->0 <= 255 {
                Some(TypedVal::U8(n->0 as u8))
            } else {
                None
            })
            &&& TypedVal::spelled(ValKind::U16, s) == (if n is Some && n->0 <= 65535 {
                Some(TypedVal::U16(n->0 as u16))
            } else {
                None
            })
            &&& TypedVal::spelled(ValKind::U32, s) == (if n is Some && n->0 <= 0xffff_ffff {
                Some(TypedVal::U32(n->0 as u32))
            } else {
                None
            })
            &&& TypedVal::spelled(ValKind::Mac, s) is Some <==> mac_text(s) is Some
            &&& mac_text(s) matches Some(m) ==> TypedVal::spelled(ValKind::Mac, s) == Some(
                TypedVal::Mac(m),
            )
            &&& TypedVal::spelled(ValKind::Ipv4, s) is Some <==> dotted_quad(s) is Some
            &&& dotted_quad(s) matches Some(a) ==> TypedVal::spelled(ValKind::Ipv4, s) == Some(
                TypedVal::Ipv4(a),
            )
        }),
{
}

/// The octets of an address, most significant first, are its 48 bits.
pub proof fn law_mac_octets_are_its_bits(m: MacAddr)
    ensures
        ({
            let o = m.spec_octets();
            &&& o.len() == 6
            &&& o[0] * 0x100_0000_0000 + o[1] * 0x1_0000_0000 + o[2] * 0x100_0000 + o[3] * 0x1_0000
                + o[4] * 0x100 + o[5] == m.spec_bits()
        }),
{
    let o = m.spec_octets();
    crate::bytes::lemma_be16_round_trip(m.hi as int);
    crate::bytes::lemma_be32_round_trip(m.lo as int);
    let (h, l) = (be16_bytes(m.hi as int), be32_bytes(m.lo as int));
    assert(o[0] == h[0] && o[1] == h[1] && o[2] == l[0] && o[3] == l[1] && o[4] == l[2] && o[5]
        == l[3]);
}

/// The width of a kind is what its values need: every value of it, as a
/// number, is below two to the width.
pub proof fn law_widths(v: TypedVal)
    ensures
        v matches TypedVal::U8(_) ==> v.spec_kind().spec_width() == 8,
        v matches TypedVal::U16(_) ==> v.spec_kind().spec_width() == 16,
        v matches TypedVal::U32(_) ==> v.spec_kind().spec_width() == 32,
        v matches TypedVal::Mac(_) ==> v.spec_kind().spec_width() == 48,
        v matches TypedVal::Ipv4(_) ==> v.spec_kind().spec_width() == 32,
{
}

/// Either separator may stand between octets: a text means the same with every
/// colon replaced by a dash.
pub proof fn law_mac_separators_are_alike(s: Seq<char>)
    ensures
        mac_text(s.map_values(|c: char| if c == ':' { '-' } else { c })) == mac_text(s),
{
    lemma_fields_ignore_the_separator(s);
}

proof fn lemma_fields_ignore_the_separator(s: Seq<char>)
    ensures
        fields(s.map_values(|c: char| if c == ':' { '-' } else { c }), seq![':', '-']) == fields(
            s,
            seq![':', '-'],
        ),
    decreases s.len(),
{
    let g = |c: char| if c == ':' { '-' } else { c };
    let t = s.map_values(g);
    let seps = seq![':', '-'];
    assert(seps[0] == ':' && seps[1] == '-');
    if s.len() > 0 {
        lemma_fields_ignore_the_separator(s.drop_last());
        assert(t.drop_last() =~= s.drop_last().map_values(g));
        assert(t.last() == g(s.last()));
        if seps.contains(s.last()) {
            assert(s.last() == ':' || s.last() == '-');
            assert(seps.contains(t.last()));
        } else {
            assert(s.last() != ':');
            assert(t.last() == s.last());
        }
    } else {
        assert(t =~= s);
    }
}

/// An address is shown as six pairs of lower-case hexadecimal digits with
/// colons in between, the first octet first.
pub proof fn law_mac_text_is_six_pairs(m: MacAddr, k: int)
    requires
        0 <= k < 6,
    ensures
        ({
            let s = m.spec_text();
            let o = m.spec_octets()[k] as int;
            let hi = s[3 * k] as int;
            let lo = s[3 * k + 1] as int;
            &&& s.len() == 17
            &&& k < 5 ==> s[3 * k + 2] == ':'
            &&& hi == (if o / 16 < 10 {
                48 + o / 16
            } else {
                97 + o / 16 - 10
            })
            &&& lo == (if o % 16 < 10 {
                48 + o % 16
            } else {
                97 + o % 16 - 10
            })
        }),
{
    let s = m.spec_text();
    let o = m.spec_octets();
    assert(s.subrange(0, 2) =~= hex2(o[0]));
    assert(s.subrange(3, 5) =~= hex2(o[1]));
    assert(s.subrange(6, 8) =~= hex2(o[2]));
    assert(s.subrange(9, 11) =~= hex2(o[3]));
    assert(s.subrange(12, 14) =~= hex2(o[4]));
    assert(s.subrange(15, 17) =~= hex2(o[5]));
    let part = s.subrange(3 * k, 3 * k + 2);
    assert(part =~= hex2(o[k])) by {
        if k == 0 {
        } else if k == 1 {
        } else if k == 2 {
        } else if k == 3 {
        } else if k == 4 {
        } else {
        }
    }
    assert(s[3 * k] == part[0] && s[3 * k + 1] == part[1]);
}

} // verus!
