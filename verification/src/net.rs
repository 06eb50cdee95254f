//! Addresses of the cluster network and of the frames it carries.
use crate::bytes::{be32, be32_bytes};
use crate::text::{
    all_digits, chars_of, dec, digit_value, digits_value, fields, joined,
    law_decimal_spelling_is_unique, law_fields_join_again, parse_number, push_dec, rows,
    split_fields,
};
use vstd::prelude::*;

verus! {

/// An IPv4 address.
#[derive(Clone, Copy, Debug, PartialEq, Eq, PartialOrd, Ord, Hash, Structural)]
pub struct Ipv4Addr {
    /// The four octets as one number, most significant first.
    pub bits: u32,
}

/// One octet of a dotted quad: one to three decimal digits, no superfluous
/// leading zero, at most 255.
pub open spec fn octet(s: Seq<char>) -> Option<int> {
    if 1 <= s.len() <= 3 && all_digits(s, 10) && (s.len() == 1 || s[0] != '0') && digits_value(
        s,
        10,
    ) <= 255 {
        Some(digits_value(s, 10))
    } else {
        None
    }
}

/// The address that a dotted quad spells: four octets between three dots.
pub open spec fn dotted_quad(s: Seq<char>) -> Option<Ipv4Addr> {
    let f = fields(s, seq!['.']);
    if f.len() != 4 {
        None
    } else {
        match (octet(f[0]), octet(f[1]), octet(f[2]), octet(f[3])) {
            (Some(a), Some(b), Some(c), Some(d)) => Some(
                Ipv4Addr { bits: (a * 0x100_0000 + b * 0x1_0000 + c * 0x100 + d) as u32 },
            ),
            _ => None,
        }
    }
}

fn parse_octet(s: &[char]) -> (r: Option<u8>)
    ensures
        r matches Some(v) ==> octet(s@) == Some(v as int),
        r is None ==> octet(s@) is None,
{
    if s.len() == 0 || s.len() > 3 || s[0] == '+' || (s.len() > 1 && s[0] == '0') {
        assert(s@.len() > 0 && s@[0] == '+' ==> crate::text::digit_value(s@[0], 10) is None);
        return None;
    }
    match parse_number(s, 10) {
        Some(v) => if v <= 255 {
            Some(v as u8)
        } else {
            None
        },
        None => None,
    }
}

impl Ipv4Addr {
    /// The address with these octets.
    #[must_use]
    pub fn new(a: u8, b: u8, c: u8, d: u8) -> (r: Self)
        ensures
            r.bits == a * 0x100_0000 + b * 0x1_0000 + c * 0x100 + d,
            r.spec_octets() == seq![a, b, c, d],
    {
        let r = Ipv4Addr {
            bits: a as u32 * 0x100_0000 + b as u32 * 0x1_0000 + c as u32 * 0x100 + d as u32,
        };
        proof {
            crate::bytes::lemma_be32_bytes_of(seq![a, b, c, d]);
        }
        r
    }

    /// The octets in wire order.
    pub open spec fn spec_octets(self) -> Seq<u8> {
        be32_bytes(self.bits as int)
    }

    /// The octets in wire order.
    #[must_use]
    pub fn octets(self) -> (r: [u8; 4])
        ensures
            r@ == self.spec_octets(),
    {
        let n: u32 = self.bits;
        let r: [u8; 4] = [
            (n / 0x100_0000) as u8,
            (n / 0x1_0000 % 0x100) as u8,
            (n / 0x100 % 0x100) as u8,
            (n % 0x100) as u8,
        ];
        assert(r@ == self.spec_octets());
        r
    }

    /// Read a dotted quad.
    pub fn parse(s: &str) -> (r: Option<Self>)
        ensures
            r == dotted_quad(s@),
    {
        let text: Vec<char> = chars_of(s);
        let dot: [char; 1] = ['.'];
        let parts: Vec<Vec<char>> = split_fields(text.as_slice(), dot.as_slice());
        assert(dot@ == seq!['.']);
        if parts.len() != 4 {
            return None;
        }
        let ghost f = fields(s@, seq!['.']);
        assert(f == rows(parts@));
        let a: Option<u8> = parse_octet(parts[0].as_slice());
        let b: Option<u8> = parse_octet(parts[1].as_slice());
        let c: Option<u8> = parse_octet(parts[2].as_slice());
        let d: Option<u8> = parse_octet(parts[3].as_slice());
        assert(f[0] == parts@[0]@ && f[1] == parts@[1]@ && f[2] == parts@[2]@ && f[3] == parts@[3]@);
        match (a, b, c, d) {
            (Some(a), Some(b), Some(c), Some(d)) => Some(Ipv4Addr::new(a, b, c, d)),
            _ => None,
        }
    }

    /// The dotted quad.
    pub open spec fn spec_text(self) -> Seq<char> {
        let o = self.spec_octets();
        dec(o[0] as int).push('.') + dec(o[1] as int).push('.') + dec(o[2] as int).push('.') + dec(
            o[3] as int,
        )
    }

    /// Append the dotted quad.
    pub fn push_text(&self, out: &mut String)
        ensures
            final(out)@ == old(out)@ + self.spec_text(),
    {
        let o: [u8; 4] = self.octets();
        push_dec(out, o[0] as u64);
        out.push('.');
        push_dec(out, o[1] as u64);
        out.push('.');
        push_dec(out, o[2] as u64);
        out.push('.');
        push_dec(out, o[3] as u64);
        assert(out@ == old(out)@ + self.spec_text());
    }

    /// The dotted quad.
    #[must_use]
    pub fn to_text(&self) -> (r: String)
        ensures
            r@ == self.spec_text(),
    {
        let mut out: String = String::new();
        self.push_text(&mut out);
        assert(out@ == self.spec_text());
        out
    }
}

proof fn lemma_octet_text(n: int)
    requires
        0 <= n <= 255,
    ensures
        octet(dec(n)) == Some(n),
        crate::text::unbroken(dec(n), seq!['.']),
{
    crate::text::lemma_dec_spells(n);
    reveal_with_fuel(dec, 4);
    assert(seq!['.'].len() == 1);
    crate::text::lemma_digits_unbroken(dec(n), 10, seq!['.']);
}

proof fn lemma_four_fields(a: Seq<char>, b: Seq<char>, c: Seq<char>, d: Seq<char>)
    requires
        crate::text::unbroken(a, seq!['.']),
        crate::text::unbroken(b, seq!['.']),
        crate::text::unbroken(c, seq!['.']),
        crate::text::unbroken(d, seq!['.']),
    ensures
        fields(a.push('.') + b.push('.') + c.push('.') + d, seq!['.']) == seq![a, b, c, d],
{
    let seps = seq!['.'];
    assert(seps[0] == '.');
    crate::text::lemma_fields_unbroken(a, seps);
    crate::text::lemma_fields_extend(a, '.', b, seps);
    let ab = a.push('.') + b;
    crate::text::lemma_fields_extend(ab, '.', c, seps);
    let abc = ab.push('.') + c;
    crate::text::lemma_fields_extend(abc, '.', d, seps);
    assert(abc.push('.') + d == a.push('.') + b.push('.') + c.push('.') + d);
    assert(seq![a].push(b).push(c).push(d) == seq![a, b, c, d]);
}

/// What an address is shown as reads back as that address.
pub proof fn law_ipv4_text_round_trip(addr: Ipv4Addr)
    ensures
        dotted_quad(addr.spec_text()) == Some(addr),
{
    let o = addr.spec_octets();
    lemma_octet_text(o[0] as int);
    lemma_octet_text(o[1] as int);
    lemma_octet_text(o[2] as int);
    lemma_octet_text(o[3] as int);
    lemma_four_fields(dec(o[0] as int), dec(o[1] as int), dec(o[2] as int), dec(o[3] as int));
    crate::bytes::lemma_be32_round_trip(addr.bits as int);
}

/// The address of a UDP endpoint.
#[allow(inconsistent_fields)]
#[derive(Clone, Copy, Debug, PartialEq, Eq, Structural)]
pub enum SocketAddr {
    /// An IPv4 address and a port.
    V4 {
        /// The address, most significant octet first.
        ip: u32,
        /// The port.
        port: u16,
    },
    /// An IPv6 address and a port.
    V6 {
        /// The address, most significant octet first.
        ip: u128,
        /// The port.
        port: u16,
        /// The flow label.
        flowinfo: u32,
        /// The scope.
        scope_id: u32,
    },
}

impl SocketAddr {
    /// A pair of numbers that no other address has.
    pub open spec fn spec_key(self) -> (u128, u128) {
        match self {
            SocketAddr::V4 { ip, port } => (ip as u128, (port * 2) as u128),
            SocketAddr::V6 { ip, port, flowinfo, scope_id } => (
                ip,
                (1 + 2 * (port + 0x1_0000 * (flowinfo + 0x1_0000_0000 * scope_id))) as u128,
            ),
        }
    }

    /// A pair of numbers that no other address has.
    #[must_use]
    pub fn key(self) -> (r: (u128, u128))
        ensures
            r == self.spec_key(),
    {
        match self {
            SocketAddr::V4 { ip, port } => (ip as u128, port as u128 * 2),
            SocketAddr::V6 { ip, port, flowinfo, scope_id } => (
                ip,
                1 + 2 * (port as u128 + 0x1_0000 * (flowinfo as u128 + 0x1_0000_0000
                    * scope_id as u128)),
            ),
        }
    }

    /// Different addresses have different keys.
    pub proof fn lemma_keys_differ(a: SocketAddr, b: SocketAddr)
        requires
            a.spec_key() == b.spec_key(),
        ensures
            a == b,
    {
        match (a, b) {
            (
                SocketAddr::V6 { ip, port, flowinfo, scope_id },
                SocketAddr::V6 { ip: ip2, port: port2, flowinfo: flowinfo2, scope_id: scope_id2 },
            ) => {
                let x = flowinfo + 0x1_0000_0000 * scope_id;
                let y = flowinfo2 + 0x1_0000_0000 * scope_id2;
                assert(port + 0x1_0000 * x == port2 + 0x1_0000 * y);
                assert(x == y);
                assert(scope_id == scope_id2);
            },
            _ => {},
        }
    }
}

/// An address has one spelling: a text is read as an address where, and only
/// where, it is how that address is shown.
#[verifier::rlimit(40)]
pub proof fn law_dotted_quads_are_unique(s: Seq<char>, addr: Ipv4Addr)
    ensures
        dotted_quad(s) == Some(addr) <==> s == addr.spec_text(),
{
    law_ipv4_text_round_trip(addr);
    if dotted_quad(s) == Some(addr) {
        let dot = seq!['.'];
        let f = fields(s, dot);
        law_fields_join_again(s, '.');
        let (a, b, c, d) = (octet(f[0])->0, octet(f[1])->0, octet(f[2])->0, octet(f[3])->0);
        law_decimal_spelling_is_unique(f[0]);
        law_decimal_spelling_is_unique(f[1]);
        law_decimal_spelling_is_unique(f[2]);
        law_decimal_spelling_is_unique(f[3]);
        lemma_octet_bound(f[0]);
        lemma_octet_bound(f[1]);
        lemma_octet_bound(f[2]);
        lemma_octet_bound(f[3]);
        let o = addr.spec_octets();
        let given = seq![a as u8, b as u8, c as u8, d as u8];
        crate::bytes::lemma_be32_bytes_of(given);
        assert(be32_bytes(be32(given, 0)) == given);
        assert(o[0] == a && o[1] == b && o[2] == c && o[3] == d);
        let three = f.drop_last();
        let two = three.drop_last();
        let one = two.drop_last();
        assert(one[0] == f[0] && two[1] == f[1] && three[2] == f[2]);
        assert(joined(one, dot) == f[0]);
        assert(joined(two, dot) == f[0] + dot + f[1]);
        assert(joined(three, dot) == f[0] + dot + f[1] + dot + f[2]);
        assert(joined(f, dot) == f[0] + dot + f[1] + dot + f[2] + dot + f[3]);
        assert(s =~= addr.spec_text());
    }
}

proof fn lemma_octet_bound(s: Seq<char>)
    requires
        octet(s) is Some,
    ensures
        0 <= octet(s)->0 <= 255,
{
    law_decimal_spelling_is_unique(s);
    assert(digit_value(s[0], 10) is Some);
    if s.len() == 1 {
        assert(s.drop_last() =~= Seq::empty());
        assert(digits_value(s.drop_last(), 10) == 0);
    }
}

} // verus!
