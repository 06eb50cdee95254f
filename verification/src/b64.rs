//! Base64 (RFC 4648, standard alphabet, padded).
use crate::text::chars_of;
use vstd::prelude::*;

verus! {

/// The character of the standard alphabet for `d`.
pub open spec fn digit64(d: int) -> char {
    if d < 26 {
        ('A' as int + d) as char
    } else if d < 52 {
        ('a' as int + d - 26) as char
    } else if d < 62 {
        ('0' as int + d - 52) as char
    } else if d == 62 {
        '+'
    } else {
        '/'
    }
}

/// The value of `c` in the standard alphabet.
pub open spec fn value64(c: char) -> Option<int> {
    if 'A' <= c <= 'Z' {
        Some(c as int - 'A' as int)
    } else if 'a' <= c <= 'z' {
        Some(c as int - 'a' as int + 26)
    } else if '0' <= c <= '9' {
        Some(c as int - '0' as int + 52)
    } else if c == '+' {
        Some(62)
    } else if c == '/' {
        Some(63)
    } else {
        None
    }
}

/// Three bytes as four digits.
pub open spec fn quad(a: u8, b: u8, c: u8) -> Seq<char> {
    seq![
        digit64(a as int / 4),
        digit64(a as int % 4 * 16 + b as int / 16),
        digit64(b as int % 16 * 4 + c as int / 64),
        digit64(c as int % 64),
    ]
}

/// The encoding of `s`: four digits for three bytes, the last four padded.
pub open spec fn encoded(s: Seq<u8>) -> Seq<char>
    decreases s.len(),
{
    if s.len() == 0 {
        Seq::empty()
    } else if s.len() == 1 {
        quad(s[0], 0, 0).subrange(0, 2) + seq!['=', '=']
    } else if s.len() == 2 {
        quad(s[0], s[1], 0).subrange(0, 3) + seq!['=']
    } else {
        quad(s[0], s[1], s[2]) + encoded(s.subrange(3, s.len() as int))
    }
}

/// The three bytes of four digits.
pub open spec fn unquad(a: int, b: int, c: int, d: int) -> Seq<u8> {
    seq![(a * 4 + b / 16) as u8, (b % 16 * 16 + c / 4) as u8, (c % 4 * 64 + d) as u8]
}

/// The bytes that `t` encodes, where `t` is valid padded base64: fours of
/// digits, of which the last may end in one or two padding characters.
pub open spec fn decoded(t: Seq<char>) -> Option<Seq<u8>>
    decreases t.len(),
{
    if t.len() == 0 {
        Some(Seq::empty())
    } else if t.len() < 4 {
        None
    } else {
        match (value64(t[0]), value64(t[1]), value64(t[2]), value64(t[3])) {
            (Some(a), Some(b), Some(c), Some(d)) => match decoded(
                t.subrange(4, t.len() as int),
            ) {
                Some(rest) => Some(unquad(a, b, c, d) + rest),
                None => None,
            },
            (Some(a), Some(b), Some(c), None) => if t.len() == 4 && t[3] == '=' {
                Some(unquad(a, b, c, 0).subrange(0, 2))
            } else {
                None
            },
            (Some(a), Some(b), None, None) => if t.len() == 4 && t[2] == '=' && t[3] == '=' {
                Some(unquad(a, b, 0, 0).subrange(0, 1))
            } else {
                None
            },
            _ => None,
        }
    }
}

fn to_digit(d: u8) -> (c: char)
    requires
        d < 64,
    ensures
        c == digit64(d as int),
{
    if d < 26 {
        (65u8 + d) as char
    } else if d < 52 {
        (71u8 + d) as char
    } else if d < 62 {
        (d - 4) as char
    } else if d == 62 {
        '+'
    } else {
        '/'
    }
}

fn to_value(c: char) -> (r: Option<u8>)
    ensures
        r matches Some(v) ==> value64(c) == Some(v as int) && v < 64,
        r is None ==> value64(c) is None,
{
    if 'A' <= c && c <= 'Z' {
        Some((c as u32 - 'A' as u32) as u8)
    } else if 'a' <= c && c <= 'z' {
        Some((c as u32 - 'a' as u32) as u8 + 26)
    } else if '0' <= c && c <= '9' {
        Some((c as u32 - '0' as u32) as u8 + 52)
    } else if c == '+' {
        Some(62)
    } else if c == '/' {
        Some(63)
    } else {
        None
    }
}

/// Encode `bytes`.
#[must_use]
pub fn encode(bytes: &[u8]) -> (r: String)
    ensures
        r@ == encoded(bytes@),
{
    let mut out: String = String::new();
    let mut i: usize = 0;
    assert(bytes@.subrange(0, bytes@.len() as int) == bytes@);
    while bytes.len() - i >= 3
        invariant
            i <= bytes@.len(),
            out@ + encoded(bytes@.subrange(i as int, bytes@.len() as int)) == encoded(bytes@),
        decreases bytes.len() - i,
    {
        let ghost rest = bytes@.subrange(i as int, bytes@.len() as int);
        let ghost before = out@;
        let a: u8 = bytes[i];
        let b: u8 = bytes[i + 1];
        let c: u8 = bytes[i + 2];
        out.push(to_digit(a / 4));
        out.push(to_digit(a % 4 * 16 + b / 16));
        out.push(to_digit(b % 16 * 4 + c / 64));
        out.push(to_digit(c % 64));
        i += 3;
        proof {
            assert(rest.subrange(3, rest.len() as int) == bytes@.subrange(
                i as int,
                bytes@.len() as int,
            ));
            assert(out@ == before + quad(a, b, c));
            assert(out@ + encoded(rest.subrange(3, rest.len() as int)) == before + (quad(a, b, c)
                + encoded(rest.subrange(3, rest.len() as int))));
        }
    }
    let ghost rest = bytes@.subrange(i as int, bytes@.len() as int);
    let ghost before = out@;
    if bytes.len() - i == 1 {
        let a: u8 = bytes[i];
        out.push(to_digit(a / 4));
        out.push(to_digit(a % 4 * 16));
        out.push('=');
        out.push('=');
        assert(out@ == before + encoded(rest));
    } else if bytes.len() - i == 2 {
        let a: u8 = bytes[i];
        let b: u8 = bytes[i + 1];
        out.push(to_digit(a / 4));
        out.push(to_digit(a % 4 * 16 + b / 16));
        out.push(to_digit(b % 16 * 4));
        out.push('=');
        assert(out@ == before + encoded(rest));
    } else {
        assert(before + encoded(rest) == before);
    }
    out
}

/// Decode `text`, or `None` if it is not valid padded base64.
#[must_use]
pub fn decode(text: &str) -> (r: Option<Vec<u8>>)
    ensures
        r is Some <==> decoded(text@) is Some,
        r matches Some(v) ==> v@ == decoded(text@)->0,
{
    let chars: Vec<char> = chars_of(text);
    let t: &[char] = chars.as_slice();
    let mut out: Vec<u8> = Vec::new();
    let mut i: usize = 0;
    assert(t@.subrange(0, t@.len() as int) == t@);
    while i < t.len()
        invariant
            t@ == text@,
            i <= t@.len(),
            decoded(text@) is Some <==> decoded(t@.subrange(i as int, t@.len() as int)) is Some,
            decoded(text@) is Some ==> decoded(text@)->0 == out@ + decoded(
                t@.subrange(i as int, t@.len() as int),
            )->0,
        decreases t.len() - i,
    {
        let ghost rest = t@.subrange(i as int, t@.len() as int);
        let ghost before = out@;
        if t.len() - i < 4 {
            return None;
        }
        let last: bool = t.len() - i == 4;
        proof {
            assert(rest.subrange(4, rest.len() as int) == t@.subrange(i + 4, t@.len() as int));
        }
        let a: u8 = match to_value(t[i]) {
            Some(v) => v,
            None => {
                return None;
            },
        };
        let b: u8 = match to_value(t[i + 1]) {
            Some(v) => v,
            None => {
                return None;
            },
        };
        match (to_value(t[i + 2]), to_value(t[i + 3])) {
            (Some(c), Some(d)) => {
                out.push(a * 4 + b / 16);
                out.push(b % 16 * 16 + c / 4);
                out.push(c % 4 * 64 + d);
                proof {
                    let tail = rest.subrange(4, rest.len() as int);
                    assert(out@ == before + unquad(a as int, b as int, c as int, d as int));
                    if decoded(tail) is Some {
                        assert(before + decoded(rest)->0 == out@ + decoded(tail)->0);
                    }
                }
            },
            (Some(c), None) => {
                if !last || t[i + 3] != '=' {
                    return None;
                }
                out.push(a * 4 + b / 16);
                out.push(b % 16 * 16 + c / 4);
                proof {
                    assert(out@ == before + unquad(a as int, b as int, c as int, 0).subrange(0, 2));
                    assert(decoded(Seq::<char>::empty()) == Some(Seq::<u8>::empty()));
                    assert(rest.subrange(4, 4) =~= Seq::empty());
                    assert(out@ + Seq::<u8>::empty() == out@);
                }
            },
            (None, None) => {
                if !last || t[i + 2] != '=' || t[i + 3] != '=' {
                    return None;
                }
                out.push(a * 4 + b / 16);
                proof {
                    assert(out@ == before + unquad(a as int, b as int, 0, 0).subrange(0, 1));
                    assert(decoded(Seq::<char>::empty()) == Some(Seq::<u8>::empty()));
                    assert(rest.subrange(4, 4) =~= Seq::empty());
                    assert(out@ + Seq::<u8>::empty() == out@);
                }
            },
            (None, Some(_)) => {
                return None;
            },
        }
        i += 4;
    }
    assert(t@.subrange(i as int, t@.len() as int) =~= Seq::empty());
    assert(out@ + Seq::<u8>::empty() == out@);
    Some(out)
}

proof fn lemma_digit_value(d: int)
    requires
        0 <= d < 64,
    ensures
        value64(digit64(d)) == Some(d),
{
}

/// What was encoded decodes to itself, whatever the bytes.
#[verifier::rlimit(60)]
#[verifier::spinoff_prover]
pub proof fn law_b64_round_trip(s: Seq<u8>)
    ensures
        decoded(encoded(s)) == Some(s),
    decreases s.len(),
{
    let t = encoded(s);
    if s.len() == 0 {
        assert(s =~= Seq::empty());
    } else {
        let (a, b, c) = (
            s[0],
            if s.len() > 1 {
                s[1]
            } else {
                0
            },
            if s.len() > 2 {
                s[2]
            } else {
                0
            },
        );
        lemma_digit_value(a as int / 4);
        lemma_digit_value(a as int % 4 * 16 + b as int / 16);
        lemma_digit_value(b as int % 16 * 4 + c as int / 64);
        lemma_digit_value(c as int % 64);
        assert(t[0] == digit64(a as int / 4));
        assert(t[1] == digit64(a as int % 4 * 16 + b as int / 16));
        let all = unquad(
            a as int / 4,
            a as int % 4 * 16 + b as int / 16,
            b as int % 16 * 4 + c as int / 64,
            c as int % 64,
        );
        assert(all[0] == a && all[1] == b && all[2] == c);
        if s.len() == 1 {
            assert(value64('=') is None);
            assert(t.len() == 4 && t[2] == '=' && t[3] == '=');
            assert(decoded(t)->0 =~= s);
        } else if s.len() == 2 {
            assert(value64('=') is None);
            assert(t[2] == digit64(b as int % 16 * 4 + c as int / 64));
            assert(t.len() == 4 && t[3] == '=');
            assert(decoded(t)->0 =~= s);
        } else {
            let rest = s.subrange(3, s.len() as int);
            law_b64_round_trip(rest);
            assert(t.subrange(4, t.len() as int) == encoded(rest));
            assert(t[2] == digit64(b as int % 16 * 4 + c as int / 64));
            assert(t[3] == digit64(c as int % 64));
            assert(all + rest == s);
        }
    }
}

/// Every three bytes, the last ones too, take four characters.
pub proof fn law_b64_length(s: Seq<u8>)
    ensures
        encoded(s).len() == (s.len() + 2) / 3 * 4,
    decreases s.len(),
{
    if s.len() >= 3 {
        law_b64_length(s.subrange(3, s.len() as int));
    }
}

/// Three bytes and the four characters they take are the same twenty-four
/// bits, six to a character.
pub proof fn law_b64_keeps_the_bits(s: Seq<u8>)
    requires
        s.len() >= 3,
    ensures
        ({
            let t = encoded(s);
            let (a, b, c, d) = (value64(t[0]), value64(t[1]), value64(t[2]), value64(t[3]));
            &&& t.len() >= 4
            &&& a is Some && b is Some && c is Some && d is Some
            &&& a->0 * 0x4_0000 + b->0 * 0x1000 + c->0 * 0x40 + d->0 == s[0] * 0x1_0000 + s[1]
                * 0x100 + s[2]
            &&& t.subrange(4, t.len() as int) == encoded(s.subrange(3, s.len() as int))
        }),
{
    let t = encoded(s);
    let rest = encoded(s.subrange(3, s.len() as int));
    assert(t.subrange(4, t.len() as int) =~= rest);
    let (a, b, c) = (s[0] as int, s[1] as int, s[2] as int);
    assert(t[0] == digit64(a / 4));
    assert(t[1] == digit64(a % 4 * 16 + b / 16));
    assert(t[2] == digit64(b % 16 * 4 + c / 64));
    assert(t[3] == digit64(c % 64));
}

/// The alphabet: the letters, upper case first, the digits, plus and slash.
pub proof fn law_b64_alphabet(d: int)
    requires
        0 <= d < 64,
    ensures
        value64(digit64(d)) == Some(d),
        d < 26 ==> digit64(d) as int == 65 + d,
        26 <= d < 52 ==> digit64(d) as int == 97 + d - 26,
        52 <= d < 62 ==> digit64(d) as int == 48 + d - 52,
        d == 62 ==> digit64(d) == '+',
        d == 63 ==> digit64(d) == '/',
        value64('=') is None,
{
}

/// What is not in fours, or holds a character outside the alphabet in front of
/// its padding, is not read.
pub proof fn law_b64_refuses_the_rest(t: Seq<char>)
    ensures
        decoded(t) is Some ==> t.len() % 4 == 0,
        t.len() > 0 && value64(t[0]) is None ==> decoded(t) is None,
        t.len() > 1 && value64(t[1]) is None ==> decoded(t) is None,
    decreases t.len(),
{
    if t.len() >= 4 {
        law_b64_refuses_the_rest(t.subrange(4, t.len() as int));
    }
}

} // verus!
