//! The seam to a program compiler: the byte-level control-plane encoding that
//! generated code speaks, and the refusal of programs the switch cannot
//! honour.
use crate::bytes::{be16_bytes, be32_bytes};
use crate::text::chars_of;
use crate::value::TypedVal;
use vstd::prelude::*;

verus! {

/// A value's big-endian (wire) representation, which is also the natural order
/// for the address types.
pub open spec fn wire_image(v: TypedVal) -> Seq<u8> {
    match v {
        TypedVal::U8(x) => seq![x],
        TypedVal::U16(x) => be16_bytes(x as int),
        TypedVal::U32(x) => be32_bytes(x as int),
        TypedVal::Mac(m) => m.spec_octets(),
        TypedVal::Ipv4(a) => a.spec_octets(),
    }
}

/// A value's big-endian (wire) representation.
fn wire_bytes(v: TypedVal) -> (r: Vec<u8>)
    ensures
        r@ == wire_image(v),
{
    let mut out: Vec<u8> = Vec::new();
    match v {
        TypedVal::U8(x) => {
            out.push(x);
            assert(out@ =~= wire_image(v));
        },
        TypedVal::U16(x) => {
            out.push((x / 0x100) as u8);
            out.push((x % 0x100) as u8);
            assert(out@ =~= wire_image(v));
        },
        TypedVal::U32(x) => {
            out.push((x / 0x100_0000) as u8);
            out.push((x / 0x1_0000 % 0x100) as u8);
            out.push((x / 0x100 % 0x100) as u8);
            out.push((x % 0x100) as u8);
            assert(out@ =~= wire_image(v));
        },
        TypedVal::Mac(m) => {
            let octets: [u8; 6] = m.octets();
            let mut i: usize = 0;
            while i < 6
                invariant
                    i <= 6,
                    out@ == octets@.subrange(0, i as int),
                decreases 6 - i,
            {
                out.push(octets[i]);
                i += 1;
                assert(octets@.subrange(0, i as int) == octets@.subrange(0, i - 1).push(
                    octets@[i - 1],
                ));
            }
            assert(octets@.subrange(0, 6) == octets@);
        },
        TypedVal::Ipv4(a) => {
            let octets: [u8; 4] = a.octets();
            let mut i: usize = 0;
            while i < 4
                invariant
                    i <= 4,
                    out@ == octets@.subrange(0, i as int),
                decreases 4 - i,
            {
                out.push(octets[i]);
                i += 1;
                assert(octets@.subrange(0, i as int) == octets@.subrange(0, i - 1).push(
                    octets@[i - 1],
                ));
            }
            assert(octets@.subrange(0, 4) == octets@);
        },
    }
    out
}

/// Encode an exact-match key field: little-endian.
#[must_use]
pub fn exact_key(v: TypedVal) -> (r: Vec<u8>)
    ensures
        r@ == wire_image(v).reverse(),
{
    let bytes: Vec<u8> = wire_bytes(v);
    let mut out: Vec<u8> = Vec::new();
    let mut i: usize = bytes.len();
    while i > 0
        invariant
            i <= bytes@.len(),
            out@ == bytes@.reverse().subrange(0, bytes@.len() - i),
        decreases i,
    {
        i -= 1;
        out.push(bytes[i]);
        assert(out@ =~= bytes@.reverse().subrange(0, bytes@.len() - i));
    }
    assert(bytes@.reverse().subrange(0, bytes@.len() as int) == bytes@.reverse());
    out
}

/// Encode a prefix key field: wire (big-endian) byte order.
#[must_use]
pub fn lpm_key(v: TypedVal) -> (r: Vec<u8>)
    ensures
        r@ == wire_image(v),
{
    wire_bytes(v)
}

/// Encode an action parameter: little-endian.
#[must_use]
pub fn action_param(v: TypedVal) -> (r: Vec<u8>)
    ensures
        r@ == wire_image(v).reverse(),
{
    exact_key(v)
}

/// Whether `needle` stands in `s` at `at`.
pub open spec fn stands_at(s: Seq<char>, needle: Seq<char>, at: int) -> bool {
    0 <= at && at + needle.len() <= s.len() && s.subrange(at, at + needle.len()) == needle
}

/// Whether `needle` stands in `s` anywhere.
pub open spec fn occurs(s: Seq<char>, needle: Seq<char>) -> bool {
    exists|at: int| #[trigger] stands_at(s, needle, at)
}

/// Whether `needle` stands in `s`.
fn has(s: &[char], needle: &str) -> (r: bool)
    ensures
        r == occurs(s@, needle@),
{
    let n: Vec<char> = chars_of(needle);
    let mut at: usize = 0;
    while at <= s.len()
        invariant
            n@ == needle@,
            at <= s@.len() + 1,
            forall|i: int| 0 <= i < at ==> !(#[trigger] stands_at(s@, needle@, i)),
        decreases s.len() + 1 - at,
    {
        if s.len() - at < n.len() {
            assert forall|i: int| !(#[trigger] stands_at(s@, needle@, i)) by {}
            return false;
        }
        let mut k: usize = 0;
        while k < n.len() && s[at + k] == n[k]
            invariant
                k <= n@.len(),
                at + n@.len() <= s@.len(),
                s@.len() <= usize::MAX,
                s@.subrange(at as int, at + k) == n@.subrange(0, k as int),
            decreases n.len() - k,
        {
            k += 1;
            assert(s@.subrange(at as int, at + k) == s@.subrange(at as int, at + k - 1).push(
                s@[at + k - 1],
            ));
            assert(n@.subrange(0, k as int) == n@.subrange(0, k - 1).push(n@[k - 1]));
        }
        if k == n.len() {
            assert(n@.subrange(0, k as int) == n@);
            assert(stands_at(s@, needle@, at as int));
            return true;
        }
        proof {
            if stands_at(s@, needle@, at as int) {
                assert(s@.subrange(at as int, at + n@.len())[k as int] == n@[k as int]);
            }
        }
        if at == s.len() {
            assert forall|i: int| !(#[trigger] stands_at(s@, needle@, i)) by {}
            return false;
        }
        at += 1;
    }
    false
}

/// What follows the end of the line that `s` starts in.
pub open spec fn after_line(s: Seq<char>) -> Seq<char>
    decreases s.len(),
{
    if s.len() == 0 {
        s
    } else if s[0] == '\n' {
        s.subrange(1, s.len() as int)
    } else {
        after_line(s.subrange(1, s.len() as int))
    }
}

/// What follows the first end of a block comment in `s`.
pub open spec fn after_block(s: Seq<char>) -> Seq<char>
    decreases s.len(),
{
    if s.len() < 2 {
        Seq::empty()
    } else if s[0] == '*' && s[1] == '/' {
        s.subrange(2, s.len() as int)
    } else {
        after_block(s.subrange(1, s.len() as int))
    }
}

pub proof fn lemma_after_shrinks(s: Seq<char>)
    ensures
        after_line(s).len() <= s.len(),
        after_block(s).len() <= s.len(),
    decreases s.len(),
{
    if s.len() > 0 {
        lemma_after_shrinks(s.subrange(1, s.len() as int));
    }
}

/// A program without its comments: `//` up to and with the end of the line,
/// and `/*` up to and with `*/`; an unterminated one runs to the end.
pub open spec fn code_of(s: Seq<char>) -> Seq<char>
    decreases s.len(),
{
    if s.len() == 0 {
        s
    } else if s.len() >= 2 && s[0] == '/' && s[1] == '/' {
        let rest = after_line(s.subrange(2, s.len() as int));
        proof {
            lemma_after_shrinks(s.subrange(2, s.len() as int));
        }
        if rest.len() < s.len() {
            code_of(rest)
        } else {
            Seq::empty()
        }
    } else if s.len() >= 2 && s[0] == '/' && s[1] == '*' {
        let rest = after_block(s.subrange(2, s.len() as int));
        proof {
            lemma_after_shrinks(s.subrange(2, s.len() as int));
        }
        if rest.len() < s.len() {
            code_of(rest)
        } else {
            Seq::empty()
        }
    } else {
        seq![s[0]] + code_of(s.subrange(1, s.len() as int))
    }
}

fn skip_line(s: &[char], from: usize) -> (r: usize)
    requires
        from <= s@.len(),
    ensures
        from <= r <= s@.len(),
        s@.subrange(r as int, s@.len() as int) == after_line(
            s@.subrange(from as int, s@.len() as int),
        ),
{
    let mut i: usize = from;
    while i < s.len()
        invariant
            from <= i <= s@.len(),
            after_line(s@.subrange(from as int, s@.len() as int)) == after_line(
                s@.subrange(i as int, s@.len() as int),
            ),
        decreases s.len() - i,
    {
        let ghost t = s@.subrange(i as int, s@.len() as int);
        assert(t.subrange(1, t.len() as int) == s@.subrange(i + 1, s@.len() as int));
        if s[i] == '\n' {
            return i + 1;
        }
        i += 1;
    }
    i
}

fn skip_block(s: &[char], from: usize) -> (r: usize)
    requires
        from <= s@.len(),
    ensures
        from <= r <= s@.len(),
        s@.subrange(r as int, s@.len() as int) == after_block(
            s@.subrange(from as int, s@.len() as int),
        ),
{
    let mut i: usize = from;
    while s.len() - i >= 2
        invariant
            from <= i <= s@.len(),
            after_block(s@.subrange(from as int, s@.len() as int)) == after_block(
                s@.subrange(i as int, s@.len() as int),
            ),
        decreases s.len() - i,
    {
        let ghost t = s@.subrange(i as int, s@.len() as int);
        assert(t.subrange(1, t.len() as int) == s@.subrange(i + 1, s@.len() as int));
        assert(t.subrange(2, t.len() as int) == s@.subrange(i + 2, s@.len() as int));
        if s[i] == '*' && s[i + 1] == '/' {
            return i + 2;
        }
        i += 1;
    }
    assert(s@.subrange(s@.len() as int, s@.len() as int) =~= Seq::empty());
    s.len()
}

/// Drop `//` and `/* */` comments, so prose about queueing does not fail a
/// build and a comment cannot hide a denied identifier.
fn strip_comments(source: &str) -> (r: Vec<char>)
    ensures
        r@ == code_of(source@),
{
    let text: Vec<char> = chars_of(source);
    let s: &[char] = text.as_slice();
    let mut out: Vec<char> = Vec::new();
    let mut i: usize = 0;
    assert(s@.subrange(0, s@.len() as int) == s@);
    while i < s.len()
        invariant
            i <= s@.len(),
            s@ == source@,
            out@ + code_of(s@.subrange(i as int, s@.len() as int)) == code_of(s@),
        decreases s.len() - i,
    {
        let ghost t = s@.subrange(i as int, s@.len() as int);
        proof {
            assert(t.subrange(1, t.len() as int) == s@.subrange(i + 1, s@.len() as int));
            if t.len() >= 2 {
                assert(t.subrange(2, t.len() as int) == s@.subrange(i + 2, s@.len() as int));
                lemma_after_shrinks(t.subrange(2, t.len() as int));
            }
        }
        if s.len() - i >= 2 && s[i] == '/' && s[i + 1] == '/' {
            i = skip_line(s, i + 2);
        } else if s.len() - i >= 2 && s[i] == '/' && s[i + 1] == '*' {
            i = skip_block(s, i + 2);
        } else {
            let ghost before = out@;
            out.push(s[i]);
            i += 1;
            assert(before + (seq![t[0]] + code_of(t.subrange(1, t.len() as int))) == out@
                + code_of(s@.subrange(i as int, s@.len() as int)));
        }
    }
    assert(out@ + code_of(s@.subrange(i as int, s@.len() as int)) == out@);
    out
}

/// Whether the code asks for a traffic manager.
pub open spec fn asks_for_queues(code: Seq<char>) -> bool {
    ||| occurs(code, "queue_depth"@)
    ||| occurs(code, "enq_qdepth"@)
    ||| occurs(code, "deq_qdepth"@)
    ||| occurs(code, "deq_timedelta"@)
}

/// Reject program sources that ask for hardware the switch does not model.
///
/// A substring denylist is the whole mechanism, deliberately: build-time
/// refusal must not require a parser. Returns the message to fail with, or
/// `None` if the program is loadable.
#[must_use]
pub fn refuse_reason(source: &str) -> (r: Option<&'static str>)
    ensures
        asks_for_queues(code_of(source@)) ==> r is Some && r->0@
            == "no traffic manager in up4 v1"@,
        !asks_for_queues(code_of(source@)) && occurs(code_of(source@), "meter"@) ==> r is Some
            && r->0@ == "no meters in up4 v1"@,
        !asks_for_queues(code_of(source@)) && !occurs(code_of(source@), "meter"@) ==> r is None,
{
    let text: Vec<char> = strip_comments(source);
    let code: &[char] = text.as_slice();
    if has(code, "queue_depth") || has(code, "enq_qdepth") || has(code, "deq_qdepth") || has(
        code,
        "deq_timedelta",
    ) {
        Some("no traffic manager in up4 v1")
    } else if has(code, "meter") {
        Some("no meters in up4 v1")
    } else {
        None
    }
}

/// A program without a slash is all code: nothing is stripped from it.
pub proof fn law_code_without_slashes_is_kept(s: Seq<char>)
    requires
        !s.contains('/'),
    ensures
        code_of(s) == s,
    decreases s.len(),
{
    if s.len() > 0 {
        let t = s.subrange(1, s.len() as int);
        assert(s[0] != '/');
        assert forall|i: int| 0 <= i < t.len() implies t[i] != '/' by {
            assert(t[i] == s[i + 1]);
        }
        law_code_without_slashes_is_kept(t);
        assert(seq![s[0]] + t == s);
    }
}

/// A value is handed over most significant byte first: the bytes of it, in
/// that order, make the value.
pub proof fn law_values_go_out_big_endian(v: TypedVal)
    ensures
        ({
            let b = wire_image(v);
            match v {
                TypedVal::U8(x) => b.len() == 1 && b[0] == x,
                TypedVal::U16(x) => b.len() == 2 && b[0] * 0x100 + b[1] == x,
                TypedVal::U32(x) => b.len() == 4 && b[0] * 0x100_0000 + b[1] * 0x1_0000 + b[2]
                    * 0x100 + b[3] == x,
                TypedVal::Mac(m) => b.len() == 6 && b[0] * 0x100 + b[1] == m.hi && b[2]
                    * 0x100_0000 + b[3] * 0x1_0000 + b[4] * 0x100 + b[5] == m.lo,
                TypedVal::Ipv4(a) => b.len() == 4 && b[0] * 0x100_0000 + b[1] * 0x1_0000 + b[2]
                    * 0x100 + b[3] == a.bits,
            }
        }),
{
    match v {
        TypedVal::U8(_) => {},
        TypedVal::U16(x) => crate::bytes::lemma_be16_round_trip(x as int),
        TypedVal::U32(x) => crate::bytes::lemma_be32_round_trip(x as int),
        TypedVal::Mac(m) => {
            crate::bytes::lemma_be16_round_trip(m.hi as int);
            crate::bytes::lemma_be32_round_trip(m.lo as int);
            let b = wire_image(v);
            let (h, l) = (be16_bytes(m.hi as int), be32_bytes(m.lo as int));
            assert(b[0] == h[0] && b[1] == h[1] && b[2] == l[0] && b[3] == l[1] && b[4] == l[2]
                && b[5] == l[3]);
        },
        TypedVal::Ipv4(a) => crate::bytes::lemma_be32_round_trip(a.bits as int),
    }
}

proof fn lemma_after_line(s: Seq<char>, k: int)
    requires
        0 <= k < s.len(),
        s[k] == '\n',
        forall|i: int| 0 <= i < k ==> (#[trigger] s[i]) != '\n',
    ensures
        after_line(s) == s.subrange(k + 1, s.len() as int),
    decreases k,
{
    if k > 0 {
        let t = s.subrange(1, s.len() as int);
        assert forall|i: int| 0 <= i < k - 1 implies (#[trigger] t[i]) != '\n' by {
            assert(t[i] == s[i + 1]);
        }
        lemma_after_line(t, k - 1);
        assert(t.subrange(k, t.len() as int) =~= s.subrange(k + 1, s.len() as int));
    }
}

proof fn lemma_after_block(s: Seq<char>, k: int)
    requires
        0 <= k,
        k + 2 <= s.len(),
        s[k] == '*' && s[k + 1] == '/',
        forall|i: int| 0 <= i < k ==> !((#[trigger] s[i]) == '*' && s[i + 1] == '/'),
    ensures
        after_block(s) == s.subrange(k + 2, s.len() as int),
    decreases k,
{
    if k > 0 {
        let t = s.subrange(1, s.len() as int);
        assert(!(s[0] == '*' && s[1] == '/'));
        assert forall|i: int| 0 <= i < k - 1 implies !((#[trigger] t[i]) == '*' && t[i + 1]
            == '/') by {
            assert(t[i] == s[i + 1]);
            assert(t[i + 1] == s[i + 2]);
        }
        lemma_after_block(t, k - 1);
        assert(t.subrange(k + 1, t.len() as int) =~= s.subrange(k + 2, s.len() as int));
    }
}

/// Comments are dropped and nothing else is: a line comment goes up to and with
/// the end of its line, a block comment up to and with its first end, and every
/// other character stays.
pub proof fn law_only_comments_are_dropped(comment: Seq<char>, rest: Seq<char>, c: char)
    ensures
        (forall|i: int| 0 <= i < comment.len() ==> (#[trigger] comment[i]) != '\n') ==> code_of(
            seq!['/', '/'] + comment + seq!['\n'] + rest,
        ) == code_of(rest),
        (forall|i: int| 0 <= i < comment.len() ==> (#[trigger] comment[i]) != '*') ==> code_of(
            seq!['/', '*'] + comment + seq!['*', '/'] + rest,
        ) == code_of(rest),
        c != '/' ==> code_of(seq![c] + rest) == seq![c] + code_of(rest),
        rest.len() == 0 || (rest[0] != '/' && rest[0] != '*') ==> code_of(seq!['/'] + rest)
            == seq!['/'] + code_of(rest),
{
    let line = seq!['/', '/'] + comment + seq!['\n'] + rest;
    let block = seq!['/', '*'] + comment + seq!['*', '/'] + rest;
    let n = comment.len() as int;
    if forall|i: int| 0 <= i < comment.len() ==> (#[trigger] comment[i]) != '\n' {
        let body = line.subrange(2, line.len() as int);
        assert(line[0] == '/' && line[1] == '/');
        assert forall|i: int| 0 <= i < n implies (#[trigger] body[i]) != '\n' by {
            assert(body[i] == comment[i]);
        }
        assert(body[n] == '\n');
        lemma_after_line(body, n);
        assert(body.subrange(n + 1, body.len() as int) =~= rest);
    }
    if forall|i: int| 0 <= i < comment.len() ==> (#[trigger] comment[i]) != '*' {
        let body = block.subrange(2, block.len() as int);
        assert(block[0] == '/' && block[1] == '*');
        assert forall|i: int| 0 <= i < n implies !((#[trigger] body[i]) == '*' && body[i + 1]
            == '/') by {
            assert(body[i] == comment[i]);
        }
        assert(body[n] == '*' && body[n + 1] == '/');
        lemma_after_block(body, n);
        assert(body.subrange(n + 2, body.len() as int) =~= rest);
    }
    let one = seq![c] + rest;
    assert(one[0] == c);
    assert(one.subrange(1, one.len() as int) =~= rest);
    let slash = seq!['/'] + rest;
    assert(slash[0] == '/');
    assert(slash.subrange(1, slash.len() as int) =~= rest);
    if rest.len() > 0 {
        assert(slash[1] == rest[0]);
    }
}

/// Any of the four names of queue state asks for a traffic manager, wherever
/// in the code it stands.
pub proof fn law_queue_state_is_noticed(before: Seq<char>, after: Seq<char>)
    ensures
        asks_for_queues(before + "queue_depth"@ + after),
        asks_for_queues(before + "enq_qdepth"@ + after),
        asks_for_queues(before + "deq_qdepth"@ + after),
        asks_for_queues(before + "deq_timedelta"@ + after),
{
    lemma_stands(before, "queue_depth"@, after);
    lemma_stands(before, "enq_qdepth"@, after);
    lemma_stands(before, "deq_qdepth"@, after);
    lemma_stands(before, "deq_timedelta"@, after);
}

proof fn lemma_stands(before: Seq<char>, needle: Seq<char>, after: Seq<char>)
    ensures
        occurs(before + needle + after, needle),
{
    let s = before + needle + after;
    assert(s.subrange(before.len() as int, (before.len() + needle.len()) as int) =~= needle);
    assert(stands_at(s, needle, before.len() as int));
}

} // verus!
