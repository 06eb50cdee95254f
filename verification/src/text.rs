//! Text: characters in, numbers and fields out, and back.
//!
//! Strings are modelled by their sequence of characters. Every text an
//! operator types is read by a function here, and every text the switch shows
//! is built by one.
use vstd::prelude::*;
use vstd::utf8::{decode_utf8, valid_utf8};

verus! {

/// `String::push` appends its character to the end of the string.
pub assume_specification[ String::push ](s: &mut String, c: char)
    ensures
        final(s)@ == old(s)@.push(c),
;

/// The `Debug` rendering of a string: quoted, with the escapes of the
/// standard library.
pub uninterp spec fn quoted(s: Seq<char>) -> Seq<char>;

/// The `{:?}` rendering of a `str` by `format!`. What it is, character by
/// character, is left to the standard library; it depends on the text alone.
#[verifier::external_body]
pub(crate) fn debug_text(s: &str) -> (r: String)
    ensures
        r@ == quoted(s@),
{
    format!("{s:?}")
}

/// What `String::from_utf8_lossy` makes of bytes.
pub uninterp spec fn lossy(bytes: Seq<u8>) -> Seq<char>;

/// `String::from_utf8_lossy`: valid UTF-8 is decoded. What stands for the
/// invalid parts of other bytes is left to the standard library; it depends on
/// the bytes alone.
#[verifier::external_body]
fn text_of_bytes(bytes: &[u8]) -> (r: String)
    ensures
        r@ == lossy(bytes@),
        valid_utf8(bytes@) ==> r@ == decode_utf8(bytes@),
{
    String::from_utf8_lossy(bytes).into_owned()
}

/// The bytes of `s` before its first zero.
pub open spec fn until_nul(s: Seq<u8>) -> Seq<u8>
    decreases s.len(),
{
    if s.len() == 0 || s[0] == 0 {
        Seq::empty()
    } else {
        seq![s[0]] + until_nul(s.subrange(1, s.len() as int))
    }
}

proof fn lemma_until_nul(s: Seq<u8>, k: int)
    requires
        0 <= k <= s.len(),
        forall|j: int| 0 <= j < k ==> s[j] != 0,
        k < s.len() ==> s[k] == 0,
    ensures
        until_nul(s) == s.subrange(0, k),
    decreases k,
{
    if k > 0 {
        let t = s.subrange(1, s.len() as int);
        lemma_until_nul(t, k - 1);
        assert(seq![s[0]] + t.subrange(0, k - 1) == s.subrange(0, k));
    } else {
        assert(s.subrange(0, 0) == Seq::<u8>::empty());
    }
}

/// The text of a C string field: what stands before its first zero.
#[must_use]
pub fn c_string(field: &[u8]) -> (r: String)
    ensures
        r@ == lossy(until_nul(field@)),
        valid_utf8(until_nul(field@)) ==> r@ == decode_utf8(until_nul(field@)),
{
    let mut k: usize = 0;
    while k < field.len() && field[k] != 0
        invariant
            k <= field@.len(),
            forall|j: int| 0 <= j < k ==> field@[j] != 0,
        decreases field.len() - k,
    {
        k += 1;
    }
    proof {
        lemma_until_nul(field@, k as int);
    }
    text_of_bytes(&field[0..k])
}

/// The characters of each of `v`.
pub open spec fn texts(v: Seq<String>) -> Seq<Seq<char>> {
    Seq::new(v.len(), |i: int| v[i]@)
}

/// The characters of `s`.
pub fn chars_of(s: &str) -> (v: Vec<char>)
    ensures
        v@ == s@,
{
    broadcast use vstd::string::axiom_spec_iter;

    let mut v: Vec<char> = Vec::new();
    for c in it: s.chars()
        invariant
            v@ == it.seq().subrange(0, it.index() as int),
            it.seq() == s@,
    {
        v.push(c);
        assert(v@ == it.seq().subrange(0, it.index() as int + 1));
    }
    assert(s@.subrange(0, s@.len() as int) == s@);
    v
}

/// The string made of `v`.
pub fn string_of(v: &[char]) -> (s: String)
    ensures
        s@ == v@,
{
    let mut s: String = String::new();
    let mut i: usize = 0;
    while i < v.len()
        invariant
            i <= v.len(),
            s@ == v@.subrange(0, i as int),
        decreases v.len() - i,
    {
        s.push(v[i]);
        i += 1;
        assert(v@.subrange(0, i as int) == v@.subrange(0, i - 1).push(v@[i - 1]));
    }
    assert(v@.subrange(0, i as int) == v@);
    s
}

/// Whether two texts are the same.
pub fn same(a: &str, b: &str) -> (r: bool)
    ensures
        r == (a@ == b@),
{
    let x: Vec<char> = chars_of(a);
    let y: Vec<char> = chars_of(b);
    same_chars(x.as_slice(), y.as_slice())
}

/// Whether two runs of characters are the same.
pub fn same_chars(x: &[char], y: &[char]) -> (r: bool)
    ensures
        r == (x@ == y@),
{
    if x.len() != y.len() {
        return false;
    }
    let mut i: usize = 0;
    while i < x.len()
        invariant
            i <= x.len(),
            x@.len() == y@.len(),
            forall|j: int| 0 <= j < i ==> x@[j] == y@[j],
        decreases x.len() - i,
    {
        if x[i] != y[i] {
            return false;
        }
        i += 1;
    }
    assert(x@ == y@);
    true
}

/// The value of `c` as a digit in `radix`, which is at most sixteen.
pub open spec fn digit_value(c: char, radix: int) -> Option<int> {
    let v = if '0' <= c <= '9' {
        c as int - '0' as int
    } else if 'a' <= c <= 'f' {
        c as int - 'a' as int + 10
    } else if 'A' <= c <= 'F' {
        c as int - 'A' as int + 10
    } else {
        16
    };
    if v < radix {
        Some(v)
    } else {
        None
    }
}

/// Whether every character of `s` is a digit in `radix`.
pub open spec fn all_digits(s: Seq<char>, radix: int) -> bool {
    forall|i: int| 0 <= i < s.len() ==> (#[trigger] digit_value(s[i], radix)) is Some
}

/// The number that the digits `s` spell in `radix`, most significant first.
pub open spec fn digits_value(s: Seq<char>, radix: int) -> int
    decreases s.len(),
{
    if s.len() == 0 {
        0
    } else {
        digits_value(s.drop_last(), radix) * radix + digit_value(s.last(), radix).unwrap_or(0)
    }
}

/// `s` without a leading plus sign.
pub open spec fn unsigned_part(s: Seq<char>) -> Seq<char> {
    if s.len() > 0 && s[0] == '+' {
        s.subrange(1, s.len() as int)
    } else {
        s
    }
}

/// The number that `s` spells: an optional plus sign, then one digit or more.
pub open spec fn number(s: Seq<char>, radix: int) -> Option<int> {
    let digits = unsigned_part(s);
    if digits.len() > 0 && all_digits(digits, radix) {
        Some(digits_value(digits, radix))
    } else {
        None
    }
}

/// `n` where it is present and at most `max`.
pub open spec fn at_most(n: Option<int>, max: int) -> Option<int> {
    match n {
        Some(v) if v <= max => Some(v),
        _ => None,
    }
}

proof fn lemma_digits_value_nonneg(s: Seq<char>, radix: int)
    requires
        2 <= radix <= 16,
    ensures
        0 <= digits_value(s, radix),
    decreases s.len(),
{
    if s.len() > 0 {
        lemma_digits_value_nonneg(s.drop_last(), radix);
        assert(digits_value(s.drop_last(), radix) * radix >= 0) by (nonlinear_arith)
            requires
                digits_value(s.drop_last(), radix) >= 0,
                radix >= 2,
        ;
    }
}

/// A longer run of digits spells no smaller a number.
proof fn lemma_digits_value_monotone(s: Seq<char>, i: int, radix: int)
    requires
        2 <= radix <= 16,
        0 <= i <= s.len(),
    ensures
        0 <= digits_value(s.subrange(0, i), radix) <= digits_value(s, radix),
    decreases s.len() - i,
{
    lemma_digits_value_nonneg(s.subrange(0, i), radix);
    if i < s.len() {
        let t = s.subrange(0, i + 1);
        assert(t.drop_last() == s.subrange(0, i));
        lemma_digits_value_monotone(s, i + 1, radix);
        let v = digits_value(s.subrange(0, i), radix);
        assert(v * radix >= v) by (nonlinear_arith)
            requires
                v >= 0,
                radix >= 2,
        ;
    } else {
        assert(s.subrange(0, i) == s);
    }
}

fn digit(c: char, radix: u32) -> (r: Option<u32>)
    requires
        2 <= radix <= 16,
    ensures
        r matches Some(v) ==> digit_value(c, radix as int) == Some(v as int) && v < 16,
        r is None ==> digit_value(c, radix as int) is None,
{
    let v: u32 = if '0' <= c && c <= '9' {
        c as u32 - '0' as u32
    } else if 'a' <= c && c <= 'f' {
        c as u32 - 'a' as u32 + 10
    } else if 'A' <= c && c <= 'F' {
        c as u32 - 'A' as u32 + 10
    } else {
        16
    };
    if v < radix {
        Some(v)
    } else {
        None
    }
}

/// Read `s` as an unsigned number in `radix`: an optional plus sign and then
/// digits, at least one, and no more than a `u64` holds.
pub fn parse_number(s: &[char], radix: u32) -> (r: Option<u64>)
    requires
        2 <= radix <= 16,
    ensures
        r matches Some(v) ==> number(s@, radix as int) == Some(v as int),
        r is None ==> at_most(number(s@, radix as int), u64::MAX as int) is None,
{
    let start: usize = if s.len() > 0 && s[0] == '+' {
        1
    } else {
        0
    };
    let ghost digits = unsigned_part(s@);
    assert(digits == s@.subrange(start as int, s@.len() as int));
    if s.len() == start {
        return None;
    }
    let mut value: u64 = 0;
    let mut i: usize = start;
    while i < s.len()
        invariant
            2 <= radix <= 16,
            start <= i <= s.len(),
            digits == s@.subrange(start as int, s@.len() as int),
            digits == unsigned_part(s@),
            digits.len() > 0,
            all_digits(digits.subrange(0, i - start), radix as int),
            value == digits_value(digits.subrange(0, i - start), radix as int),
        decreases s.len() - i,
    {
        let ghost k = i - start;
        assert(digits[k] == s@[i as int]);
        let d: u32 = match digit(s[i], radix) {
            Some(d) => d,
            None => {
                assert(digit_value(digits[k], radix as int) is None);
                return None;
            },
        };
        let ghost t = digits.subrange(0, k + 1);
        proof {
            assert(t.drop_last() == digits.subrange(0, k));
            assert(t.last() == digits[k]);
            assert(digits_value(t, radix as int) == value * radix + d);
            if value * radix + d > u64::MAX {
                lemma_digits_value_monotone(digits, k + 1, radix as int);
            }
        }
        let scaled: u64 = match value.checked_mul(radix as u64) {
            Some(x) => x,
            None => {
                return None;
            },
        };
        value = match scaled.checked_add(d as u64) {
            Some(x) => x,
            None => {
                return None;
            },
        };
        assert forall|j: int| 0 <= j < t.len() implies (#[trigger] digit_value(
            t[j],
            radix as int,
        )) is Some by {
            if j < k {
                assert(t[j] == digits.subrange(0, k)[j]);
            }
        }
        i += 1;
    }
    assert(digits.subrange(0, digits.len() as int) == digits);
    Some(value)
}

/// The decimal digit of `d`.
pub open spec fn decimal_digit(d: int) -> char {
    ('0' as int + d) as char
}

/// The decimal spelling of `n`.
pub open spec fn dec(n: int) -> Seq<char>
    decreases n,
{
    if n < 10 {
        seq![decimal_digit(n)]
    } else {
        dec(n / 10).push(decimal_digit(n % 10))
    }
}

/// The lower-case hexadecimal digit of `d`.
pub open spec fn hex_digit(d: int) -> char {
    if d < 10 {
        ('0' as int + d) as char
    } else {
        ('a' as int + d - 10) as char
    }
}

/// Two lower-case hexadecimal digits.
pub open spec fn hex2(b: u8) -> Seq<char> {
    seq![hex_digit(b as int / 16), hex_digit(b as int % 16)]
}

fn nibble(d: u8) -> (c: char)
    requires
        d < 16,
    ensures
        c == hex_digit(d as int),
{
    if d < 10 {
        (48u8 + d) as char
    } else {
        (87u8 + d) as char
    }
}

/// Append the decimal spelling of `n`.
pub fn push_dec(out: &mut String, n: u64)
    ensures
        final(out)@ == old(out)@ + dec(n as int),
    decreases n,
{
    if n >= 10 {
        push_dec(out, n / 10);
    }
    let d: u8 = (n % 10) as u8;
    out.push((48u8 + d) as char);
    proof {
        assert(old(out)@ + dec(n as int) == if n < 10 {
            old(out)@.push(decimal_digit(n as int))
        } else {
            (old(out)@ + dec(n as int / 10)).push(decimal_digit(n as int % 10))
        });
    }
}

/// The decimal spelling of `n`, with a sign where it is negative.
pub open spec fn dec_signed(n: int) -> Seq<char> {
    if n < 0 {
        "-"@ + dec(-n)
    } else {
        dec(n)
    }
}

/// Append the decimal spelling of `n`, with a sign where it is negative.
pub fn push_dec_signed(out: &mut String, n: i64)
    ensures
        final(out)@ == old(out)@ + dec_signed(n as int),
{
    if n < 0 {
        out.append("-");
        let ghost signed = out@;
        push_dec(out, (-(n as i128)) as u64);
        assert(old(out)@ + ("-"@ + dec(-(n as int))) == signed + dec(-(n as int)));
    } else {
        push_dec(out, n as u64);
    }
}

/// The lower-case hexadecimal spelling of `n`.
pub open spec fn spec_hex(n: int) -> Seq<char>
    decreases n,
{
    if n < 16 {
        seq![hex_digit(n)]
    } else {
        spec_hex(n / 16).push(hex_digit(n % 16))
    }
}

/// Append the lower-case hexadecimal spelling of `n`.
pub fn push_hex(out: &mut String, n: u64)
    ensures
        final(out)@ == old(out)@ + spec_hex(n as int),
    decreases n,
{
    if n >= 16 {
        push_hex(out, n / 16);
    }
    out.push(nibble((n % 16) as u8));
    proof {
        assert(old(out)@ + spec_hex(n as int) == if n < 16 {
            old(out)@.push(hex_digit(n as int))
        } else {
            (old(out)@ + spec_hex(n as int / 16)).push(hex_digit(n as int % 16))
        });
    }
}

/// Append two lower-case hexadecimal digits.
pub fn push_hex2(out: &mut String, b: u8)
    ensures
        final(out)@ == old(out)@ + hex2(b),
{
    out.push(nibble(b / 16));
    out.push(nibble(b % 16));
    assert(old(out)@ + hex2(b) == old(out)@.push(hex2(b)[0]).push(hex2(b)[1]));
}

/// The rows of `v`, each as its characters.
pub open spec fn rows(v: Seq<Vec<char>>) -> Seq<Seq<char>> {
    Seq::new(v.len(), |i: int| v[i]@)
}

/// `s` cut at every character that `seps` holds: one field more than there
/// are separators.
pub open spec fn fields(s: Seq<char>, seps: Seq<char>) -> Seq<Seq<char>>
    decreases s.len(),
{
    if s.len() == 0 {
        seq![Seq::empty()]
    } else {
        let before = fields(s.drop_last(), seps);
        if seps.contains(s.last()) {
            before.push(Seq::empty())
        } else {
            before.update(before.len() - 1, before.last().push(s.last()))
        }
    }
}

pub proof fn lemma_fields_nonempty(s: Seq<char>, seps: Seq<char>)
    ensures
        fields(s, seps).len() >= 1,
    decreases s.len(),
{
    if s.len() > 0 {
        lemma_fields_nonempty(s.drop_last(), seps);
    }
}

fn is_one_of(c: char, seps: &[char]) -> (r: bool)
    ensures
        r == seps@.contains(c),
{
    let mut i: usize = 0;
    while i < seps.len()
        invariant
            i <= seps.len(),
            forall|j: int| 0 <= j < i ==> seps@[j] != c,
        decreases seps.len() - i,
    {
        if seps[i] == c {
            return true;
        }
        i += 1;
    }
    false
}

/// Cut `s` at every character of `seps`.
pub fn split_fields(s: &[char], seps: &[char]) -> (r: Vec<Vec<char>>)
    ensures
        rows(r@) == fields(s@, seps@),
        r@.len() >= 1,
{
    let mut done: Vec<Vec<char>> = Vec::new();
    let mut current: Vec<char> = Vec::new();
    let mut i: usize = 0;
    while i < s.len()
        invariant
            i <= s.len(),
            rows(done@).push(current@) == fields(s@.subrange(0, i as int), seps@),
        decreases s.len() - i,
    {
        let ghost t = s@.subrange(0, i + 1);
        let ghost before = rows(done@).push(current@);
        proof {
            assert(t.drop_last() == s@.subrange(0, i as int));
            assert(t.last() == s@[i as int]);
        }
        if is_one_of(s[i], seps) {
            let mut fresh: Vec<char> = Vec::new();
            core::mem::swap(&mut fresh, &mut current);
            done.push(fresh);
            assert(rows(done@).push(current@) == before.push(Seq::empty()));
        } else {
            current.push(s[i]);
            assert(rows(done@).push(current@) == before.update(
                before.len() - 1,
                before.last().push(s@[i as int]),
            ));
        }
        i += 1;
    }
    assert(s@.subrange(0, i as int) == s@);
    done.push(current);
    assert(rows(done@) == fields(s@, seps@));
    done
}

/// The first place where `c` stands in `s`, or the length where it stands
/// nowhere.
pub open spec fn first_index(s: Seq<char>, c: char) -> int
    decreases s.len(),
{
    if s.len() == 0 || s[0] == c {
        0
    } else {
        1 + first_index(s.subrange(1, s.len() as int), c)
    }
}

/// Where `c` first stands is the place with `c` in front of which it does not.
pub proof fn lemma_first_index(s: Seq<char>, c: char, k: int)
    requires
        0 <= k <= s.len(),
        forall|j: int| 0 <= j < k ==> s[j] != c,
        k < s.len() ==> s[k] == c,
    ensures
        first_index(s, c) == k,
    decreases k,
{
    if k > 0 {
        lemma_first_index(s.subrange(1, s.len() as int), c, k - 1);
    }
}

/// The first place where `c` stands in `s`, or its length.
pub fn find_char(s: &[char], c: char) -> (r: usize)
    ensures
        r == first_index(s@, c),
        r <= s@.len(),
        r < s@.len() ==> s@[r as int] == c,
{
    let mut i: usize = 0;
    while i < s.len() && s[i] != c
        invariant
            i <= s.len(),
            forall|j: int| 0 <= j < i ==> s@[j] != c,
        decreases s.len() - i,
    {
        i += 1;
    }
    proof {
        lemma_first_index(s@, c, i as int);
    }
    i
}

/// `parts` one after the other with `sep` in between.
pub open spec fn joined(parts: Seq<Seq<char>>, sep: Seq<char>) -> Seq<char>
    decreases parts.len(),
{
    if parts.len() == 0 {
        Seq::empty()
    } else if parts.len() == 1 {
        parts[0]
    } else {
        joined(parts.drop_last(), sep) + sep + parts.last()
    }
}

/// Put `parts` one after the other with `sep` in between.
pub fn join(parts: &[String], sep: &str) -> (r: String)
    ensures
        r@ == joined(texts(parts@), sep@),
{
    let mut out: String = String::new();
    let mut i: usize = 0;
    while i < parts.len()
        invariant
            i <= parts.len(),
            out@ == joined(texts(parts@).subrange(0, i as int), sep@),
        decreases parts.len() - i,
    {
        let ghost t = texts(parts@).subrange(0, i + 1);
        proof {
            assert(t.drop_last() == texts(parts@).subrange(0, i as int));
            assert(t.last() == parts@[i as int]@);
        }
        if i > 0 {
            out.append(sep);
        }
        out.append(parts[i].as_str());
        assert(out@ == joined(t, sep@)) by {
            if i == 0 {
                assert(out@ == t[0]);
            }
        }
        i += 1;
    }
    assert(texts(parts@).subrange(0, i as int) == texts(parts@));
    out
}

/// The decimal spelling of a number is digits alone, starts with no zero but
/// for zero itself, and spells that number.
pub proof fn lemma_dec_spells(n: int)
    requires
        0 <= n,
    ensures
        dec(n).len() > 0,
        all_digits(dec(n), 10),
        digits_value(dec(n), 10) == n,
        number(dec(n), 10) == Some(n),
        n > 0 ==> dec(n)[0] != '0',
    decreases n,
{
    reveal_with_fuel(digits_value, 2);
    if n < 10 {
        let s = dec(n);
        assert(s.drop_last() == Seq::<char>::empty());
        assert(digit_value(s[0], 10) == Some(n));
    } else {
        lemma_dec_spells(n / 10);
        let s = dec(n);
        let t = dec(n / 10);
        assert(s.drop_last() == t);
        assert(digit_value(s.last(), 10) == Some(n % 10));
        assert forall|i: int| 0 <= i < s.len() implies (#[trigger] digit_value(s[i], 10)) is Some by {
            if i < t.len() {
                assert(s[i] == t[i]);
            }
        }
        assert(s[0] == t[0]);
    }
    assert(digit_value(dec(n)[0], 10) is Some);
}

/// Whether no separator stands in `s`.
pub open spec fn unbroken(s: Seq<char>, seps: Seq<char>) -> bool {
    forall|i: int| 0 <= i < s.len() ==> !seps.contains(#[trigger] s[i])
}

/// A text without separators is one field.
pub proof fn lemma_fields_unbroken(s: Seq<char>, seps: Seq<char>)
    requires
        unbroken(s, seps),
    ensures
        fields(s, seps) == seq![s],
    decreases s.len(),
{
    if s.len() > 0 {
        assert forall|i: int| 0 <= i < s.drop_last().len() implies !seps.contains(
            #[trigger] s.drop_last()[i],
        ) by {
            assert(s.drop_last()[i] == s[i]);
        }
        lemma_fields_unbroken(s.drop_last(), seps);
        assert(s.drop_last().push(s.last()) == s);
        assert(!seps.contains(s[s.len() - 1]));
        assert(fields(s, seps) == seq![s]);
    } else {
        assert(s == Seq::<char>::empty());
    }
}

/// One more separator and one more unbroken run are one more field.
pub proof fn lemma_fields_extend(s: Seq<char>, sep: char, x: Seq<char>, seps: Seq<char>)
    requires
        seps.contains(sep),
        unbroken(x, seps),
    ensures
        fields(s.push(sep) + x, seps) == fields(s, seps).push(x),
    decreases x.len(),
{
    let whole = s.push(sep) + x;
    if x.len() == 0 {
        assert(whole == s.push(sep));
        assert(whole.drop_last() == s);
        assert(x == Seq::<char>::empty());
    } else {
        let y = x.drop_last();
        assert forall|i: int| 0 <= i < y.len() implies !seps.contains(#[trigger] y[i]) by {
            assert(y[i] == x[i]);
        }
        lemma_fields_extend(s, sep, y, seps);
        assert(whole.drop_last() == s.push(sep) + y);
        assert(!seps.contains(x[x.len() - 1]));
        assert(whole.last() == x.last());
        let before = fields(s, seps).push(y);
        assert(y.push(x.last()) == x);
        assert(before.update(before.len() - 1, before.last().push(x.last())) == fields(
            s,
            seps,
        ).push(x));
    }
}

/// Digits hold no separator that is no digit.
pub proof fn lemma_digits_unbroken(s: Seq<char>, radix: int, seps: Seq<char>)
    requires
        all_digits(s, radix),
        forall|i: int| 0 <= i < seps.len() ==> digit_value(#[trigger] seps[i], radix) is None,
    ensures
        unbroken(s, seps),
{
    assert forall|i: int| 0 <= i < s.len() implies !seps.contains(#[trigger] s[i]) by {
        assert(digit_value(s[i], radix) is Some);
    }
}

/// Two hexadecimal digits spell their byte.
pub proof fn lemma_hex2_spells(b: u8)
    ensures
        all_digits(hex2(b), 16),
        number(hex2(b), 16) == Some(b as int),
{
    reveal_with_fuel(digits_value, 3);
    let s = hex2(b);
    assert(digit_value(s[0], 16) == Some(b as int / 16));
    assert(digit_value(s[1], 16) == Some(b as int % 16));
    assert(s.drop_last() == seq![s[0]]);
    assert(seq![s[0]].drop_last() == Seq::<char>::empty());
    assert(digits_value(seq![s[0]], 16) == b as int / 16);
}

/// The characters that count as white space.
pub open spec fn white() -> Seq<char> {
    seq![
        '\t',
        '\n',
        '\u{b}',
        '\u{c}',
        '\r',
        ' ',
        '\u{85}',
        '\u{a0}',
        '\u{1680}',
        '\u{2000}',
        '\u{2001}',
        '\u{2002}',
        '\u{2003}',
        '\u{2004}',
        '\u{2005}',
        '\u{2006}',
        '\u{2007}',
        '\u{2008}',
        '\u{2009}',
        '\u{200a}',
        '\u{2028}',
        '\u{2029}',
        '\u{202f}',
        '\u{205f}',
        '\u{3000}',
    ]
}

/// The characters that count as white space.
fn white_chars() -> (r: Vec<char>)
    ensures
        r@ == white(),
{
    let r: Vec<char> = vec![
        '\t',
        '\n',
        '\u{b}',
        '\u{c}',
        '\r',
        ' ',
        '\u{85}',
        '\u{a0}',
        '\u{1680}',
        '\u{2000}',
        '\u{2001}',
        '\u{2002}',
        '\u{2003}',
        '\u{2004}',
        '\u{2005}',
        '\u{2006}',
        '\u{2007}',
        '\u{2008}',
        '\u{2009}',
        '\u{200a}',
        '\u{2028}',
        '\u{2029}',
        '\u{202f}',
        '\u{205f}',
        '\u{3000}',
    ];
    assert(r@ =~= white());
    r
}

/// `s` without the white space in front of it.
pub open spec fn trimmed_front(s: Seq<char>) -> Seq<char>
    decreases s.len(),
{
    if s.len() > 0 && white().contains(s[0]) {
        trimmed_front(s.subrange(1, s.len() as int))
    } else {
        s
    }
}

/// `s` without the white space behind it.
pub open spec fn trimmed_back(s: Seq<char>) -> Seq<char>
    decreases s.len(),
{
    if s.len() > 0 && white().contains(s.last()) {
        trimmed_back(s.drop_last())
    } else {
        s
    }
}

/// `s` without the white space around it.
pub open spec fn trimmed(s: Seq<char>) -> Seq<char> {
    trimmed_back(trimmed_front(s))
}

/// `s` without the white space around it.
pub fn trim(s: &[char]) -> (r: &[char])
    ensures
        r@ == trimmed(s@),
{
    let set: Vec<char> = white_chars();
    let mut from: usize = 0;
    assert(s@.subrange(0, s@.len() as int) == s@);
    while from < s.len() && is_one_of(s[from], set.as_slice())
        invariant
            from <= s@.len(),
            set@ == white(),
            trimmed_front(s@) == trimmed_front(s@.subrange(from as int, s@.len() as int)),
        decreases s.len() - from,
    {
        assert(s@.subrange(from as int, s@.len() as int).subrange(1, s@.len() - from) =~= s@.subrange(
            from + 1,
            s@.len() as int,
        ));
        from += 1;
    }
    let ghost front = s@.subrange(from as int, s@.len() as int);
    assert(trimmed_front(s@) == front);
    let mut to: usize = s.len();
    while from < to && is_one_of(s[to - 1], set.as_slice())
        invariant
            from <= to <= s@.len(),
            set@ == white(),
            trimmed_back(front) == trimmed_back(s@.subrange(from as int, to as int)),
        decreases to,
    {
        assert(s@.subrange(from as int, to as int).drop_last() =~= s@.subrange(
            from as int,
            to - 1,
        ));
        assert(s@.subrange(from as int, to as int).last() == s@[to - 1]);
        to -= 1;
    }
    assert(to > from ==> s@.subrange(from as int, to as int).last() == s@[to - 1]);
    &s[from..to]
}

/// The rows of `v` that are not empty.
pub open spec fn nonempty(v: Seq<Seq<char>>) -> Seq<Seq<char>>
    decreases v.len(),
{
    if v.len() == 0 {
        Seq::empty()
    } else if v.last().len() == 0 {
        nonempty(v.drop_last())
    } else {
        nonempty(v.drop_last()).push(v.last())
    }
}

/// The words of `s`, which white space separates.
pub open spec fn words(s: Seq<char>) -> Seq<Seq<char>> {
    nonempty(fields(s, white()))
}

/// The words of `s`, which white space separates.
pub fn split_words(s: &[char]) -> (r: Vec<Vec<char>>)
    ensures
        rows(r@) == words(s@),
{
    let set: Vec<char> = white_chars();
    let all: Vec<Vec<char>> = split_fields(s, set.as_slice());
    let ghost f = rows(all@);
    let total: usize = all.len();
    let mut out: Vec<Vec<char>> = Vec::new();
    let mut i: usize = 0;
    assert(rows(out@) =~= Seq::empty());
    assert(f.subrange(0, 0) =~= Seq::empty());
    for part in it: all
        invariant
            f.len() == it.seq().len(),
            f.len() == total,
            forall|j: int| 0 <= j < f.len() ==> f[j] == (#[trigger] it.seq()[j])@,
            i == it.index(),
            i <= f.len(),
            rows(out@) == nonempty(f.subrange(0, i as int)),
    {
        let ghost before = out@;
        let ghost t = f.subrange(0, i + 1);
        assert(t.drop_last() =~= f.subrange(0, i as int));
        assert(t.last() == part@);
        if part.len() > 0 {
            out.push(part);
            assert(rows(out@) =~= rows(before).push(part@));
        }
        i += 1;
    }
    assert(f.subrange(0, f.len() as int) =~= f);
    out
}

/// `s` without a carriage return at its end.
pub open spec fn without_cr(s: Seq<char>) -> Seq<char> {
    if s.len() > 0 && s.last() == '\r' {
        s.drop_last()
    } else {
        s
    }
}

/// How many lines `s` has: a line feed at the very end starts no line.
pub open spec fn line_count(s: Seq<char>) -> int {
    let f = fields(s, seq!['\n']);
    if f.last().len() == 0 {
        f.len() - 1
    } else {
        f.len() as int
    }
}

/// The lines of `s`, without the line feed, or carriage return and line feed,
/// that ends each.
pub open spec fn lines(s: Seq<char>) -> Seq<Seq<char>> {
    let f = fields(s, seq!['\n']);
    Seq::new(
        line_count(s) as nat,
        |i: int|
            if i < f.len() - 1 {
                without_cr(f[i])
            } else {
                f[i]
            },
    )
}

/// The lines of `s`, without what ends each.
pub fn split_lines(s: &[char]) -> (r: Vec<Vec<char>>)
    ensures
        rows(r@) == lines(s@),
{
    let seps: [char; 1] = ['\n'];
    assert(seps@ =~= seq!['\n']);
    let mut all: Vec<Vec<char>> = split_fields(s, seps.as_slice());
    let ghost f = fields(s@, seq!['\n']);
    let n: usize = all.len();
    assert(f == rows(all@));
    let mut i: usize = 0;
    while i < n - 1
        invariant
            1 <= n,
            n == f.len(),
            i <= n - 1,
            all@.len() == n,
            forall|j: int| 0 <= j < i ==> (#[trigger] all@[j])@ == without_cr(f[j]),
            forall|j: int| i <= j < n ==> (#[trigger] all@[j])@ == f[j],
        decreases n - i,
    {
        let len: usize = all[i].len();
        assert(all@[i as int]@ == f[i as int]);
        if len > 0 && all[i][len - 1] == '\r' {
            let mut line: Vec<char> = Vec::new();
            line.extend_from_slice(&all[i].as_slice()[0..len - 1]);
            assert(line@ =~= f[i as int].drop_last());
            all.set(i, line);
        }
        i += 1;
    }
    assert(all@[n - 1]@ == f[n - 1]);
    if all[n - 1].len() == 0 {
        all.pop();
    }
    assert(rows(all@) =~= lines(s@));
    all
}

/// `s` followed by as many spaces as it takes to make `width` characters.
pub open spec fn padded(s: Seq<char>, width: int) -> Seq<char>
    decreases width - s.len(),
{
    if s.len() >= width {
        s
    } else {
        padded(s.push(' '), width)
    }
}

/// Append `s`, followed by as many spaces as it takes to make `width`
/// characters.
pub fn push_padded(out: &mut String, s: &str, width: usize)
    ensures
        final(out)@ == old(out)@ + padded(s@, width as int),
{
    out.append(s);
    let mut n: usize = s.unicode_len();
    let ghost mut done = s@;
    while n < width
        invariant
            n == done.len(),
            padded(done, width as int) == padded(s@, width as int),
            out@ == old(out)@ + done,
        decreases width - n,
    {
        out.push(' ');
        proof {
            assert(old(out)@ + done.push(' ') =~= (old(out)@ + done).push(' '));
            done = done.push(' ');
        }
        n += 1;
    }
}

/// Digits, one by one: the ten decimal digits, and behind them the letters of
/// either case up to the radix. Nothing else is a digit.
pub proof fn law_digits(c: char, radix: int)
    requires
        2 <= radix <= 16,
    ensures
        ({
            let v = digit_value(c, radix);
            &&& v matches Some(d) ==> 0 <= d < radix
            &&& '0' <= c <= '9' && c as int - 48 < radix ==> v == Some(c as int - 48)
            &&& 'a' <= c <= 'f' && c as int - 87 < radix ==> v == Some(c as int - 87)
            &&& 'A' <= c <= 'F' && c as int - 55 < radix ==> v == Some(c as int - 55)
            &&& !('0' <= c <= '9') && !('a' <= c <= 'f') && !('A' <= c <= 'F') ==> v is None
        }),
{
}

/// A number is read digit by digit: one more digit behind it multiplies it by
/// the radix and adds the digit. A plus sign in front changes nothing, and
/// what has no digit, or holds anything else, is no number.
#[verifier::rlimit(40)]
pub proof fn law_numbers_are_positional(s: Seq<char>, c: char, radix: int)
    requires
        2 <= radix <= 16,
    ensures
        number(s, radix) is Some && digit_value(c, radix) is Some ==> number(s.push(c), radix)
            == Some(number(s, radix)->0 * radix + digit_value(c, radix)->0),
        s.len() > 0 && digit_value(c, radix) is None ==> number(s.push(c), radix) is None,
        digit_value(c, radix) matches Some(d) ==> number(seq![c], radix) == Some(d),
        digit_value(c, radix) is None ==> number(seq![c], radix) is None,
        number(Seq::empty(), radix) is None,
        number(seq!['+'], radix) is None,
        number(s, radix) is Some && s[0] != '+' ==> number(seq!['+'] + s, radix) == number(s, radix),
{
    let t = s.push(c);
    let plain = unsigned_part(s);
    if s.len() > 0 {
        assert(unsigned_part(t) =~= plain.push(c));
        assert(plain.push(c).drop_last() =~= plain);
        assert(plain.push(c).last() == c);
        if all_digits(plain, radix) && digit_value(c, radix) is Some {
            assert(all_digits(plain.push(c), radix));
        }
        if digit_value(c, radix) is None {
            assert(digit_value(plain.push(c)[plain.len() as int], radix) is None);
        }
    }
    let one = seq![c];
    assert(one.drop_last() =~= Seq::empty());
    assert(one.last() == c);
    assert(digits_value(Seq::empty(), radix) == 0);
    if c == '+' {
        assert(unsigned_part(one) =~= Seq::empty());
    } else {
        assert(unsigned_part(one) == one);
        assert(digits_value(one, radix) == digit_value(c, radix).unwrap_or(0));
        if digit_value(c, radix) is None {
            assert(digit_value(one[0], radix) is None);
        }
    }
    let plus = seq!['+'];
    assert(unsigned_part(plus) =~= Seq::empty());
    assert((seq!['+'] + s).subrange(1, (seq!['+'] + s).len() as int) =~= s);
}

/// Cutting a text at a separator and joining the fields with it again gives
/// the text back, and no field holds a separator.
#[verifier::rlimit(40)]
pub proof fn law_fields_join_again(s: Seq<char>, sep: char)
    ensures
        joined(fields(s, seq![sep]), seq![sep]) == s,
        forall|i: int|
            0 <= i < fields(s, seq![sep]).len() ==> unbroken(
                #[trigger] fields(s, seq![sep])[i],
                seq![sep],
            ),
    decreases s.len(),
{
    let seps = seq![sep];
    let f = fields(s, seps);
    lemma_fields_nonempty(s, seps);
    assert(seps[0] == sep);
    if s.len() == 0 {
        assert(f =~= seq![Seq::<char>::empty()]);
    } else {
        let t = s.drop_last();
        let c = s.last();
        law_fields_join_again(t, sep);
        let before = fields(t, seps);
        lemma_fields_nonempty(t, seps);
        if seps.contains(c) {
            assert(c == sep);
            assert(f =~= before.push(Seq::empty()));
            assert(f.drop_last() =~= before);
            assert(joined(f, seps) =~= t + seps);
            assert(t + seps =~= s);
        } else {
            let last = before.last().push(c);
            assert(f =~= before.drop_last().push(last));
            assert(f.drop_last() =~= before.drop_last());
            if before.len() == 1 {
                assert(joined(f, seps) == last);
            } else {
                assert(joined(f, seps) =~= joined(before, seps).push(c));
            }
            assert(t.push(c) =~= s);
            assert forall|i: int| 0 <= i < f.len() implies unbroken(#[trigger] f[i], seps) by {
                if i < f.len() - 1 {
                    assert(f[i] == before[i]);
                } else {
                    assert(unbroken(before[before.len() - 1], seps));
                }
            }
        }
    }
}

/// Padding fills up to the width with spaces and cuts nothing off.
pub proof fn law_padding_only_adds_spaces(s: Seq<char>, width: int, i: int)
    requires
        0 <= i < padded(s, width).len(),
    ensures
        padded(s, width).len() == (if s.len() >= width {
            s.len() as int
        } else {
            width
        }),
        padded(s, width)[i] == (if i < s.len() {
            s[i]
        } else {
            ' '
        }),
    decreases width - s.len(),
{
    if s.len() < width {
        law_padding_only_adds_spaces(s.push(' '), width, i);
    }
}

/// The decimal spelling of a number is the one without superfluous zeros.
pub proof fn law_decimal_spelling_is_unique(s: Seq<char>)
    requires
        s.len() > 0,
        all_digits(s, 10),
        s.len() == 1 || s[0] != '0',
    ensures
        s == dec(digits_value(s, 10)),
        s.len() > 1 ==> digits_value(s, 10) >= 10,
    decreases s.len(),
{
    let n = digits_value(s, 10);
    let d = digit_value(s.last(), 10)->0;
    assert(digit_value(s[s.len() - 1], 10) is Some);
    if s.len() == 1 {
        assert(s.drop_last() =~= Seq::empty());
        assert(digits_value(s.drop_last(), 10) == 0);
        assert(n == d);
        assert(s =~= seq![decimal_digit(d)]);
    } else {
        let t = s.drop_last();
        assert(all_digits(t, 10)) by {
            assert forall|i: int| 0 <= i < t.len() implies (#[trigger] digit_value(t[i], 10)) is Some by {
                assert(digit_value(s[i], 10) is Some);
            }
        }
        law_decimal_spelling_is_unique(t);
        let m = digits_value(t, 10);
        if t.len() == 1 {
            assert(t.drop_last() =~= Seq::empty());
            assert(digits_value(t.drop_last(), 10) == 0);
            assert(digit_value(t[0], 10) is Some);
        }
        assert(m >= 1);
        assert(n == m * 10 + d);
        assert(n / 10 == m && n % 10 == d);
        assert(s =~= dec(m).push(decimal_digit(d)));
    }
}

/// No text spells a negative number.
pub proof fn law_number_is_not_negative(s: Seq<char>, radix: int)
    requires
        2 <= radix <= 16,
    ensures
        number(s, radix) matches Some(n) ==> 0 <= n,
{
    lemma_digits_value_nonneg(unsigned_part(s), radix);
}

/// Trimming takes white space off both ends, and what is left has none there.
pub proof fn law_trimming_leaves_no_white_space_around(s: Seq<char>)
    ensures
        ({
            let t = trimmed(s);
            &&& t.len() <= s.len()
            &&& t.len() > 0 ==> !white().contains(t[0]) && !white().contains(t.last())
        }),
        s.len() > 0 && white().contains(s[0]) ==> trimmed(s) == trimmed(
            s.subrange(1, s.len() as int),
        ),
        s.len() > 0 && !white().contains(s[0]) && !white().contains(s.last()) ==> trimmed(s) == s,
{
    lemma_trimmed_front(s);
    lemma_trimmed_back(trimmed_front(s));
    if s.len() > 0 && !white().contains(s[0]) && !white().contains(s.last()) {
        assert(trimmed_front(s) == s);
    }
}

proof fn lemma_trimmed_front(s: Seq<char>)
    ensures
        trimmed_front(s).len() <= s.len(),
        trimmed_front(s).len() > 0 ==> !white().contains(trimmed_front(s)[0]),
    decreases s.len(),
{
    if s.len() > 0 && white().contains(s[0]) {
        lemma_trimmed_front(s.subrange(1, s.len() as int));
    }
}

proof fn lemma_trimmed_back(s: Seq<char>)
    ensures
        trimmed_back(s).len() <= s.len(),
        trimmed_back(s).len() > 0 ==> trimmed_back(s)[0] == s[0] && !white().contains(
            trimmed_back(s).last(),
        ),
    decreases s.len(),
{
    if s.len() > 0 && white().contains(s.last()) {
        lemma_trimmed_back(s.drop_last());
    }
}

/// The words of a text are its parts between white space: none is empty, and
/// none holds white space.
pub proof fn law_words_hold_no_white_space(s: Seq<char>, i: int)
    requires
        0 <= i < words(s).len(),
    ensures
        words(s)[i].len() > 0,
        unbroken(words(s)[i], white()),
{
    lemma_fields_are_unbroken(s, white());
    lemma_nonempty(fields(s, white()), white(), i);
}

proof fn lemma_fields_are_unbroken(s: Seq<char>, seps: Seq<char>)
    ensures
        forall|i: int|
            0 <= i < fields(s, seps).len() ==> unbroken(#[trigger] fields(s, seps)[i], seps),
    decreases s.len(),
{
    if s.len() > 0 {
        let before = fields(s.drop_last(), seps);
        lemma_fields_are_unbroken(s.drop_last(), seps);
        lemma_fields_nonempty(s.drop_last(), seps);
        let f = fields(s, seps);
        assert forall|i: int| 0 <= i < f.len() implies unbroken(#[trigger] f[i], seps) by {
            if seps.contains(s.last()) {
                if i < before.len() {
                    assert(f[i] == before[i]);
                }
            } else {
                if i < before.len() - 1 {
                    assert(f[i] == before[i]);
                } else {
                    assert(unbroken(before[before.len() - 1], seps));
                }
            }
        }
    }
}

proof fn lemma_nonempty(v: Seq<Seq<char>>, seps: Seq<char>, i: int)
    requires
        0 <= i < nonempty(v).len(),
        forall|k: int| 0 <= k < v.len() ==> unbroken(#[trigger] v[k], seps),
    ensures
        nonempty(v)[i].len() > 0,
        unbroken(nonempty(v)[i], seps),
    decreases v.len(),
{
    let t = v.drop_last();
    assert forall|k: int| 0 <= k < t.len() implies unbroken(#[trigger] t[k], seps) by {
        assert(t[k] == v[k]);
    }
    if v.last().len() == 0 || i < nonempty(v).len() - 1 {
        lemma_nonempty(t, seps, i);
    } else {
        assert(unbroken(v[v.len() - 1], seps));
    }
}

/// White space behind a text is trimmed off character by character.
pub proof fn law_trimming_works_from_behind(s: Seq<char>)
    requires
        s.len() > 1,
        !white().contains(s[0]),
        white().contains(s.last()),
    ensures
        trimmed(s) == trimmed(s.drop_last()),
{
    assert(s.drop_last()[0] == s[0]);
    assert(trimmed_front(s) == s);
    assert(trimmed_front(s.drop_last()) == s.drop_last());
}

/// Words are split by white space: behind some, a text without any is one more
/// word, and white space at the end adds none.
pub proof fn law_words_are_split_by_white_space(s: Seq<char>, c: char, w: Seq<char>)
    requires
        white().contains(c),
        w.len() > 0,
        unbroken(w, white()),
    ensures
        words(w) == seq![w],
        words(s.push(c) + w) == words(s).push(w),
        words(s.push(c)) == words(s),
        words(Seq::empty()) == Seq::<Seq<char>>::empty(),
{
    lemma_fields_unbroken(w, white());
    lemma_fields_extend(s, c, w, white());
    lemma_fields_extend(s, c, Seq::empty(), white());
    let f = fields(s, white());
    assert(s.push(c) + Seq::<char>::empty() =~= s.push(c));
    assert(f.push(w).drop_last() =~= f);
    assert(f.push(Seq::empty()).drop_last() =~= f);
    reveal_with_fuel(nonempty, 2);
    assert(seq![w].drop_last() =~= Seq::empty());
    assert(seq![w].last() == w);
    assert(nonempty(seq![w]) =~= seq![w]);
    lemma_fields_unbroken(Seq::empty(), white());
    let none = seq![Seq::<char>::empty()];
    assert(none.drop_last() =~= Seq::empty());
    assert(none.last().len() == 0);
}

/// A line ends with a line feed, which is no part of it, nor is a carriage
/// return in front of that; the last line may go without. A text that ends with
/// a line feed has no empty line behind it.
pub proof fn law_lines_end_with_a_line_feed(s: Seq<char>, x: Seq<char>)
    requires
        forall|i: int| 0 <= i < x.len() ==> (#[trigger] x[i]) != '\n',
    ensures
        ({
            let line = if x.len() > 0 && x.last() == '\r' {
                x.drop_last()
            } else {
                x
            };
            let before = s.push('\n');
            &&& lines(Seq::empty()) == Seq::<Seq<char>>::empty()
            &&& x.len() > 0 ==> lines(x) == seq![x]
            &&& lines(x.push('\n')) == seq![line]
            &&& x.len() > 0 ==> lines(before + x) == lines(before).push(x)
            &&& lines((before + x).push('\n')) == lines(before).push(line)
        }),
{
    let nl = seq!['\n'];
    assert(nl[0] == '\n');
    let none = Seq::<char>::empty();
    let line = without_cr(x);
    let before = s.push('\n');
    assert(unbroken(x, nl));
    assert(unbroken(none, nl));
    lemma_fields_unbroken(none, nl);
    lemma_fields_unbroken(x, nl);
    assert(lines(none) =~= Seq::empty());
    if x.len() > 0 {
        assert(lines(x) =~= seq![x]);
    }
    lemma_fields_extend(x, '\n', none, nl);
    assert(x.push('\n') + none =~= x.push('\n'));
    assert(fields(x.push('\n'), nl) == seq![x].push(none));
    assert(lines(x.push('\n')) =~= seq![line]);
    let f = fields(s, nl);
    lemma_fields_nonempty(s, nl);
    lemma_fields_extend(s, '\n', none, nl);
    assert(before + none =~= before);
    assert(fields(before, nl) == f.push(none));
    lemma_fields_extend(s, '\n', x, nl);
    assert(fields(before + x, nl) == f.push(x));
    if x.len() > 0 {
        assert(lines(before + x) =~= lines(before).push(x));
    }
    lemma_fields_extend(before + x, '\n', none, nl);
    assert((before + x).push('\n') + none =~= (before + x).push('\n'));
    assert(fields((before + x).push('\n'), nl) == f.push(x).push(none));
    assert(lines((before + x).push('\n')) =~= lines(before).push(line));
}

/// A hexadecimal spelling reads back as the number, and a negative number is
/// spelled as its opposite behind a minus sign.
pub proof fn law_hexadecimal_reads_back(n: int)
    requires
        0 <= n,
    ensures
        number(spec_hex(n), 16) == Some(n),
        dec_signed(n) == dec(n),
        n > 0 ==> dec_signed(-n) == "-"@ + dec(n),
{
    lemma_hex_spells(n);
}

proof fn lemma_hex_spells(n: int)
    requires
        0 <= n,
    ensures
        spec_hex(n).len() > 0,
        all_digits(spec_hex(n), 16),
        digits_value(spec_hex(n), 16) == n,
        spec_hex(n)[0] != '+',
    decreases n,
{
    let s = spec_hex(n);
    if n < 16 {
        assert(s =~= seq![hex_digit(n)]);
        assert(s.drop_last() =~= Seq::empty());
        assert(digit_value(hex_digit(n), 16) == Some(n));
        assert(digits_value(s.drop_last(), 16) == 0);
    } else {
        lemma_hex_spells(n / 16);
        let t = spec_hex(n / 16);
        let d = hex_digit(n % 16);
        assert(s == t.push(d));
        assert(s.drop_last() =~= t);
        assert(digit_value(d, 16) == Some(n % 16));
        assert forall|i: int| 0 <= i < s.len() implies (#[trigger] digit_value(s[i], 16)) is Some by {
            if i < t.len() {
                assert(s[i] == t[i]);
                assert(digit_value(t[i], 16) is Some);
            }
        }
        assert(s[0] == t[0]);
    }
}

/// A C string is what stands before the first zero byte, or everything where
/// there is none.
pub proof fn law_c_strings_end_at_the_first_zero(s: Seq<u8>, k: int)
    requires
        0 <= k <= s.len(),
        forall|j: int| 0 <= j < k ==> s[j] != 0,
        k < s.len() ==> s[k] == 0,
    ensures
        until_nul(s) == s.subrange(0, k),
{
    lemma_until_nul(s, k);
}

} // verus!
