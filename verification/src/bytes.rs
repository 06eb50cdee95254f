//! Integers laid out as bytes.
use vstd::arithmetic::power2::{lemma2_to64, lemma2_to64_rest, lemma_pow2_adds, lemma_pow2_pos, pow2};
use vstd::prelude::*;

verus! {

/// The big-endian 16-bit number at `at`.
pub open spec fn be16(s: Seq<u8>, at: int) -> int {
    s[at] * 0x100 + s[at + 1]
}

/// The big-endian 32-bit number at `at`.
pub open spec fn be32(s: Seq<u8>, at: int) -> int {
    s[at] * 0x100_0000 + s[at + 1] * 0x1_0000 + s[at + 2] * 0x100 + s[at + 3]
}

/// The little-endian 16-bit number at `at`.
pub open spec fn le16(s: Seq<u8>, at: int) -> int {
    s[at] + s[at + 1] * 0x100
}

/// The little-endian 32-bit number at `at`.
pub open spec fn le32(s: Seq<u8>, at: int) -> int {
    s[at] + s[at + 1] * 0x100 + s[at + 2] * 0x1_0000 + s[at + 3] * 0x100_0000
}

/// The little-endian 64-bit number at `at`.
pub open spec fn le64(s: Seq<u8>, at: int) -> int {
    le32(s, at) + le32(s, at + 4) * 0x1_0000_0000
}

/// `x` as two bytes, most significant first.
pub open spec fn be16_bytes(x: int) -> Seq<u8> {
    seq![(x / 0x100) as u8, (x % 0x100) as u8]
}

/// `x` as four bytes, most significant first.
pub open spec fn be32_bytes(x: int) -> Seq<u8> {
    seq![
        (x / 0x100_0000) as u8,
        (x / 0x1_0000 % 0x100) as u8,
        (x / 0x100 % 0x100) as u8,
        (x % 0x100) as u8,
    ]
}

/// `x` as `n` bytes, least significant first.
pub open spec fn le_bytes(x: int, n: nat) -> Seq<u8>
    decreases n,
{
    if n == 0 {
        Seq::empty()
    } else {
        seq![(x % 0x100) as u8] + le_bytes(x / 0x100, (n - 1) as nat)
    }
}

/// The number that `s` spells, least significant byte first.
pub open spec fn le_value(s: Seq<u8>) -> int
    decreases s.len(),
{
    if s.len() == 0 {
        0
    } else {
        s[0] + 0x100 * le_value(s.subrange(1, s.len() as int))
    }
}

/// Writing a 16-bit number and reading it back changes nothing, either way.
pub proof fn lemma_be16_round_trip(x: int)
    requires
        0 <= x < 0x1_0000,
    ensures
        be16(be16_bytes(x), 0) == x,
{
}

/// Writing a 32-bit number and reading it back changes nothing.
pub proof fn lemma_be32_round_trip(x: int)
    requires
        0 <= x < 0x1_0000_0000,
    ensures
        be32(be32_bytes(x), 0) == x,
{
}

/// Four bytes are the spelling of the number they spell.
pub proof fn lemma_be32_bytes_of(s: Seq<u8>)
    requires
        s.len() == 4,
    ensures
        0 <= be32(s, 0) < 0x1_0000_0000,
        be32_bytes(be32(s, 0)) == s,
{
    let x = be32(s, 0);
    let (a, b, c, d) = (s[0] as int, s[1] as int, s[2] as int, s[3] as int);
    lemma_four_digits(a, b, c, d);
    assert(x == a * 0x100_0000 + b * 0x1_0000 + c * 0x100 + d);
    assert(be32_bytes(x)[0] == s[0]);
    assert(be32_bytes(x)[1] == s[1]);
    assert(be32_bytes(x)[2] == s[2]);
    assert(be32_bytes(x)[3] == s[3]);
    assert(be32_bytes(x) =~= s);
}

proof fn lemma_four_digits(a: int, b: int, c: int, d: int)
    requires
        0 <= a < 0x100,
        0 <= b < 0x100,
        0 <= c < 0x100,
        0 <= d < 0x100,
    ensures
        ({
            let x = a * 0x100_0000 + b * 0x1_0000 + c * 0x100 + d;
            &&& 0 <= x < 0x1_0000_0000
            &&& x / 0x100_0000 == a
            &&& x / 0x1_0000 % 0x100 == b
            &&& x / 0x100 % 0x100 == c
            &&& x % 0x100 == d
        }),
{
    let x = a * 0x100_0000 + b * 0x1_0000 + c * 0x100 + d;
    assert(x / 0x100 == a * 0x1_0000 + b * 0x100 + c);
    assert(x / 0x1_0000 == a * 0x100 + b);
    assert(x / 0x100_0000 == a);
}

/// `n` bytes hold every number below `256^n`.
pub proof fn lemma_le_bytes_len(x: int, n: nat)
    ensures
        le_bytes(x, n).len() == n,
    decreases n,
{
    if n > 0 {
        lemma_le_bytes_len(x / 0x100, (n - 1) as nat);
    }
}

/// What `n` bytes spell is below `256^n`.
pub proof fn lemma_le_value_bound(s: Seq<u8>)
    ensures
        0 <= le_value(s) < pow2(8 * s.len()),
    decreases s.len(),
{
    lemma2_to64();
    if s.len() > 0 {
        let rest = s.subrange(1, s.len() as int);
        lemma_le_value_bound(rest);
        lemma_pow2_adds(8, 8 * rest.len());
        assert(8 + 8 * rest.len() == 8 * s.len());
        assert(s[0] + 0x100 * le_value(rest) < 0x100 * pow2(8 * rest.len()));
    }
}

/// Writing a number that fits and reading it back changes nothing.
pub proof fn lemma_le_round_trip(x: int, n: nat)
    requires
        0 <= x < pow2(8 * n),
    ensures
        le_value(le_bytes(x, n)) == x,
    decreases n,
{
    lemma2_to64();
    if n > 0 {
        let m = (n - 1) as nat;
        lemma_pow2_adds(8, 8 * m);
        assert(8 + 8 * m == 8 * n);
        assert(x / 0x100 < pow2(8 * m)) by (nonlinear_arith)
            requires
                0 <= x < 0x100 * pow2(8 * m),
        ;
        lemma_le_round_trip(x / 0x100, m);
        let s = le_bytes(x, n);
        assert(s.subrange(1, s.len() as int) =~= le_bytes(x / 0x100, m));
        lemma_le_bytes_len(x / 0x100, m);
    }
}

/// Bytes of one length that spell the same number are the same.
pub proof fn lemma_le_value_injective(a: Seq<u8>, b: Seq<u8>)
    requires
        a.len() == b.len(),
        le_value(a) == le_value(b),
    ensures
        a == b,
    decreases a.len(),
{
    if a.len() > 0 {
        let ra = a.subrange(1, a.len() as int);
        let rb = b.subrange(1, b.len() as int);
        let (x, y) = (le_value(ra), le_value(rb));
        assert(a[0] + 0x100 * x == b[0] + 0x100 * y);
        assert(x == y && a[0] == b[0]);
        lemma_le_value_injective(ra, rb);
        assert(a =~= seq![a[0]] + ra);
        assert(b =~= seq![b[0]] + rb);
    } else {
        assert(a =~= b);
    }
}

/// Zeroes in front shift what bytes spell.
pub proof fn lemma_le_value_shifted(z: Seq<u8>, s: Seq<u8>)
    requires
        forall|i: int| 0 <= i < z.len() ==> z[i] == 0,
    ensures
        le_value(z + s) == le_value(s) * pow2(8 * z.len()),
    decreases z.len(),
{
    lemma2_to64();
    if z.len() == 0 {
        assert(z + s =~= s);
        assert(le_value(s) * 1 == le_value(s));
    } else {
        let rest = z.subrange(1, z.len() as int);
        lemma_le_value_shifted(rest, s);
        assert((z + s).subrange(1, (z + s).len() as int) =~= rest + s);
        lemma_pow2_adds(8, 8 * rest.len());
        assert(8 + 8 * rest.len() == 8 * z.len());
        let (v, p) = (le_value(s), pow2(8 * rest.len()) as int);
        assert(0x100 * (v * p) == v * (0x100 * p)) by (nonlinear_arith);
    }
}

/// Read a little-endian number of `n` bytes.
pub fn read_le(s: &[u8], at: usize, n: usize) -> (r: u64)
    requires
        n <= 8,
        at + n <= s@.len(),
    ensures
        r == le_value(s@.subrange(at as int, at + n)),
{
    let mut i: usize = n;
    let mut acc: u64 = 0;
    assert(s@.subrange(at + n, at + n) =~= Seq::empty());
    assert(s.len() <= usize::MAX);
    while i > 0
        invariant
            i <= n <= 8,
            at + n <= s@.len() <= usize::MAX,
            acc == le_value(s@.subrange(at + i, at + n)),
        decreases i,
    {
        i -= 1;
        let ghost part = s@.subrange(at + i, at + n);
        proof {
            lemma_le_value_bound(part);
            lemma2_to64();
            lemma2_to64_rest();
            lemma_pow2_adds(8 * part.len(), (64 - 8 * part.len()) as nat);
            lemma_pow2_pos((64 - 8 * part.len()) as nat);
            assert(pow2(8 * part.len()) <= pow2(64)) by (nonlinear_arith)
                requires
                    pow2(8 * part.len()) * pow2((64 - 8 * part.len()) as nat) == pow2(64),
                    pow2((64 - 8 * part.len()) as nat) >= 1,
            ;
            assert(part.subrange(1, part.len() as int) =~= s@.subrange(at + i + 1, at + n));
        }
        acc = s[at + i] as u64 + 0x100 * acc;
    }
    acc
}

/// Read a big-endian `u16`.
pub fn read_be16(s: &[u8], at: usize) -> (r: u16)
    requires
        at + 2 <= s@.len(),
    ensures
        r == be16(s@, at as int),
{
    s[at] as u16 * 0x100 + s[at + 1] as u16
}

/// Read a big-endian `u32`.
pub fn read_be32(s: &[u8], at: usize) -> (r: u32)
    requires
        at + 4 <= s@.len(),
    ensures
        r == be32(s@, at as int),
{
    s[at] as u32 * 0x100_0000 + s[at + 1] as u32 * 0x1_0000 + s[at + 2] as u32 * 0x100 + s[at
        + 3] as u32
}

/// Read a little-endian `u16`.
pub fn read_le16(s: &[u8], at: usize) -> (r: u16)
    requires
        at + 2 <= s@.len(),
    ensures
        r == le16(s@, at as int),
{
    s[at] as u16 + s[at + 1] as u16 * 0x100
}

/// Read a little-endian `u32`.
pub fn read_le32(s: &[u8], at: usize) -> (r: u32)
    requires
        at + 4 <= s@.len(),
    ensures
        r == le32(s@, at as int),
{
    s[at] as u32 + s[at + 1] as u32 * 0x100 + s[at + 2] as u32 * 0x1_0000 + s[at + 3] as u32
        * 0x100_0000
}

/// Read a little-endian `u64`.
pub fn read_le64(s: &[u8], at: usize) -> (r: u64)
    requires
        at + 8 <= s@.len(),
    ensures
        r == le64(s@, at as int),
{
    assert(s.len() <= usize::MAX);
    read_le32(s, at) as u64 + read_le32(s, at + 4) as u64 * 0x1_0000_0000
}

/// Write `x` as `n` little-endian bytes.
pub fn to_le_bytes(x: u64, n: usize) -> (r: Vec<u8>)
    ensures
        r@ == le_bytes(x as int, n as nat),
{
    let mut out: Vec<u8> = Vec::new();
    let mut rest: u64 = x;
    let mut i: usize = 0;
    while i < n
        invariant
            i <= n,
            out@ + le_bytes(rest as int, (n - i) as nat) == le_bytes(x as int, n as nat),
        decreases n - i,
    {
        let ghost before = out@;
        let ghost whole = le_bytes(rest as int, (n - i) as nat);
        out.push((rest % 0x100) as u8);
        rest = rest / 0x100;
        i += 1;
        assert(out@ + le_bytes(rest as int, (n - i) as nat) == before + whole);
    }
    assert(out@ + le_bytes(rest as int, 0) == out@);
    out
}

/// Numbers laid out least significant byte first: each byte counts 256 times
/// the one before it.
pub proof fn law_little_endian_numbers(s: Seq<u8>, at: int)
    ensures
        le16(s, at) == s[at] + 0x100 * s[at + 1],
        le32(s, at) == le16(s, at) + 0x1_0000 * le16(s, at + 2),
        le64(s, at) == le32(s, at) + 0x1_0000_0000 * le32(s, at + 4),
        be16(s, at) == 0x100 * s[at] + s[at + 1],
        be32(s, at) == 0x1_0000 * be16(s, at) + be16(s, at + 2),
{
}

} // verus!
