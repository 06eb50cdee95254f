//! The tables the bytecode looks up, kept on the host's side.
//!
//! Generated code reaches a table through a *host* call. So the machine never
//! owns table state: it hands over a map index and a key, and gets back the
//! bytes of a value. How a table is stored and mutated stays here.
//!
//! What crosses the boundary is only a byte image, and its layout is dictated
//! by the C structs the compiler emits. [`Layout`] names those layouts so the
//! encoding is stated once, rather than spread through the helper as magic
//! offsets.
use crate::bytes::{le_bytes, le_value, lemma_le_bytes_len, to_le_bytes};
use vstd::arithmetic::power2::{lemma2_to64, lemma_pow2_adds, lemma_pow2_pos, pow2};
use vstd::prelude::*;

verus! {

/// A key or value as the bytecode sees it: a fixed-width little-endian image
/// of a C struct.
pub type Bytes = Vec<u8>;

/// Byte offset of the action discriminant in a value image.
pub const VALUE_ACTION_AT: usize = 0;

/// Byte offset of the action parameter block in a value image.
pub const VALUE_PARAMS_AT: usize = 4;

/// How one table's key and value are laid out in the compiled program.
#[derive(Clone, Copy, Debug, PartialEq, Eq, Structural)]
pub struct Layout {
    /// Key width in bytes.
    pub key: usize,
    /// Value width in bytes.
    pub value: usize,
    /// Byte offset of the action discriminant within the value.
    pub action_at: usize,
    /// Byte offset of the action's parameter block within the value.
    pub params_at: usize,
    /// Byte offset of the matched field within the key.
    pub match_at: usize,
    /// Width of the matched field within the key.
    pub match_len: usize,
}

/// `s` with `part` written over it from `at` on.
pub open spec fn overlaid(s: Seq<u8>, at: int, part: Seq<u8>) -> Seq<u8> {
    Seq::new(
        s.len(),
        |i: int|
            if at <= i < at + part.len() {
                part[i - at]
            } else {
                s[i]
            },
    )
}

/// `n` bytes of zero.
pub open spec fn zeros(n: nat) -> Seq<u8> {
    Seq::new(n, |i: int| 0u8)
}

/// `n` bytes of zero.
pub fn zeroed(n: usize) -> (r: Vec<u8>)
    ensures
        r@ == zeros(n as nat),
{
    let mut out: Vec<u8> = Vec::new();
    let mut i: usize = 0;
    while i < n
        invariant
            i <= n,
            out@ == zeros(i as nat),
        decreases n - i,
    {
        out.push(0);
        i += 1;
        assert(out@ =~= zeros(i as nat));
    }
    out
}

/// Write the first `n` bytes of `part` over `s` from `at` on.
pub fn overlay(s: &mut Vec<u8>, at: usize, part: &[u8], n: usize)
    requires
        n <= part@.len(),
        at + n <= old(s)@.len(),
    ensures
        final(s)@ == overlaid(old(s)@, at as int, part@.subrange(0, n as int)),
{
    let ghost before = s@;
    let mut i: usize = 0;
    assert(s@ =~= overlaid(before, at as int, part@.subrange(0, 0)));
    while i < n
        invariant
            i <= n <= part@.len(),
            at + n <= s@.len(),
            s@.len() == before.len(),
            s@ == overlaid(before, at as int, part@.subrange(0, i as int)),
        decreases n - i,
    {
        assert(s@.len() == s.len());
        s[at + i] = part[i];
        i += 1;
        assert(s@ =~= overlaid(before, at as int, part@.subrange(0, i as int)));
    }
}

impl Layout {
    /// The layout of a table with a single scalar key: a 4-byte action
    /// discriminant, then the parameters, rounded up to the discriminant's
    /// alignment.
    pub open spec fn spec_scalar(key: usize, params: usize) -> Layout {
        Layout {
            key,
            value: (VALUE_PARAMS_AT + (params + 3) / 4 * 4) as usize,
            action_at: VALUE_ACTION_AT,
            params_at: VALUE_PARAMS_AT,
            match_at: 0,
            match_len: key,
        }
    }

    /// A layout for a scalar-keyed table with `key` bytes of key and `params`
    /// bytes of action parameters.
    #[must_use]
    pub fn scalar(key: usize, params: usize) -> (r: Self)
        requires
            params + 7 <= usize::MAX,
        ensures
            r == Layout::spec_scalar(key, params),
    {
        Layout {
            key,
            value: VALUE_PARAMS_AT + (params + 3) / 4 * 4,
            action_at: VALUE_ACTION_AT,
            params_at: VALUE_PARAMS_AT,
            match_at: 0,
            match_len: key,
        }
    }

    /// A layout whose parameter block and matched field stand elsewhere.
    #[must_use]
    pub fn explicit(
        key: usize,
        value: usize,
        params_at: usize,
        match_at: usize,
        match_len: usize,
    ) -> (r: Self)
        ensures
            r == (Layout {
                key,
                value,
                action_at: VALUE_ACTION_AT,
                params_at,
                match_at,
                match_len,
            }),
    {
        Layout { key, value, action_at: VALUE_ACTION_AT, params_at, match_at, match_len }
    }

    /// The value image for an action: zeroes, the discriminant, and as much of
    /// the parameters as there is room for.
    pub open spec fn spec_value(self, action: u32, params: Seq<u8>) -> Seq<u8> {
        let room = self.value - self.params_at;
        let n = if params.len() < room {
            params.len() as int
        } else {
            room
        };
        overlaid(
            overlaid(
                zeros(self.value as nat),
                self.action_at as int,
                le_bytes(action as int, 4),
            ),
            self.params_at as int,
            params.subrange(0, n),
        )
    }

    /// Build the value image for `action` with `params` already encoded.
    #[must_use]
    pub fn value(&self, action: u32, params: &[u8]) -> (r: Bytes)
        requires
            self.action_at + 4 <= self.value,
            self.params_at <= self.value,
        ensures
            r@ == self.spec_value(action, params@),
    {
        let mut v: Vec<u8> = zeroed(self.value);
        let disc: Vec<u8> = to_le_bytes(action as u64, 4);
        proof {
            lemma_le_bytes_len(action as int, 4);
            assert(disc@.subrange(0, 4) =~= disc@);
        }
        overlay(&mut v, self.action_at, disc.as_slice(), 4);
        let room: usize = self.value - self.params_at;
        let n: usize = if params.len() < room {
            params.len()
        } else {
            room
        };
        overlay(&mut v, self.params_at, params, n);
        v
    }
}

/// How a table matches.
///
/// Closed, and mirrors the two map types the compiler emits; no other match
/// kind reaches this backend, because the compiler refuses it first.
#[derive(Clone, Copy, Debug, PartialEq, Eq, Structural)]
pub enum Match {
    /// Whole-key equality.
    Exact,
    /// Longest prefix over the leading bits of the key, most significant
    /// first, with the prefix length carried alongside each entry.
    Lpm,
}

/// `b` without its `n` lowest bits.
pub open spec fn cleared(b: u8, n: int) -> u8 {
    (b - b as int % pow2(n as nat) as int) as u8
}

/// How many of the lowest bits of a key of `len` bytes lie behind a prefix.
pub open spec fn host_bits(len: int, prefix: int) -> int {
    if prefix < 8 * len {
        8 * len - prefix
    } else {
        0
    }
}

/// `key` with every bit behind its leading `prefix` bits zero. The image is
/// little-endian, so the leading bits stand in its last bytes.
pub open spec fn masked(key: Seq<u8>, prefix: int) -> Seq<u8> {
    let low = host_bits(key.len() as int, prefix);
    Seq::new(
        key.len(),
        |i: int|
            if 8 * i + 8 <= low {
                0
            } else if 8 * i >= low {
                key[i]
            } else {
                cleared(key[i], low - 8 * i)
            },
    )
}

/// `b` without its `n` lowest bits.
fn clear_low(b: u8, n: usize) -> (r: u8)
    requires
        0 < n < 8,
    ensures
        r == cleared(b, n as int),
{
    proof {
        lemma2_to64();
    }
    let unit: u8 = if n == 1 {
        2
    } else if n == 2 {
        4
    } else if n == 3 {
        8
    } else if n == 4 {
        16
    } else if n == 5 {
        32
    } else if n == 6 {
        64
    } else {
        128
    };
    assert(unit == pow2(n as nat));
    assert(b % unit <= b) by (nonlinear_arith)
        requires
            unit > 0,
    ;
    b - b % unit
}

/// Zero every bit of `key` below the leading `prefix` bits.
///
/// The key image is little-endian, but a prefix is defined over the value's
/// *most significant* bits, so the zeroes fill the image from its front.
#[must_use]
pub fn mask(key: &[u8], prefix: u8) -> (r: Bytes)
    ensures
        r@ == masked(key@, prefix as int),
{
    let n: usize = key.len();
    let keep_bytes: usize = (prefix / 8) as usize;
    let keep_bits: usize = (prefix % 8) as usize;
    let ghost low = host_bits(n as int, prefix as int);
    let mut out: Vec<u8> = Vec::new();
    let mut i: usize = 0;
    while i < n
        invariant
            i <= n,
            n == key@.len(),
            keep_bytes == prefix / 8,
            keep_bits == prefix % 8,
            low == host_bits(n as int, prefix as int),
            out@.len() == i,
            forall|j: int| 0 <= j < i ==> (#[trigger] out@[j]) == masked(key@, prefix as int)[j],
        decreases n - i,
    {
        let above: usize = n - 1 - i;
        let b: u8 = if above < keep_bytes {
            key[i]
        } else if above > keep_bytes || keep_bits == 0 {
            0
        } else {
            clear_low(key[i], 8 - keep_bits)
        };
        out.push(b);
        i += 1;
    }
    assert(out@ =~= masked(key@, prefix as int));
    out
}

/// A masked key is the key rounded down to a multiple of what its host bits
/// can count: the leading bits stay, and nothing else does.
pub proof fn law_mask_rounds_down(key: Seq<u8>, prefix: int)
    requires
        0 <= prefix,
    ensures
        le_value(masked(key, prefix)) == le_value(key) - le_value(key) % pow2(
            host_bits(key.len() as int, prefix) as nat,
        ) as int,
{
    lemma_rounded(key, host_bits(key.len() as int, prefix));
    assert(masked(key, prefix) =~= rounded(key, host_bits(key.len() as int, prefix)));
}

/// `key` without its `low` lowest bits.
spec fn rounded(key: Seq<u8>, low: int) -> Seq<u8> {
    Seq::new(
        key.len(),
        |i: int|
            if 8 * i + 8 <= low {
                0
            } else if 8 * i >= low {
                key[i]
            } else {
                cleared(key[i], low - 8 * i)
            },
    )
}

proof fn lemma_rounded(key: Seq<u8>, low: int)
    requires
        0 <= low <= 8 * key.len(),
    ensures
        le_value(rounded(key, low)) == le_value(key) - le_value(key) % pow2(low as nat) as int,
        0 <= le_value(key),
    decreases key.len(),
{
    lemma2_to64();
    lemma_pow2_pos(low as nat);
    if key.len() == 0 {
        assert(pow2(0) == 1);
    } else {
        let rest = key.subrange(1, key.len() as int);
        let x = le_value(rest);
        let b = key[0] as int;
        let r = rounded(key, low);
        let r_rest = r.subrange(1, r.len() as int);
        if low >= 8 {
            lemma_rounded(rest, low - 8);
            assert(r_rest =~= rounded(rest, low - 8));
            let unit = pow2((low - 8) as nat) as int;
            lemma_pow2_pos((low - 8) as nat);
            lemma_pow2_adds(8, (low - 8) as nat);
            assert(pow2(low as nat) as int == 0x100 * unit);
            assert((b + 0x100 * x) % (0x100 * unit) == b + 0x100 * (x % unit)) by {
                lemma_mod_digit(b, x, unit);
            }
            assert(r[0] == 0);
            assert(0x100 * (x - x % unit) == 0x100 * x - 0x100 * (x % unit)) by (nonlinear_arith);
        } else {
            lemma_rounded(rest, 0);
            assert(r_rest =~= rest) by {
                assert(forall|i: int| 0 <= i < rest.len() ==> r_rest[i] == rest[i]);
            }
            let unit = pow2(low as nat) as int;
            assert((b + 0x100 * x) % unit == b % unit) by {
                lemma_pow2_adds(low as nat, (8 - low) as nat);
                let other = pow2((8 - low) as nat) as int;
                assert(0x100 == unit * other);
                assert(0x100 * x == unit * (other * x)) by (nonlinear_arith)
                    requires
                        0x100 == unit * other,
                ;
                vstd::arithmetic::div_mod::lemma_mod_multiples_vanish(other * x, b, unit);
            }
            if low == 0 {
                assert(r[0] == key[0]);
            } else {
                assert(r[0] == cleared(key[0], low));
                vstd::arithmetic::div_mod::lemma_mod_decreases(b as nat, unit as nat);
            }
        }
    }
}

proof fn lemma_mod_digit(b: int, x: int, unit: int)
    requires
        0 <= b < 0x100,
        0 <= x,
        0 < unit,
    ensures
        (b + 0x100 * x) % (0x100 * unit) == b + 0x100 * (x % unit),
{
    let q = x / unit;
    let m = x % unit;
    vstd::arithmetic::div_mod::lemma_fundamental_div_mod(x, unit);
    assert(0 <= m < unit) by (nonlinear_arith)
        requires
            m == x % unit,
            0 < unit,
    ;
    assert(b + 0x100 * x == q * (0x100 * unit) + (b + 0x100 * m)) by (nonlinear_arith)
        requires
            x == unit * q + m,
    ;
    assert(0 <= b + 0x100 * m < 0x100 * unit);
    vstd::arithmetic::div_mod::lemma_fundamental_div_mod_converse(
        b + 0x100 * x,
        0x100 * unit,
        q,
        b + 0x100 * m,
    );
}

/// Masking again changes nothing.
pub proof fn law_mask_is_stable(key: Seq<u8>, prefix: int)
    requires
        0 <= prefix,
    ensures
        masked(masked(key, prefix), prefix) == masked(key, prefix),
{
    let m = masked(key, prefix);
    let low = host_bits(key.len() as int, prefix);
    assert forall|i: int| 0 <= i < m.len() implies masked(m, prefix)[i] == m[i] by {
        if 8 * i < low && low < 8 * i + 8 {
            let n = (low - 8 * i) as nat;
            lemma2_to64();
            lemma_pow2_pos(n);
            let unit = pow2(n) as int;
            let b = key[i] as int;
            vstd::arithmetic::div_mod::lemma_mod_decreases(b as nat, unit as nat);
            assert((b - b % unit) % unit == 0) by {
                vstd::arithmetic::div_mod::lemma_fundamental_div_mod(b, unit);
                assert(b - b % unit == unit * (b / unit));
                vstd::arithmetic::div_mod::lemma_mod_multiples_basic(b / unit, unit);
                assert(unit * (b / unit) == (b / unit) * unit) by (nonlinear_arith);
            }
        }
    }
    assert(masked(m, prefix) =~= m);
}

/// Whether `a` comes before `b`, byte by byte.
pub open spec fn bytes_before(a: Seq<u8>, b: Seq<u8>) -> bool
    decreases a.len(),
{
    if b.len() == 0 {
        false
    } else if a.len() == 0 {
        true
    } else if a[0] != b[0] {
        a[0] < b[0]
    } else {
        bytes_before(a.subrange(1, a.len() as int), b.subrange(1, b.len() as int))
    }
}

/// Whether one entry is listed before another: by prefix length, then by key.
pub open spec fn listed_before(a: (u8, Seq<u8>), b: (u8, Seq<u8>)) -> bool {
    a.0 < b.0 || (a.0 == b.0 && bytes_before(a.1, b.1))
}

/// The order is a strict one.
proof fn lemma_bytes_order(a: Seq<u8>, b: Seq<u8>)
    ensures
        bytes_before(a, b) ==> a != b && !bytes_before(b, a),
        !bytes_before(a, b) && a != b ==> bytes_before(b, a),
    decreases a.len(),
{
    if a.len() > 0 && b.len() > 0 {
        let ra = a.subrange(1, a.len() as int);
        let rb = b.subrange(1, b.len() as int);
        lemma_bytes_order(ra, rb);
        if a[0] == b[0] && ra == rb {
            assert(a =~= seq![a[0]] + ra);
            assert(b =~= seq![b[0]] + rb);
        }
    } else if a.len() == 0 && b.len() == 0 {
        assert(a =~= b);
    }
}

proof fn lemma_bytes_transitive(a: Seq<u8>, b: Seq<u8>, c: Seq<u8>)
    requires
        bytes_before(a, b),
        bytes_before(b, c),
    ensures
        bytes_before(a, c),
    decreases a.len(),
{
    if a.len() > 0 && a[0] == b[0] && b[0] == c[0] {
        lemma_bytes_transitive(
            a.subrange(1, a.len() as int),
            b.subrange(1, b.len() as int),
            c.subrange(1, c.len() as int),
        );
    }
}

proof fn lemma_order(a: (u8, Seq<u8>), b: (u8, Seq<u8>))
    ensures
        listed_before(a, b) ==> a != b && !listed_before(b, a),
        !listed_before(a, b) && a != b ==> listed_before(b, a),
{
    lemma_bytes_order(a.1, b.1);
}

proof fn lemma_transitive(a: (u8, Seq<u8>), b: (u8, Seq<u8>), c: (u8, Seq<u8>))
    requires
        listed_before(a, b),
        listed_before(b, c),
    ensures
        listed_before(a, c),
{
    if a.0 == b.0 && b.0 == c.0 {
        lemma_bytes_transitive(a.1, b.1, c.1);
    }
}

/// Whether `a` and `b` hold the same bytes, or else which comes first.
#[derive(Clone, Copy)]
enum Order {
    Before,
    Same,
    Behind,
}

fn order_of(a: &[u8], b: &[u8]) -> (r: Order)
    ensures
        r is Before <==> bytes_before(a@, b@),
        r is Same <==> a@ == b@,
        r is Behind <==> bytes_before(b@, a@),
{
    let mut i: usize = 0;
    proof {
        assert(a@.subrange(0, a@.len() as int) =~= a@);
        assert(b@.subrange(0, b@.len() as int) =~= b@);
        lemma_bytes_order(a@, b@);
    }
    while i < a.len() && i < b.len() && a[i] == b[i]
        invariant
            i <= a@.len(),
            i <= b@.len(),
            bytes_before(a@, b@) == bytes_before(
                a@.subrange(i as int, a@.len() as int),
                b@.subrange(i as int, b@.len() as int),
            ),
            bytes_before(b@, a@) == bytes_before(
                b@.subrange(i as int, b@.len() as int),
                a@.subrange(i as int, a@.len() as int),
            ),
            a@.subrange(0, i as int) == b@.subrange(0, i as int),
        decreases a.len() - i,
    {
        let ghost ra = a@.subrange(i as int, a@.len() as int);
        let ghost rb = b@.subrange(i as int, b@.len() as int);
        i += 1;
        proof {
            assert(ra.subrange(1, ra.len() as int) =~= a@.subrange(i as int, a@.len() as int));
            assert(rb.subrange(1, rb.len() as int) =~= b@.subrange(i as int, b@.len() as int));
            assert(a@.subrange(0, i as int) =~= a@.subrange(0, i - 1).push(a@[i - 1]));
            assert(b@.subrange(0, i as int) =~= b@.subrange(0, i - 1).push(b@[i - 1]));
        }
    }
    if i == a.len() && i == b.len() {
        assert(a@.subrange(0, i as int) =~= a@);
        assert(b@.subrange(0, i as int) =~= b@);
        Order::Same
    } else if i == a.len() || (i < b.len() && a[i] < b[i]) {
        Order::Before
    } else {
        Order::Behind
    }
}

/// One installed entry.
#[derive(Debug)]
pub struct Entry {
    /// Significant leading bits of the key; 0 in an exact table.
    pub prefix: u8,
    /// The key image, without host bits.
    pub key: Bytes,
    /// The value image.
    pub value: Bytes,
}

impl Entry {
    /// What the entry is found by.
    pub open spec fn id(self) -> (u8, Seq<u8>) {
        (self.prefix, self.key@)
    }
}

/// The bytes of `s`, again.
fn copied(s: &[u8]) -> (r: Bytes)
    ensures
        r@ == s@,
{
    let mut out: Bytes = Vec::new();
    out.extend_from_slice(s);
    assert(out@ =~= s@);
    out
}

/// `v` holds each entry once, in the order of a listing.
pub open spec fn in_order(v: Seq<Entry>) -> bool {
    forall|i: int, j: int|
        0 <= i < j < v.len() ==> listed_before((#[trigger] v[i]).id(), (#[trigger] v[j]).id())
}

/// Whether `v` holds an entry found by `id`.
pub open spec fn holds(v: Seq<Entry>, id: (u8, Seq<u8>)) -> bool {
    exists|i: int| 0 <= i < v.len() && (#[trigger] v[i]).id() == id
}

/// Where that entry is.
pub open spec fn place(v: Seq<Entry>, id: (u8, Seq<u8>)) -> int {
    choose|i: int| 0 <= i < v.len() && (#[trigger] v[i]).id() == id
}

/// What `v` lists.
pub open spec fn contents(v: Seq<Entry>) -> Map<(u8, Seq<u8>), Seq<u8>> {
    Map::new(|id: (u8, Seq<u8>)| holds(v, id), |id: (u8, Seq<u8>)| v[place(v, id)].value@)
}

/// An entry of a listing is found where it stands.
pub proof fn lemma_place(v: Seq<Entry>, i: int)
    requires
        in_order(v),
        0 <= i < v.len(),
    ensures
        holds(v, v[i].id()),
        place(v, v[i].id()) == i,
        contents(v).contains_key(v[i].id()),
        contents(v)[v[i].id()] == v[i].value@,
{
    let id = v[i].id();
    let j = place(v, id);
    assert(v[j].id() == id);
    lemma_order(v[i].id(), v[j].id());
    if i < j {
        assert(listed_before(v[i].id(), v[j].id()));
    } else if j < i {
        assert(listed_before(v[j].id(), v[i].id()));
    }
}

/// One table's contents.
#[derive(Debug)]
pub struct Table {
    matching: Match,
    layout: Layout,
    entries: Vec<Entry>,
    default: Option<Bytes>,
}

/// A table as its users see it.
#[verifier::ext_equal]
pub struct ImageTable {
    pub matching: Match,
    pub layout: Layout,
    pub entries: Map<(u8, Seq<u8>), Seq<u8>>,
    pub default: Option<Seq<u8>>,
}

/// The value of the longest prefix of at most `len` bits that covers `key`.
pub open spec fn covering(entries: Map<(u8, Seq<u8>), Seq<u8>>, key: Seq<u8>, len: int) -> Option<
    Seq<u8>,
>
    decreases len + 1,
{
    if len < 0 {
        None
    } else if entries.contains_key((len as u8, masked(key, len))) {
        Some(entries[(len as u8, masked(key, len))])
    } else {
        covering(entries, key, len - 1)
    }
}

impl ImageTable {
    /// What an entry for `key` is found by.
    pub open spec fn canonical(self, key: Seq<u8>, prefix: u8) -> (u8, Seq<u8>) {
        match self.matching {
            Match::Exact => (0, key),
            Match::Lpm => (prefix, masked(key, prefix as int)),
        }
    }

    /// The value of the entry that `key` matches.
    pub open spec fn matched(self, key: Seq<u8>) -> Option<Seq<u8>> {
        match self.matching {
            Match::Exact => if self.entries.contains_key((0, key)) {
                Some(self.entries[(0, key)])
            } else {
                None
            },
            Match::Lpm => covering(self.entries, key, 255),
        }
    }

    /// What a lookup of `key` answers.
    pub open spec fn answer(self, key: Seq<u8>) -> Option<Seq<u8>> {
        match self.matched(key) {
            Some(v) => Some(v),
            None => self.default,
        }
    }

    /// The table with an entry installed or replaced.
    pub open spec fn inserted(self, key: Seq<u8>, prefix: u8, value: Seq<u8>) -> ImageTable {
        ImageTable {
            entries: self.entries.insert(self.canonical(key, prefix), value),
            ..self
        }
    }

    /// The table without an entry.
    pub open spec fn removed(self, key: Seq<u8>, prefix: u8) -> ImageTable {
        ImageTable { entries: self.entries.remove(self.canonical(key, prefix)), ..self }
    }
}

impl View for Table {
    type V = ImageTable;

    closed spec fn view(&self) -> ImageTable {
        ImageTable {
            matching: self.matching,
            layout: self.layout,
            entries: contents(self.entries@),
            default: match self.default {
                Some(d) => Some(d@),
                None => None,
            },
        }
    }
}

impl Clone for Table {
    fn clone(&self) -> (r: Self)
        ensures
            self.wf() ==> r.wf() && r@ == self@,
    {
        let mut entries: Vec<Entry> = Vec::new();
        let ghost v = self.entries@;
        let mut i: usize = 0;
        while i < self.entries.len()
            invariant
                i <= v.len(),
                v == self.entries@,
                entries@.len() == i,
                forall|j: int|
                    0 <= j < i ==> (#[trigger] entries@[j]).id() == v[j].id() && entries@[j].value@
                        == v[j].value@,
            decreases self.entries.len() - i,
        {
            let e: &Entry = &self.entries[i];
            entries.push(
                Entry {
                    prefix: e.prefix,
                    key: copied(e.key.as_slice()),
                    value: copied(e.value.as_slice()),
                },
            );
            i += 1;
        }
        proof {
            if in_order(v) {
                lemma_same_contents(entries@, v);
            }
        }
        let default: Option<Bytes> = match &self.default {
            Some(d) => Some(copied(d.as_slice())),
            None => None,
        };
        Table { matching: self.matching, layout: self.layout, entries, default }
    }
}

proof fn lemma_same_contents(a: Seq<Entry>, b: Seq<Entry>)
    requires
        in_order(b),
        a.len() == b.len(),
        forall|i: int|
            0 <= i < a.len() ==> (#[trigger] a[i]).id() == b[i].id() && a[i].value@ == b[i].value@,
    ensures
        contents(a) == contents(b),
        in_order(a),
{
    assert(in_order(a));
    assert forall|id: (u8, Seq<u8>)| #[trigger] contents(a).contains_key(id) == contents(
        b,
    ).contains_key(id) && (contents(a).contains_key(id) ==> contents(a)[id] == contents(b)[id]) by {
        if holds(a, id) {
            let i = place(a, id);
            assert(a[i].id() == id);
            lemma_place(a, i);
            lemma_place(b, i);
        }
        if holds(b, id) {
            let i = place(b, id);
            assert(b[i].id() == id);
            assert(a[i].id() == id);
        }
    }
    assert(contents(a) =~= contents(b));
}

/// Lengths without a covering prefix do not matter.
pub proof fn lemma_covering_skips(
    entries: Map<(u8, Seq<u8>), Seq<u8>>,
    key: Seq<u8>,
    from: int,
    to: int,
)
    requires
        -1 <= to <= from <= 255,
        forall|l: int|
            to < l <= from ==> !(#[trigger] entries.contains_key((l as u8, masked(key, l)))),
    ensures
        covering(entries, key, from) == covering(entries, key, to),
    decreases from - to,
{
    if to < from {
        assert(!entries.contains_key((from as u8, masked(key, from))));
        lemma_covering_skips(entries, key, from - 1, to);
    }
}

impl Table {
    /// The entries are in order.
    pub closed spec fn wf(&self) -> bool {
        in_order(self.entries@)
    }

    /// An empty table. `default` is given only for a *default-action* map,
    /// which always answers; an entry map must return nothing on a miss,
    /// because that is the signal generated code uses to go and consult the
    /// default map.
    #[must_use]
    pub fn new(matching: Match, layout: Layout, default: Option<Bytes>) -> (r: Self)
        ensures
            r.wf(),
            r@ == (ImageTable {
                matching,
                layout,
                entries: Map::empty(),
                default: match default {
                    Some(d) => Some(d@),
                    None => None,
                },
            }),
    {
        let r = Table { matching, layout, entries: Vec::new(), default };
        assert(r@.entries =~= Map::empty());
        r
    }

    /// This table's layout.
    #[must_use]
    pub fn layout(&self) -> (r: Layout)
        ensures
            r == self@.layout,
    {
        self.layout
    }

    /// What an entry for `key` is found by.
    fn canonical(&self, key: &[u8], prefix: u8) -> (r: (u8, Bytes))
        ensures
            (r.0, r.1@) == self@.canonical(key@, prefix),
    {
        match self.matching {
            Match::Exact => (0, copied(key)),
            Match::Lpm => (prefix, mask(key, prefix)),
        }
    }

    /// The first entry that is not listed before `(prefix, key)`.
    fn seek(&self, prefix: u8, key: &[u8]) -> (r: (usize, bool))
        requires
            self.wf(),
        ensures
            r.0 <= self.entries@.len(),
            forall|i: int|
                0 <= i < r.0 ==> listed_before((#[trigger] self.entries@[i]).id(), (prefix, key@)),
            forall|i: int|
                r.0 <= i < self.entries@.len() && !(r.1 && i == r.0) ==> listed_before(
                    (prefix, key@),
                    (#[trigger] self.entries@[i]).id(),
                ),
            r.1 ==> r.0 < self.entries@.len() && self.entries@[r.0 as int].id() == (prefix, key@),
            r.1 == holds(self.entries@, (prefix, key@)),
    {
        let ghost id = (prefix, key@);
        let ghost v = self.entries@;
        let mut i: usize = 0;
        while i < self.entries.len()
            invariant
                i <= self.entries@.len(),
                v == self.entries@,
                in_order(v),
                id == (prefix, key@),
                forall|j: int| 0 <= j < i ==> listed_before((#[trigger] v[j]).id(), id),
            ensures
                i <= v.len(),
                forall|j: int| 0 <= j < i ==> listed_before((#[trigger] v[j]).id(), id),
                i < v.len() ==> !listed_before(v[i as int].id(), id),
            decreases self.entries.len() - i,
        {
            let e: &Entry = &self.entries[i];
            let before: bool = if e.prefix != prefix {
                e.prefix < prefix
            } else {
                match order_of(e.key.as_slice(), key) {
                    Order::Before => true,
                    _ => false,
                }
            };
            if !before {
                break;
            }
            i += 1;
        }
        let found: bool = i < self.entries.len() && self.entries[i].prefix == prefix && (
        match order_of(self.entries[i].key.as_slice(), key) {
            Order::Same => true,
            _ => false,
        });
        proof {
            if i < v.len() {
                lemma_order(v[i as int].id(), id);
                assert forall|j: int| i < j < v.len() implies listed_before(
                    id,
                    (#[trigger] v[j]).id(),
                ) by {
                    assert(listed_before(v[i as int].id(), v[j].id()));
                    if v[i as int].id() != id {
                        lemma_transitive(id, v[i as int].id(), v[j].id());
                    }
                }
            }
            if holds(v, id) {
                let j = place(v, id);
                assert(v[j].id() == id);
                lemma_order(v[j].id(), id);
                assert(j >= i);
                if j > i {
                    assert(listed_before(id, v[j].id()));
                }
            }
            if found {
                assert(v[i as int].id() == id);
            }
        }
        (i, found)
    }

    /// Install or replace an entry. `prefix` is ignored for an exact table.
    pub fn insert(&mut self, key: &[u8], prefix: u8, value: Bytes)
        requires
            old(self).wf(),
        ensures
            final(self).wf(),
            final(self)@ == old(self)@.inserted(key@, prefix, value@),
    {
        let (p, k) = self.canonical(key, prefix);
        let ghost id = (p, k@);
        let (i, found) = self.seek(p, k.as_slice());
        let ghost v = self.entries@;
        let ghost x = value@;
        let entry = Entry { prefix: p, key: k, value };
        if found {
            self.entries.set(i, entry);
        } else {
            self.entries.insert(i, entry);
        }
        let ghost w = self.entries@;
        proof {
            assert(w[i as int].id() == id);
            assert(found ==> w =~= v.update(i as int, w[i as int]));
            assert(!found ==> w =~= v.insert(i as int, w[i as int]));
            assert(in_order(w));
            lemma_place(w, i as int);
            assert forall|a: (u8, Seq<u8>)| #[trigger] contents(w).contains_key(a)
                == contents(v).insert(id, x).contains_key(a) && (contents(w).contains_key(a)
                ==> contents(w)[a] == contents(v).insert(id, x)[a]) by {
                if holds(w, a) {
                    let j = place(w, a);
                    lemma_place(w, j);
                    if j != i {
                        let o = if found || j < i {
                            j
                        } else {
                            j - 1
                        };
                        assert(v[o] == w[j]);
                        lemma_place(v, o);
                        lemma_order(w[i as int].id(), w[j].id());
                    }
                }
                if holds(v, a) && a != id {
                    let o = place(v, a);
                    lemma_place(v, o);
                    let j = if found || o < i {
                        o
                    } else {
                        o + 1
                    };
                    assert(w[j] == v[o]);
                    lemma_place(w, j);
                }
            }
            assert(contents(w) =~= contents(v).insert(id, x));
        }
    }

    /// Remove an entry, reporting whether one was there.
    pub fn remove(&mut self, key: &[u8], prefix: u8) -> (r: bool)
        requires
            old(self).wf(),
        ensures
            final(self).wf(),
            final(self)@ == old(self)@.removed(key@, prefix),
            r == old(self)@.entries.contains_key(old(self)@.canonical(key@, prefix)),
    {
        let (p, k) = self.canonical(key, prefix);
        let ghost id = (p, k@);
        let (i, found) = self.seek(p, k.as_slice());
        let ghost v = self.entries@;
        if !found {
            assert(contents(v).remove(id) =~= contents(v));
            return false;
        }
        self.entries.remove(i);
        proof {
            let w = self.entries@;
            assert(w =~= v.remove(i as int));
            lemma_place(v, i as int);
            assert forall|a: (u8, Seq<u8>)| #[trigger] contents(w).contains_key(a)
                == contents(v).remove(id).contains_key(a) && (contents(w).contains_key(a)
                ==> contents(w)[a] == contents(v)[a]) by {
                if holds(w, a) {
                    let j = place(w, a);
                    lemma_place(w, j);
                    let o = if j < i {
                        j
                    } else {
                        j + 1
                    };
                    assert(v[o] == w[j]);
                    lemma_place(v, o);
                    lemma_order(v[i as int].id(), v[o].id());
                }
                if holds(v, a) && a != id {
                    let o = place(v, a);
                    lemma_place(v, o);
                    let j = if o < i {
                        o
                    } else {
                        o - 1
                    };
                    assert(w[j] == v[o]);
                    lemma_place(w, j);
                }
            }
            assert(contents(w) =~= contents(v).remove(id));
        }
        true
    }

    /// Replace the miss value.
    pub fn set_default(&mut self, value: Bytes)
        requires
            old(self).wf(),
        ensures
            final(self).wf(),
            final(self)@ == (ImageTable { default: Some(value@), ..old(self)@ }),
    {
        self.default = Some(value);
    }

    /// Every entry, in a deterministic order.
    #[must_use]
    pub fn iter(&self) -> (r: &[Entry])
        requires
            self.wf(),
        ensures
            in_order(r@),
            contents(r@) == self@.entries,
    {
        self.entries.as_slice()
    }

    /// Entries installed.
    #[must_use]
    pub fn len(&self) -> (r: usize)
        requires
            self.wf(),
        ensures
            r == self@.entries.dom().len(),
            self@.entries.dom().finite(),
    {
        proof {
            lemma_size(self.entries@);
        }
        self.entries.len()
    }

    /// Whether no entry is installed.
    #[must_use]
    pub fn is_empty(&self) -> (r: bool)
        requires
            self.wf(),
        ensures
            r == (self@.entries =~= Map::empty()),
    {
        proof {
            if self.entries@.len() > 0 {
                lemma_place(self.entries@, 0);
            } else {
                assert(self@.entries =~= Map::empty());
            }
        }
        self.entries.len() == 0
    }

    /// Forget every entry, reporting how many there were.
    pub fn clear(&mut self) -> (n: usize)
        requires
            old(self).wf(),
        ensures
            final(self).wf(),
            n == old(self)@.entries.dom().len(),
            final(self)@ == (ImageTable { entries: Map::empty(), ..old(self)@ }),
    {
        let n: usize = self.len();
        self.entries = Vec::new();
        assert(self@.entries =~= Map::empty());
        n
    }

    /// The value for `key`, if this table has one.
    ///
    /// `None` is meaningful rather than an absence to paper over: generated
    /// code consults the table's default-action map when it gets nothing. A
    /// table that always answered would make the miss path unreachable.
    #[must_use]
    pub fn lookup(&self, key: &[u8]) -> (r: Option<&[u8]>)
        requires
            self.wf(),
        ensures
            (match r {
                Some(v) => Some(v@),
                None => None,
            }) == self@.answer(key@),
    {
        let at: usize = match self.matching {
            Match::Exact => {
                let (i, found) = self.seek(0, key);
                proof {
                    if found {
                        lemma_place(self.entries@, i as int);
                    }
                }
                if found {
                    i
                } else {
                    self.entries.len()
                }
            },
            Match::Lpm => self.longest_prefix(key),
        };
        if at < self.entries.len() {
            return Some(self.entries[at].value.as_slice());
        }
        match &self.default {
            Some(d) => Some(d.as_slice()),
            None => None,
        }
    }

    /// The entry of the longest prefix that covers `key`, or the number of
    /// entries where none does.
    fn longest_prefix(&self, key: &[u8]) -> (r: usize)
        requires
            self.wf(),
        ensures
            r <= self.entries@.len(),
            covering(self@.entries, key@, 255) == (if r < self.entries@.len() {
                Some(self.entries@[r as int].value@)
            } else {
                None
            }),
    {
        let ghost v = self.entries@;
        let ghost m = self@.entries;
        let n: usize = self.entries.len();
        let mut i: usize = n;
        let mut bits: u8 = 0;
        let mut window: Bytes = mask(key, 0);
        while i > 0
            invariant
                i <= n,
                n == v.len(),
                v == self.entries@,
                m == contents(v),
                in_order(v),
                window@ == masked(key@, bits as int),
                forall|j: int|
                    i <= j < n ==> (#[trigger] v[j]).key@ != masked(key@, v[j].prefix as int),
            decreases i,
        {
            i -= 1;
            let e: &Entry = &self.entries[i];
            if e.prefix != bits {
                bits = e.prefix;
                window = mask(key, bits);
            }
            let same: bool = match order_of(e.key.as_slice(), window.as_slice()) {
                Order::Same => true,
                _ => false,
            };
            if same {
                proof {
                    let p = bits as int;
                    lemma_place(v, i as int);
                    assert(v[i as int].id() == (p as u8, masked(key@, p)));
                    assert forall|l: int| p < l <= 255 implies !(#[trigger] m.contains_key(
                        (l as u8, masked(key@, l)),
                    )) by {
                        let id = (l as u8, masked(key@, l));
                        if holds(v, id) {
                            let j = place(v, id);
                            assert(v[j].id() == id);
                            if j < i {
                                assert(listed_before(v[j].id(), v[i as int].id()));
                            }
                        }
                    }
                    lemma_covering_skips(m, key@, 255, p);
                }
                return i;
            }
        }
        proof {
            assert forall|l: int| -1 < l <= 255 implies !(#[trigger] m.contains_key(
                (l as u8, masked(key@, l)),
            )) by {
                let id = (l as u8, masked(key@, l));
                if holds(v, id) {
                    let j = place(v, id);
                    assert(v[j].id() == id);
                }
            }
            lemma_covering_skips(m, key@, 255, -1);
        }
        n
    }
}

/// A listing is as long as what it lists.
pub proof fn lemma_size(v: Seq<Entry>)
    requires
        in_order(v),
    ensures
        contents(v).dom().finite(),
        contents(v).dom().len() == v.len(),
    decreases v.len(),
{
    if v.len() == 0 {
        assert(contents(v).dom() =~= Set::empty());
    } else {
        let w = v.drop_last();
        let last = v.last().id();
        lemma_size(w);
        assert forall|a: (u8, Seq<u8>)| #[trigger] contents(v).dom().contains(a)
            == contents(w).dom().insert(last).contains(a) by {
            if holds(v, a) {
                let i = place(v, a);
                assert(v[i].id() == a);
                if i < w.len() {
                    assert(w[i].id() == a);
                }
            }
            if holds(w, a) {
                let i = place(w, a);
                assert(w[i].id() == a);
                assert(v[i].id() == a);
            }
            assert(v[v.len() - 1].id() == last);
        }
        assert(contents(v).dom() =~= contents(w).dom().insert(last));
        if holds(w, last) {
            let i = place(w, last);
            assert(v[i].id() == last);
            lemma_order(v[i].id(), v[v.len() - 1].id());
        }
    }
}

/// An entry answers the key it was installed for: in an exact table always,
/// and in a prefix table wherever no longer prefix covers the key too.
pub proof fn law_an_entry_answers_its_key(t: ImageTable, key: Seq<u8>, prefix: u8, value: Seq<u8>)
    requires
        t.matching is Lpm ==> forall|l: int|
            prefix < l <= 255 ==> !(#[trigger] t.entries.contains_key((l as u8, masked(key, l)))),
    ensures
        t.inserted(key, prefix, value).answer(key) == Some(value),
{
    if t.matching is Lpm {
        let m = t.inserted(key, prefix, value).entries;
        assert forall|l: int| prefix < l <= 255 implies !(#[trigger] m.contains_key(
            (l as u8, masked(key, l)),
        )) by {
            assert(!t.entries.contains_key((l as u8, masked(key, l))));
        }
        lemma_covering_skips(m, key, 255, prefix as int);
    }
}

/// Removing the entry of a key in an exact table restores the default answer.
pub proof fn law_removal_restores_the_default(t: ImageTable, key: Seq<u8>, prefix: u8)
    requires
        t.matching is Exact,
    ensures
        t.removed(key, prefix).answer(key) == t.default,
{
}

/// The longest prefix wins: while one covers a key, a shorter one changes
/// nothing.
pub proof fn law_longer_prefixes_win(
    t: ImageTable,
    key: Seq<u8>,
    long: u8,
    short: u8,
    other: Seq<u8>,
    value: Seq<u8>,
)
    requires
        t.matching is Lpm,
        short < long,
        t.entries.contains_key((long, masked(key, long as int))),
    ensures
        t.inserted(other, short, value).answer(key) == t.answer(key),
{
    let m = t.entries;
    let n = t.inserted(other, short, value).entries;
    lemma_longer(m, n, key, 255, short, long);
}

proof fn lemma_longer(
    m: Map<(u8, Seq<u8>), Seq<u8>>,
    n: Map<(u8, Seq<u8>), Seq<u8>>,
    key: Seq<u8>,
    len: int,
    short: u8,
    long: u8,
)
    requires
        short < long <= len <= 255,
        m.contains_key((long, masked(key, long as int))),
        forall|id: (u8, Seq<u8>)|
            id.0 != short ==> m.contains_key(id) == #[trigger] n.contains_key(id) && (
            m.contains_key(id) ==> m[id] == n[id]),
    ensures
        covering(m, key, len) == covering(n, key, len),
        covering(m, key, len) is Some,
    decreases len,
{
    let id = (len as u8, masked(key, len));
    assert(m.contains_key(id) == n.contains_key(id));
    if len > long {
        lemma_longer(m, n, key, len - 1, short, long);
    }
}

/// The image of a value: the action's number in four bytes, least significant
/// first, the parameters where they belong, as far as there is room, and zero
/// everywhere else.
pub proof fn law_value_images(layout: Layout, action: u32, params: Seq<u8>, i: int)
    requires
        layout.action_at + 4 <= layout.params_at <= layout.value,
        0 <= i < layout.value,
    ensures
        ({
            let v = layout.spec_value(action, params);
            let at = layout.action_at as int;
            let p = layout.params_at as int;
            &&& v.len() == layout.value
            &&& v[at] + v[at + 1] * 0x100 + v[at + 2] * 0x1_0000 + v[at + 3] * 0x100_0000 == action
            &&& p <= i < p + params.len() ==> v[i] == params[i - p]
            &&& i < at || at + 4 <= i < p || p + params.len() <= i ==> v[i] == 0
        }),
{
    lemma_le_bytes_len(action as int, 4);
    reveal_with_fuel(le_bytes, 5);
    let b = le_bytes(action as int, 4);
    let v = layout.spec_value(action, params);
    let at = layout.action_at as int;
    assert(v[at] == b[0] && v[at + 1] == b[1] && v[at + 2] == b[2] && v[at + 3] == b[3]);
}

/// A scalar layout keeps the discriminant's alignment: four bytes of
/// discriminant, then the parameters rounded up to the next four.
pub proof fn law_scalar_layouts_are_aligned(key: usize, params: usize)
    requires
        params + 7 <= usize::MAX,
    ensures
        ({
            let l = Layout::spec_scalar(key, params);
            &&& l.key == key
            &&& l.match_at == 0
            &&& l.match_len == key
            &&& l.action_at == 0
            &&& l.params_at == 4
            &&& l.value % 4 == 0
            &&& 4 + params <= l.value < 4 + params + 4
        }),
{
}

/// Entries of an exact table are apart: installing or removing one changes the
/// answer to its own key and to no other.
pub proof fn law_exact_entries_are_apart(
    t: ImageTable,
    key: Seq<u8>,
    other: Seq<u8>,
    prefix: u8,
    value: Seq<u8>,
)
    requires
        t.matching is Exact,
        key != other,
    ensures
        t.inserted(key, prefix, value).answer(key) == Some(value),
        t.inserted(key, prefix, value).answer(other) == t.answer(other),
        t.removed(key, prefix).answer(key) == t.default,
        t.removed(key, prefix).answer(other) == t.answer(other),
        t.inserted(key, prefix, value).default == t.default,
        t.inserted(key, prefix, value).layout == t.layout,
{
}

/// A key that nothing covers is answered with the default: in a table of
/// entries, which has none, with nothing.
pub proof fn law_misses_answer_the_default(t: ImageTable, key: Seq<u8>)
    requires
        t.matching is Exact ==> !t.entries.contains_key((0, key)),
        t.matching is Lpm ==> forall|l: int|
            0 <= l <= 255 ==> !(#[trigger] t.entries.contains_key((l as u8, masked(key, l)))),
    ensures
        t.answer(key) == t.default,
{
    if t.matching is Lpm {
        lemma_covering_skips(t.entries, key, 255, -1);
    }
}

} // verus!
