//! Longest-prefix match over IPv4 prefixes.
use crate::net::Ipv4Addr;
use crate::text::{dec, push_dec};
use std::collections::BTreeMap;
use vstd::prelude::*;

verus! {

/// The mask with `len` leading ones.
pub open spec fn mask_bits(len: u8) -> u32 {
    if len == 0 {
        0
    } else {
        u32::MAX << ((32 - len) as u32)
    }
}

/// The mask with `len` leading ones. The case of no ones is spelled out
/// because a 32-bit value cannot be shifted by 32.
pub(crate) fn mask_of(len: u8) -> (r: u32)
    requires
        len <= 32,
    ensures
        r == mask_bits(len),
{
    if len == 0 {
        0
    } else {
        u32::MAX << ((32 - len) as u32)
    }
}

/// An IPv4 prefix in canonical form: host bits are cleared by construction, so
/// `10.0.0.5/24` and `10.0.0.0/24` are the same value and a table cannot hold
/// two entries that mean the same route.
#[derive(Clone, Copy, Debug, PartialEq, Eq, Hash, PartialOrd, Ord, Structural)]
pub struct Ipv4Prefix {
    base: u32,
    len: u8,
}

impl Ipv4Prefix {
    #[verifier::type_invariant]
    closed spec fn canonical(self) -> bool {
        &&& self.len <= 32
        &&& self.base & mask_bits(self.len) == self.base
    }

    /// The network address, as a number.
    pub closed spec fn spec_base(self) -> u32 {
        self.base
    }

    /// The number of significant bits.
    pub closed spec fn spec_len(self) -> u8 {
        self.len
    }

    /// The prefix as a table stores it: length first, then address.
    pub open spec fn key(self) -> (u8, u32) {
        (self.spec_len(), self.spec_base())
    }

    /// Build a prefix, rejecting lengths above 32 and canonicalizing the base.
    #[must_use]
    pub fn new(addr: Ipv4Addr, len: u8) -> (r: Option<Self>)
        ensures
            r is Some <==> len <= 32,
            r matches Some(p) ==> p.spec_base() == addr.bits & mask_bits(len) && p.spec_len()
                == len,
    {
        if len > 32 {
            return None;
        }
        let bits: u32 = addr.bits;
        let mask: u32 = mask_of(len);
        assert((bits & mask) & mask == bits & mask) by (bit_vector);
        Some(Ipv4Prefix { base: bits & mask, len })
    }

    /// The canonical network address.
    #[must_use]
    pub fn addr(self) -> (r: Ipv4Addr)
        ensures
            r.bits == self.spec_base(),
    {
        Ipv4Addr { bits: self.base }
    }

    /// The prefix length in bits.
    ///
    /// Named `prefix_len` rather than `len`: a prefix has no elements to count.
    #[must_use]
    pub fn prefix_len(self) -> (r: u8)
        ensures
            r == self.spec_len(),
            r <= 32,
    {
        proof {
            use_type_invariant(&self);
        }
        self.len
    }

    /// Whether this is the default route, `0.0.0.0/0`.
    #[must_use]
    pub fn is_default_route(self) -> (r: bool)
        ensures
            r == (self.spec_len() == 0),
            r ==> self.spec_base() == 0,
    {
        proof {
            use_type_invariant(&self);
            let b = self.base;
            assert(b & 0u32 == 0) by (bit_vector);
        }
        self.len == 0
    }

    /// The prefix as an operator would type it.
    pub open spec fn spec_text(self) -> Seq<char> {
        (Ipv4Addr { bits: self.spec_base() }).spec_text().push('/') + dec(self.spec_len() as int)
    }

    /// The prefix as an operator would type it.
    #[must_use]
    pub fn to_text(&self) -> (r: String)
        ensures
            r@ == self.spec_text(),
    {
        let mut out: String = self.addr().to_text();
        out.push('/');
        push_dec(&mut out, self.len as u64);
        out
    }
}

/// What a table of routes does with `addr` when only prefixes of at most `len`
/// bits are looked at: the longest one that covers it decides.
pub open spec fn longest_match<A>(
    routes: Map<(u8, u32), A>,
    default: A,
    addr: u32,
    len: int,
) -> A
    decreases len + 1,
{
    if len < 0 {
        default
    } else if routes.contains_key((len as u8, addr & mask_bits(len as u8))) {
        routes[(len as u8, addr & mask_bits(len as u8))]
    } else {
        longest_match(routes, default, addr, len - 1)
    }
}

/// Lengths without a covering route do not matter.
proof fn lemma_skip<A>(routes: Map<(u8, u32), A>, default: A, addr: u32, from: int, to: int)
    requires
        -1 <= to <= from <= 32,
        forall|l: int|
            to < l <= from ==> !(#[trigger] routes.contains_key(
                (l as u8, addr & mask_bits(l as u8)),
            )),
    ensures
        longest_match(routes, default, addr, from) == longest_match(routes, default, addr, to),
    decreases from - to,
{
    if to < from {
        assert(!routes.contains_key((from as u8, addr & mask_bits(from as u8))));
        lemma_skip(routes, default, addr, from - 1, to);
    }
}

/// The routes of one length.
#[derive(Debug)]
struct LpmGroup<A> {
    len: u8,
    mask: u32,
    entries: BTreeMap<u32, A>,
}

/// A longest-prefix-match table.
///
/// Entries are grouped by prefix length, longest first, so a lookup is one
/// probe per *distinct populated length*: at most 33, and in practice the
/// handful of lengths a routing table actually uses.
#[derive(Debug)]
pub struct LpmTable<A> {
    /// Strictly decreasing `len`, no empty group.
    groups: Vec<LpmGroup<A>>,
    default_action: A,
}

spec fn group_wf<A>(g: LpmGroup<A>) -> bool {
    &&& g.len <= 32
    &&& g.mask == mask_bits(g.len)
    &&& g.entries@.dom().len() > 0
    &&& forall|b: u32| #[trigger] g.entries@.contains_key(b) ==> b & g.mask == b
}

spec fn groups_wf<A>(groups: Seq<LpmGroup<A>>) -> bool {
    &&& forall|i: int| 0 <= i < groups.len() ==> group_wf(#[trigger] groups[i])
    &&& forall|i: int, j: int|
        0 <= i < j < groups.len() ==> (#[trigger] groups[i]).len > (#[trigger] groups[j]).len
}

spec fn group_of<A>(groups: Seq<LpmGroup<A>>, len: u8) -> int {
    choose|i: int| 0 <= i < groups.len() && (#[trigger] groups[i]).len == len
}

spec fn has_group<A>(groups: Seq<LpmGroup<A>>, len: u8) -> bool {
    exists|i: int| 0 <= i < groups.len() && (#[trigger] groups[i]).len == len
}

spec fn routes_of<A>(groups: Seq<LpmGroup<A>>) -> Map<(u8, u32), A> {
    Map::new(
        |p: (u8, u32)|
            has_group(groups, p.0) && groups[group_of(groups, p.0)].entries@.contains_key(p.1),
        |p: (u8, u32)| groups[group_of(groups, p.0)].entries@[p.1],
    )
}

proof fn lemma_group<A>(groups: Seq<LpmGroup<A>>, i: int)
    requires
        groups_wf(groups),
        0 <= i < groups.len(),
    ensures
        has_group(groups, groups[i].len),
        group_of(groups, groups[i].len) == i,
{
    let k = group_of(groups, groups[i].len);
    assert(0 <= k < groups.len() && groups[k].len == groups[i].len);
}

impl<A> LpmTable<A> {
    /// Groups in strictly decreasing length, none empty, every base canonical.
    pub closed spec fn wf(&self) -> bool {
        groups_wf(self.groups@)
    }

    /// The action that a miss takes.
    pub closed spec fn default(&self) -> A {
        self.default_action
    }
}

impl<A> View for LpmTable<A> {
    type V = Map<(u8, u32), A>;

    closed spec fn view(&self) -> Map<(u8, u32), A> {
        routes_of(self.groups@)
    }
}

impl<A: Copy> LpmTable<A> {
    /// An empty table whose misses take `default_action`.
    pub fn new(default_action: A) -> (r: Self)
        ensures
            r.wf(),
            r@ == Map::<(u8, u32), A>::empty(),
            r.default() == default_action,
    {
        let r = LpmTable { groups: Vec::new(), default_action };
        assert(r@ =~= Map::<(u8, u32), A>::empty());
        r
    }

    /// The action for `addr`: the longest matching prefix, or the default.
    pub fn apply(&self, addr: Ipv4Addr) -> (r: &A)
        requires
            self.wf(),
        ensures
            *r == longest_match(self@, self.default(), addr.bits, 32),
    {
        let key: u32 = addr.bits;
        let mut i: usize = 0;
        while i < self.groups.len()
            invariant
                i <= self.groups@.len(),
                key == addr.bits,
                self.wf(),
                forall|l: int|
                    0 <= l <= 32 && (i < self.groups@.len() ==> l > self.groups@[i as int].len)
                        ==> !(#[trigger] self@.contains_key((l as u8, key & mask_bits(l as u8)))),
            decreases self.groups.len() - i,
        {
            let ghost g = self.groups@[i as int];
            proof {
                assert(group_wf(g));
                lemma_group(self.groups@, i as int);
            }
            let masked: u32 = key & self.groups[i].mask;
            match self.groups[i].entries.get(&masked) {
                Some(a) => {
                    proof {
                        lemma_skip(self@, self.default(), key, 32, g.len as int);
                        assert(self@.contains_key((g.len, masked)));
                    }
                    return a;
                },
                None => {},
            }
            assert forall|l: int|
                0 <= l <= 32 && (i + 1 < self.groups@.len() ==> l > self.groups@[i + 1].len)
                    implies !(#[trigger] self@.contains_key(
                (l as u8, key & mask_bits(l as u8)),
            )) by {
                if l < g.len {
                    if has_group(self.groups@, l as u8) {
                        let k = group_of(self.groups@, l as u8);
                        assert(self.groups@[k].len == l as u8);
                        if k < i {
                            assert(self.groups@[k].len > g.len);
                        } else if k > i + 1 {
                            assert(self.groups@[k].len < self.groups@[i + 1].len);
                        }
                    }
                }
            }
            i += 1;
        }
        proof {
            lemma_skip(self@, self.default(), key, 32, -1);
        }
        &self.default_action
    }

    /// The first group whose length is at most `len`.
    fn position(&self, len: u8) -> (r: usize)
        requires
            self.wf(),
        ensures
            r <= self.groups@.len(),
            forall|j: int| 0 <= j < r ==> (#[trigger] self.groups@[j]).len > len,
            forall|j: int| r <= j < self.groups@.len() ==> (#[trigger] self.groups@[j]).len <= len,
    {
        let mut i: usize = 0;
        while i < self.groups.len() && self.groups[i].len > len
            invariant
                i <= self.groups@.len(),
                forall|j: int| 0 <= j < i ==> (#[trigger] self.groups@[j]).len > len,
            decreases self.groups.len() - i,
        {
            i += 1;
        }
        i
    }

    /// Insert or replace a route, returning whether one was replaced.
    pub fn insert(&mut self, prefix: Ipv4Prefix, action: A) -> (replaced: bool)
        requires
            old(self).wf(),
        ensures
            final(self).wf(),
            final(self)@ == old(self)@.insert(prefix.key(), action),
            final(self).default() == old(self).default(),
            replaced == old(self)@.contains_key(prefix.key()),
    {
        proof {
            use_type_invariant(&prefix);
        }
        let pos: usize = self.position(prefix.len);
        let ghost before = self.groups@;
        if pos < self.groups.len() && self.groups[pos].len == prefix.len {
            proof {
                lemma_group(before, pos as int);
            }
            let r = self.groups[pos].entries.insert(prefix.base, action);
            proof {
                lemma_replaced_group(before, self.groups@, pos as int, prefix, action);
            }
            r.is_some()
        } else {
            let mut entries: BTreeMap<u32, A> = BTreeMap::new();
            entries.insert(prefix.base, action);
            let group = LpmGroup { len: prefix.len, mask: mask_of(prefix.len), entries };
            self.groups.insert(pos, group);
            proof {
                lemma_new_group(before, self.groups@, pos as int, prefix, action);
            }
            false
        }
    }

    /// Remove a route, returning whether it existed.
    pub fn remove(&mut self, prefix: Ipv4Prefix) -> (removed: bool)
        requires
            old(self).wf(),
        ensures
            final(self).wf(),
            final(self)@ == old(self)@.remove(prefix.key()),
            final(self).default() == old(self).default(),
            removed == old(self)@.contains_key(prefix.key()),
    {
        let pos: usize = self.position(prefix.len);
        let ghost before = self.groups@;
        if pos >= self.groups.len() || self.groups[pos].len != prefix.len {
            assert(!has_group(before, prefix.len));
            assert(self@ =~= self@.remove(prefix.key()));
            return false;
        }
        let r = self.groups[pos].entries.remove(&prefix.base);
        proof {
            lemma_shrunk_group(before, self.groups@, pos as int, prefix);
        }
        if self.groups[pos].entries.len() == 0 {
            self.groups.remove(pos);
        }
        r.is_some()
    }

    /// Replace the default action.
    pub fn set_default(&mut self, action: A)
        requires
            old(self).wf(),
        ensures
            final(self).wf(),
            final(self)@ == old(self)@,
            final(self).default() == action,
    {
        self.default_action = action;
    }

    /// The default action.
    pub fn default_action(&self) -> (r: &A)
        ensures
            *r == self.default(),
    {
        &self.default_action
    }

    /// Number of installed routes.
    pub fn len(&self) -> (r: usize)
        requires
            self.wf(),
        ensures
            r == self@.dom().len(),
            self@.dom().finite(),
    {
        let list: Vec<(Ipv4Prefix, A)> = self.iter();
        proof {
            lemma_listing_size(list@, self@);
        }
        list.len()
    }

    /// Whether no route is installed.
    pub fn is_empty(&self) -> (r: bool)
        requires
            self.wf(),
        ensures
            r == (self@ == Map::<(u8, u32), A>::empty()),
    {
        proof {
            broadcast use vstd::std_specs::btree::group_btree_axioms;

            if self.groups@.len() == 0 {
                assert(self@ =~= Map::<(u8, u32), A>::empty());
            } else {
                let g = self.groups@[0];
                assert(group_wf(g));
                lemma_group(self.groups@, 0);
                let b = g.entries@.dom().choose();
                assert(self@.contains_key((g.len, b)));
            }
        }
        self.groups.len() == 0
    }

    /// Drop every route, returning how many were removed.
    pub fn clear(&mut self) -> (n: usize)
        requires
            old(self).wf(),
        ensures
            final(self).wf(),
            final(self)@ == Map::<(u8, u32), A>::empty(),
            final(self).default() == old(self).default(),
            n == old(self)@.dom().len(),
            old(self)@.dom().finite(),
    {
        let n: usize = self.len();
        self.groups.clear();
        assert(self@ =~= Map::<(u8, u32), A>::empty());
        n
    }

    /// Every route, longest prefix first, then by address.
    pub fn iter(&self) -> (r: Vec<(Ipv4Prefix, A)>)
        requires
            self.wf(),
        ensures
            lists_routes(r@, self@),
    {
        let mut out: Vec<(Ipv4Prefix, A)> = Vec::new();
        let mut i: usize = 0;
        while i < self.groups.len()
            invariant
                self.wf(),
                i <= self.groups@.len(),
                forall|n: int|
                    0 <= n < out@.len() ==> self@.contains_key((#[trigger] out@[n]).0.key())
                        && self@[out@[n].0.key()] == out@[n].1,
                forall|n: int|
                    0 <= n < out@.len() && i < self.groups@.len() ==> (
                    #[trigger] out@[n]).0.spec_len() > self.groups@[i as int].len,
                forall|n: int, m: int|
                    0 <= n < m < out@.len() ==> listed_before(
                        (#[trigger] out@[n]).0.key(),
                        (#[trigger] out@[m]).0.key(),
                    ),
                forall|k: (u8, u32)| #[trigger]
                    self@.contains_key(k) && group_of(self.groups@, k.0) < i ==> exists|n: int|
                        0 <= n < out@.len() && (#[trigger] out@[n]).0.key() == k,
            decreases self.groups.len() - i,
        {
            let ghost g = self.groups@[i as int];
            let ghost start = out@.len();
            proof {
                assert(group_wf(g));
                lemma_group(self.groups@, i as int);
            }
            let list: Vec<(u32, A)> = group_list(&self.groups[i].entries);
            let len: u8 = self.groups[i].len;
            let ghost before = out@;
            let mut j: usize = 0;
            while j < list.len()
                invariant
                    j <= list@.len(),
                    i < self.groups@.len(),
                    g == self.groups@[i as int],
                    group_wf(g),
                    len == g.len,
                    start == before.len(),
                    out@.len() == start + j,
                    forall|n: int| 0 <= n < start ==> (#[trigger] out@[n]) == before[n],
                    forall|n: int|
                        start <= n < out@.len() ==> (#[trigger] out@[n]).0.key() == (
                            len,
                            list@[n - start].0,
                        ) && out@[n].1 == list@[n - start].1,
                    forall|n: int|
                        0 <= n < list@.len() ==> g.entries@.contains_key((#[trigger] list@[n]).0)
                            && g.entries@[list@[n].0] == list@[n].1,
                decreases list.len() - j,
            {
                let entry: (u32, A) = list[j];
                assert(g.entries@.contains_key(list@[j as int].0));
                out.push((Ipv4Prefix { base: entry.0, len }, entry.1));
                j += 1;
            }
            proof {
                assert forall|n: int| 0 <= n < out@.len() implies self@.contains_key(
                    (#[trigger] out@[n]).0.key(),
                ) && self@[out@[n].0.key()] == out@[n].1 by {
                    if n >= start {
                        let e = list@[n - start];
                        assert(g.entries@.contains_key(e.0));
                        assert(self@.contains_key((len, e.0)));
                    } else {
                        assert(out@[n] == before[n]);
                    }
                }
                assert forall|n: int, m: int| 0 <= n < m < out@.len() implies listed_before(
                    (#[trigger] out@[n]).0.key(),
                    (#[trigger] out@[m]).0.key(),
                ) by {
                    if n >= start {
                        assert(list@[n - start].0 < list@[m - start].0);
                    } else {
                        assert(out@[n] == before[n]);
                        if m < start {
                            assert(out@[m] == before[m]);
                        }
                    }
                }
                assert forall|k: (u8, u32)| #[trigger]
                    self@.contains_key(k) && group_of(self.groups@, k.0) < i + 1 implies exists|
                    n: int,
                |
                    0 <= n < out@.len() && (#[trigger] out@[n]).0.key() == k by {
                    let at = group_of(self.groups@, k.0);
                    assert(0 <= at < self.groups@.len() && self.groups@[at].len == k.0);
                    if at == i {
                        assert(g.entries@.contains_key(k.1));
                        let n = choose|n: int|
                            0 <= n < list@.len() && (#[trigger] list@[n]).0 == k.1;
                        assert(out@[start + n].0.key() == k);
                    } else {
                        let n = choose|n: int|
                            0 <= n < before.len() && (#[trigger] before[n]).0.key() == k;
                        assert(out@[n] == before[n]);
                    }
                }
                if i + 1 < self.groups@.len() {
                    assert(self.groups@[i as int].len > self.groups@[i + 1].len);
                }
                assert forall|n: int|
                    0 <= n < out@.len() && i + 1 < self.groups@.len() implies (
                #[trigger] out@[n]).0.spec_len() > self.groups@[i + 1].len by {
                    if n < start {
                        assert(out@[n] == before[n]);
                    }
                }
            }
            i += 1;
        }
        assert forall|k: (u8, u32)| #[trigger] self@.contains_key(k) implies exists|n: int|
            0 <= n < out@.len() && (#[trigger] out@[n]).0.key() == k by {
            let at = group_of(self.groups@, k.0);
            assert(0 <= at < self.groups@.len() && self.groups@[at].len == k.0);
        }
        out
    }
}

proof fn lemma_replaced_group<A>(
    before: Seq<LpmGroup<A>>,
    after: Seq<LpmGroup<A>>,
    pos: int,
    prefix: Ipv4Prefix,
    action: A,
)
    requires
        groups_wf(before),
        prefix.canonical(),
        0 <= pos < before.len(),
        before[pos].len == prefix.len,
        after == before.update(pos, after[pos]),
        after[pos].len == before[pos].len,
        after[pos].mask == before[pos].mask,
        after[pos].entries@ == before[pos].entries@.insert(prefix.base, action),
    ensures
        groups_wf(after),
        routes_of(after) == routes_of(before).insert(prefix.key(), action),
        routes_of(before).contains_key(prefix.key()) == before[pos].entries@.contains_key(
            prefix.base,
        ),
{
    broadcast use vstd::std_specs::btree::group_btree_axioms;

    lemma_group(before, pos);
    assert forall|i: int| 0 <= i < after.len() implies group_wf(#[trigger] after[i]) by {
        assert(group_wf(before[i]));
        if i == pos {
            assert(after[pos].entries@.dom() =~= before[pos].entries@.dom().insert(prefix.base));
            assert(after[pos].entries@.dom().contains(prefix.base));
            assert(after[pos].entries@.dom().finite());
        }
    }
    assert forall|i: int, j: int| 0 <= i < j < after.len() implies (#[trigger] after[i]).len > (
    #[trigger] after[j]).len by {
        assert(before[i].len > before[j].len);
    }
    assert(groups_wf(after));
    lemma_group(after, pos);
    assert forall|l: u8| has_group(before, l) == has_group(after, l) && (has_group(before, l)
        ==> group_of(before, l) == group_of(after, l)) by {
        if has_group(before, l) {
            let k = group_of(before, l);
            assert(before[k].len == l);
            assert(after[k].len == l);
            lemma_group(after, k);
        }
        if has_group(after, l) {
            let k = group_of(after, l);
            assert(before[k].len == l);
        }
    }
    assert(routes_of(after) =~= routes_of(before).insert(prefix.key(), action));
}

proof fn lemma_new_group<A>(
    before: Seq<LpmGroup<A>>,
    after: Seq<LpmGroup<A>>,
    pos: int,
    prefix: Ipv4Prefix,
    action: A,
)
    requires
        groups_wf(before),
        prefix.canonical(),
        0 <= pos <= before.len(),
        forall|j: int| 0 <= j < pos ==> (#[trigger] before[j]).len > prefix.len,
        forall|j: int| pos <= j < before.len() ==> (#[trigger] before[j]).len < prefix.len,
        after.len() == before.len() + 1,
        after == before.insert(pos, after[pos]),
        after[pos].len == prefix.len,
        after[pos].mask == mask_bits(prefix.len),
        after[pos].entries@ == Map::<u32, A>::empty().insert(prefix.base, action),
    ensures
        groups_wf(after),
        routes_of(after) == routes_of(before).insert(prefix.key(), action),
        !routes_of(before).contains_key(prefix.key()),
{
    broadcast use vstd::std_specs::btree::group_btree_axioms;

    let step = |i: int| if i < pos { i } else { i + 1 };
    assert forall|i: int| 0 <= i < before.len() implies after[#[trigger] step(i)] == before[i] by {}
    assert forall|i: int| 0 <= i < after.len() implies group_wf(#[trigger] after[i]) by {
        if i == pos {
            assert(after[pos].entries@.dom() =~= set![prefix.base]);
        } else if i < pos {
            assert(after[i] == before[i]);
            assert(group_wf(before[i]));
        } else {
            assert(after[i] == before[i - 1]);
            assert(group_wf(before[i - 1]));
        }
    }
    assert forall|i: int, j: int| 0 <= i < j < after.len() implies (#[trigger] after[i]).len > (
    #[trigger] after[j]).len by {
        if i < pos {
            assert(after[i] == before[i]);
        } else if i > pos {
            assert(after[i] == before[i - 1]);
        }
        if j < pos {
            assert(after[j] == before[j]);
        } else if j > pos {
            assert(after[j] == before[j - 1]);
        }
    }
    assert(groups_wf(after));
    lemma_group(after, pos);
    assert(!has_group(before, prefix.len));
    assert forall|l: u8| l != prefix.len implies has_group(before, l) == has_group(after, l) && (
    has_group(before, l) ==> after[group_of(after, l)] == before[group_of(before, l)]) by {
        if has_group(before, l) {
            let k = group_of(before, l);
            assert(before[k].len == l);
            assert(after[step(k)].len == l);
            lemma_group(after, step(k));
        }
        if has_group(after, l) {
            let k = group_of(after, l);
            assert(after[k].len == l);
            if k < pos {
                assert(before[k].len == l);
            } else {
                assert(before[k - 1].len == l);
            }
        }
    }
    assert(routes_of(after) =~= routes_of(before).insert(prefix.key(), action));
}

proof fn lemma_shrunk_group<A>(
    before: Seq<LpmGroup<A>>,
    after: Seq<LpmGroup<A>>,
    pos: int,
    prefix: Ipv4Prefix,
)
    requires
        groups_wf(before),
        0 <= pos < before.len(),
        before[pos].len == prefix.len,
        after == before.update(pos, after[pos]),
        after[pos].len == before[pos].len,
        after[pos].mask == before[pos].mask,
        after[pos].entries@ == before[pos].entries@.remove(prefix.base),
    ensures
        after[pos].entries@.dom().len() > 0 ==> groups_wf(after) && routes_of(after)
            == routes_of(before).remove(prefix.key()),
        after[pos].entries@.dom().len() == 0 ==> groups_wf(after.remove(pos)) && routes_of(
            after.remove(pos),
        ) == routes_of(before).remove(prefix.key()),
        routes_of(before).contains_key(prefix.key()) == before[pos].entries@.contains_key(
            prefix.base,
        ),
{
    broadcast use vstd::std_specs::btree::group_btree_axioms;

    lemma_group(before, pos);
    assert forall|i: int, j: int| 0 <= i < j < after.len() implies (#[trigger] after[i]).len > (
    #[trigger] after[j]).len by {
        assert(before[i].len > before[j].len);
    }
    assert forall|i: int| 0 <= i < after.len() && i != pos implies group_wf(
        #[trigger] after[i],
    ) by {
        assert(group_wf(before[i]));
    }
    assert(group_wf(before[pos]));
    if after[pos].entries@.dom().len() > 0 {
        assert(groups_wf(after));
        lemma_group(after, pos);
        assert forall|l: u8| has_group(before, l) == has_group(after, l) && (has_group(before, l)
            ==> group_of(before, l) == group_of(after, l)) by {
            if has_group(before, l) {
                let k = group_of(before, l);
                assert(before[k].len == l);
                assert(after[k].len == l);
                lemma_group(after, k);
            }
            if has_group(after, l) {
                let k = group_of(after, l);
                assert(before[k].len == l);
            }
        }
        assert(routes_of(after) =~= routes_of(before).remove(prefix.key()));
    } else {
        let rest = after.remove(pos);
        let step = |i: int| if i < pos { i } else { i - 1 };
        assert forall|i: int| 0 <= i < before.len() && i != pos implies rest[#[trigger] step(i)]
            == before[i] by {}
        assert forall|i: int| 0 <= i < rest.len() implies group_wf(#[trigger] rest[i]) by {
            if i < pos {
                assert(rest[i] == after[i]);
            } else {
                assert(rest[i] == after[i + 1]);
            }
        }
        assert forall|i: int, j: int| 0 <= i < j < rest.len() implies (#[trigger] rest[i]).len > (
        #[trigger] rest[j]).len by {
            let (x, y) = (if i < pos { i } else { i + 1 }, if j < pos { j } else { j + 1 });
            assert(rest[i] == after[x]);
            assert(rest[j] == after[y]);
        }
        assert(groups_wf(rest));
        assert(after[pos].entries@.dom() =~= Set::<u32>::empty());
        assert forall|b: u32| before[pos].entries@.contains_key(b) implies b == prefix.base by {
            if b != prefix.base {
                assert(after[pos].entries@.contains_key(b));
                assert(after[pos].entries@.dom().contains(b));
            }
        }
        assert(!has_group(rest, prefix.len)) by {
            if has_group(rest, prefix.len) {
                let k = group_of(rest, prefix.len);
                assert(rest[k].len == prefix.len);
                let x = if k < pos { k } else { k + 1 };
                assert(rest[k] == after[x]);
                assert(after[x].len == before[pos].len);
            }
        }
        assert forall|l: u8| l != prefix.len implies has_group(before, l) == has_group(rest, l)
            && (has_group(before, l) ==> rest[group_of(rest, l)] == before[group_of(before, l)]) by {
            if has_group(before, l) {
                let k = group_of(before, l);
                assert(before[k].len == l);
                assert(rest[step(k)].len == l);
                lemma_group(rest, step(k));
            }
            if has_group(rest, l) {
                let k = group_of(rest, l);
                assert(rest[k].len == l);
                if k < pos {
                    assert(before[k].len == l);
                } else {
                    assert(before[k + 1].len == l);
                }
            }
        }
        assert(routes_of(rest) =~= routes_of(before).remove(prefix.key()));
    }
}

/// `list` holds each route once: longest prefix first, then by address.
pub open spec fn lists_routes<A>(list: Seq<(Ipv4Prefix, A)>, routes: Map<(u8, u32), A>) -> bool {
    &&& forall|i: int|
        0 <= i < list.len() ==> routes.contains_key((#[trigger] list[i]).0.key())
            && routes[list[i].0.key()] == list[i].1
    &&& forall|i: int, j: int|
        0 <= i < j < list.len() ==> listed_before(
            (#[trigger] list[i]).0.key(),
            (#[trigger] list[j]).0.key(),
        )
    &&& forall|k: (u8, u32)| #[trigger]
        routes.contains_key(k) ==> exists|i: int|
            0 <= i < list.len() && (#[trigger] list[i]).0.key() == k
}

/// The order in which routes are listed.
pub open spec fn listed_before(a: (u8, u32), b: (u8, u32)) -> bool {
    a.0 > b.0 || (a.0 == b.0 && a.1 < b.1)
}

/// A listing is as long as the table is large.
pub proof fn lemma_listing_size<A>(list: Seq<(Ipv4Prefix, A)>, routes: Map<(u8, u32), A>)
    requires
        lists_routes(list, routes),
    ensures
        routes.dom().finite(),
        routes.dom().len() == list.len(),
{
    let keys = Seq::new(list.len(), |i: int| list[i].0.key());
    assert forall|i: int, j: int| 0 <= i < keys.len() && 0 <= j < keys.len() && i != j implies keys[i]
        != keys[j] by {
        if i < j {
            assert(listed_before(list[i].0.key(), list[j].0.key()));
        } else {
            assert(listed_before(list[j].0.key(), list[i].0.key()));
        }
    }
    assert(keys.no_duplicates());
    keys.unique_seq_to_set();
    assert(keys.to_set() =~= routes.dom()) by {
        assert forall|k: (u8, u32)| #[trigger] routes.dom().contains(k) implies keys.to_set().contains(
            k,
        ) by {
            let i = choose|i: int| 0 <= i < list.len() && (#[trigger] list[i]).0.key() == k;
            assert(keys[i] == k);
        }
        assert forall|k: (u8, u32)| #[trigger] keys.to_set().contains(k) implies routes.dom().contains(
            k,
        ) by {
            let i = choose|i: int| 0 <= i < keys.len() && keys[i] == k;
            assert(list[i].0.key() == k);
        }
    }
}

/// The entries of one group, by increasing address.
fn group_list<A: Copy>(entries: &BTreeMap<u32, A>) -> (out: Vec<(u32, A)>)
    ensures
        forall|i: int|
            0 <= i < out@.len() ==> entries@.contains_key((#[trigger] out@[i]).0)
                && entries@[out@[i].0] == out@[i].1,
        forall|i: int, j: int|
            0 <= i < j < out@.len() ==> (#[trigger] out@[i]).0 < (#[trigger] out@[j]).0,
        forall|b: u32| #[trigger]
            entries@.contains_key(b) ==> exists|i: int|
                0 <= i < out@.len() && (#[trigger] out@[i]).0 == b,
{
    let mut out: Vec<(u32, A)> = Vec::new();
    broadcast use vstd::std_specs::btree::group_btree_axioms;

    let ghost all: Seq<(&u32, &A)> = vstd::std_specs::iter::IteratorSpec::remaining(
        &vstd::std_specs::btree::spec_btree_map_iter(entries),
    );
    for kv in it: entries.iter()
        invariant
            all == it.seq(),
            out@.len() == it.index(),
            vstd::std_specs::btree::increasing_seq(all.map_values(|kv: (&u32, &A)| *kv.0)),
            forall|i: int|
                #![trigger all[i]]
                0 <= i < all.len() ==> entries@.contains_key(*all[i].0) && entries@[*all[i].0]
                    == *all[i].1,
            forall|b: u32| #[trigger]
                entries@.contains_key(b) ==> all.contains((&b, &entries@[b])),
            forall|i: int|
                0 <= i < out@.len() ==> (#[trigger] out@[i]) == (*all[i].0, *all[i].1),
    {
        out.push((*kv.0, *kv.1));
    }
    proof {
        let keys = all.map_values(|kv: (&u32, &A)| *kv.0);
        assert forall|i: int, j: int| 0 <= i < j < out@.len() implies (#[trigger] out@[i]).0 < (
        #[trigger] out@[j]).0 by {
            assert(keys[i] == *all[i].0 && keys[j] == *all[j].0);
            assert(vstd::std_specs::cmp::OrdSpec::cmp_spec(&keys[i], &keys[j]) is Less);
        }
        assert forall|b: u32| #[trigger] entries@.contains_key(b) implies exists|i: int|
            0 <= i < out@.len() && (#[trigger] out@[i]).0 == b by {
            let i = choose|i: int| 0 <= i < all.len() && all[i] == (&b, &entries@[b]);
            assert(out@[i] == (*all[i].0, *all[i].1));
        }
    }
    out
}

impl<A: Copy> Clone for LpmTable<A> {
    fn clone(&self) -> (r: Self)
        ensures
            r.default() == self.default(),
            self.wf() ==> r.wf() && r@ == self@,
    {
        let mut groups: Vec<LpmGroup<A>> = Vec::new();
        let mut i: usize = 0;
        while i < self.groups.len()
            invariant
                i <= self.groups@.len(),
                groups@.len() == i,
                forall|j: int| 0 <= j < i ==> same_group(#[trigger] groups@[j], self.groups@[j]),
            decreases self.groups.len() - i,
        {
            let g: &LpmGroup<A> = &self.groups[i];
            groups.push(LpmGroup { len: g.len, mask: g.mask, entries: g.entries.clone() });
            i += 1;
        }
        let r = LpmTable { groups, default_action: self.default_action };
        proof {
            if self.wf() {
                lemma_same_groups(r.groups@, self.groups@);
            }
        }
        r
    }
}

spec fn same_group<A>(a: LpmGroup<A>, b: LpmGroup<A>) -> bool {
    a.len == b.len && a.mask == b.mask && a.entries@ == b.entries@
}

proof fn lemma_same_groups<A>(a: Seq<LpmGroup<A>>, b: Seq<LpmGroup<A>>)
    requires
        a.len() == b.len(),
        forall|j: int| 0 <= j < a.len() ==> same_group(#[trigger] a[j], b[j]),
        groups_wf(b),
    ensures
        routes_of(a) == routes_of(b),
        groups_wf(a),
{
    assert forall|i: int| 0 <= i < a.len() implies group_wf(#[trigger] a[i]) by {
        assert(same_group(a[i], b[i]));
        assert(group_wf(b[i]));
    }
    assert forall|i: int, j: int| 0 <= i < j < a.len() implies (#[trigger] a[i]).len > (
    #[trigger] a[j]).len by {
        assert(same_group(a[i], b[i]));
        assert(same_group(a[j], b[j]));
        assert(b[i].len > b[j].len);
    }
    assert forall|l: u8| has_group(a, l) == has_group(b, l) && (has_group(a, l) ==> group_of(a, l)
        == group_of(b, l)) by {
        if has_group(a, l) {
            let k = group_of(a, l);
            assert(same_group(a[k], b[k]));
            assert(b[k].len == l);
            lemma_group(b, k);
        }
        if has_group(b, l) {
            let k = group_of(b, l);
            assert(same_group(a[k], b[k]));
        }
    }
    assert forall|l: u8| has_group(a, l) implies a[group_of(a, l)].entries@ == b[group_of(
        b,
        l,
    )].entries@ by {
        let k = group_of(a, l);
        assert(0 <= k < a.len() && a[k].len == l);
        assert(same_group(a[k], b[k]));
    }
    assert(routes_of(a) =~= routes_of(b));
}

/// The longest match wins: a covering route decides wherever no longer one
/// covers the address too.
pub proof fn law_longest_match_wins<A>(
    routes: Map<(u8, u32), A>,
    default: A,
    addr: u32,
    len: int,
)
    requires
        0 <= len <= 32,
        routes.contains_key((len as u8, addr & mask_bits(len as u8))),
        forall|l: int|
            len < l <= 32 ==> !(#[trigger] routes.contains_key(
                (l as u8, addr & mask_bits(l as u8)),
            )),
    ensures
        longest_match(routes, default, addr, 32) == routes[(
            len as u8,
            addr & mask_bits(len as u8),
        )],
{
    lemma_skip(routes, default, addr, 32, len);
}

/// An address that no route covers takes the default action.
pub proof fn law_miss_takes_default<A>(routes: Map<(u8, u32), A>, default: A, addr: u32)
    requires
        forall|l: int|
            0 <= l <= 32 ==> !(#[trigger] routes.contains_key(
                (l as u8, addr & mask_bits(l as u8)),
            )),
    ensures
        longest_match(routes, default, addr, 32) == default,
{
    lemma_skip(routes, default, addr, 32, -1);
}

/// The order in which two different routes are installed does not matter, and
/// removing a route that was not there before its installation restores the
/// table: shorter matches come back.
pub proof fn law_routes_are_a_map<A>(
    routes: Map<(u8, u32), A>,
    p: Ipv4Prefix,
    a: A,
    q: Ipv4Prefix,
    b: A,
)
    requires
        p.key() != q.key(),
    ensures
        routes.insert(p.key(), a).insert(q.key(), b) == routes.insert(q.key(), b).insert(
            p.key(),
            a,
        ),
        !routes.contains_key(p.key()) ==> routes.insert(p.key(), a).remove(p.key()) == routes,
{
    assert(routes.insert(p.key(), a).insert(q.key(), b) =~= routes.insert(q.key(), b).insert(
        p.key(),
        a,
    ));
    if !routes.contains_key(p.key()) {
        assert(routes.insert(p.key(), a).remove(p.key()) =~= routes);
    }
}

/// Host bits do not tell prefixes apart: clearing them twice is clearing them
/// once, so two addresses of one network give one prefix.
pub proof fn law_prefixes_are_canonical(addr: u32, len: u8)
    requires
        len <= 32,
    ensures
        (addr & mask_bits(len)) & mask_bits(len) == addr & mask_bits(len),
{
    let mask = mask_bits(len);
    assert((addr & mask) & mask == addr & mask) by (bit_vector);
}

/// What a prefix covers, bit by bit: masking `addr` to `len` bits gives the
/// masked `base` where, and only where, the two agree in their `len` leading
/// bits.
pub proof fn law_masks_select_leading_bits(addr: u32, base: u32, len: u8)
    requires
        len <= 32,
    ensures
        addr & mask_bits(len) == base & mask_bits(len) <==> (addr as u64) >> ((32 - len) as u64) == (
        base as u64) >> ((32 - len) as u64),
{
    let shift: u32 = (32 - len) as u32;
    let mask = mask_bits(len);
    let wide: u64 = (32 - len) as u64;
    assert(addr & 0 == 0 && base & 0 == 0) by (bit_vector);
    assert((addr as u64) >> 32u64 == 0 && (base as u64) >> 32u64 == 0) by (bit_vector);
    if len > 0 {
        assert(addr & mask == base & mask <==> (addr as u64) >> wide == (base as u64) >> wide)
            by (bit_vector)
            requires
                mask == 0xffff_ffffu32 << shift,
                shift < 32,
                wide == shift as u64,
        ;
    }
}

impl<A> LpmTable<A> {
    /// Every route a table holds is canonical: at most 32 bits long, with no
    /// bit set behind them.
    pub proof fn lemma_routes_are_canonical(self, len: u8, base: u32)
        requires
            self.wf(),
            self@.contains_key((len, base)),
        ensures
            len <= 32,
            base & mask_bits(len) == base,
    {
        let k = group_of(self.groups@, len);
        assert(group_wf(self.groups@[k]));
        assert(self.groups@[k].entries@.contains_key(base));
    }
}

/// Routes are listed longest first, and by address among equals.
pub proof fn law_routes_are_listed_longest_first(m: u8, a: u32, n: u8, b: u32)
    ensures
        listed_before((m, a), (n, b)) <==> m > n || (m == n && a < b),
{
}

} // verus!
