//! The match-action core: the two match kinds the programs use, and the
//! publication discipline that lets the control plane rewrite them while
//! packets are in flight.
//!
//! Tables are values here, not objects: an update builds a new table and
//! publishes it ([`Shared::update`]), and each shard reads through a
//! [`Cached`] handle that refreshes only when the version changes.
//!
//! A control operation is atomic (a packet sees the table entirely before or
//! entirely after it), and a *batch* of operations is not, since each
//! publishes separately.
use crate::value::MacAddr;
use std::collections::BTreeMap;
use std::sync::Arc;
use vstd::prelude::*;

verus! {

/// A value published to shards, versioned so readers can skip reloading.
#[derive(Debug)]
pub struct Shared<T> {
    version: u64,
    current: Arc<T>,
}

impl<T> Shared<T> {
    /// The current value.
    pub closed spec fn value(&self) -> T {
        *self.current
    }

    /// How many times the value has been replaced, modulo 2^64.
    pub closed spec fn spec_version(&self) -> u64 {
        self.version
    }

    /// The value is the one that `before` was, or one that was published
    /// later.
    pub open spec fn continues(&self, before: &Shared<T>) -> bool {
        &&& before.spec_version() <= self.spec_version()
        &&& before.spec_version() == self.spec_version() ==> self.value() == before.value()
    }

    /// Publish an initial value.
    pub fn new(value: T) -> (r: Self)
        ensures
            r.value() == value,
            r.spec_version() == 0,
    {
        Shared { version: 0, current: Arc::new(value) }
    }

    /// The current value.
    pub fn load(&self) -> (r: Arc<T>)
        ensures
            *r == self.value(),
    {
        self.current.clone()
    }

    /// Replace the value with `f` applied to the current one, and publish.
    ///
    /// Copy-on-write: `f` sees an immutable snapshot and returns the
    /// successor, so no reader can observe a half-applied update.
    pub fn update<R, F: FnOnce(&T) -> (T, R)>(&mut self, f: F) -> (out: R)
        requires
            f.requires((&old(self).value(),)),
        ensures
            f.ensures((&old(self).value(),), (final(self).value(), out)),
            final(self).spec_version() == (if old(self).spec_version() == u64::MAX {
                0
            } else {
                old(self).spec_version() + 1
            }),
    {
        let (next, out) = f(&*self.current);
        self.publish(next);
        out
    }

    /// Replace the value.
    pub fn publish(&mut self, next: T)
        ensures
            final(self).value() == next,
            final(self).spec_version() == (if old(self).spec_version() == u64::MAX {
                0
            } else {
                old(self).spec_version() + 1
            }),
    {
        self.current = Arc::new(next);
        self.version = self.version.wrapping_add(1);
    }

    /// How many times the value has been replaced.
    pub fn version(&self) -> (r: u64)
        ensures
            r == self.spec_version(),
    {
        self.version
    }
}

/// A shard-local view of a [`Shared`] value.
#[derive(Debug)]
pub struct Cached<T> {
    value: Arc<T>,
    version: u64,
}

impl<T> Cached<T> {
    /// The value as last seen.
    pub closed spec fn seen(&self) -> T {
        *self.value
    }

    /// The version that was seen.
    pub closed spec fn seen_version(&self) -> u64 {
        self.version
    }

    /// What the view holds is what `shared` held when it had that version.
    pub open spec fn follows(&self, shared: &Shared<T>) -> bool {
        &&& self.seen_version() <= shared.spec_version()
        &&& self.seen_version() == shared.spec_version() ==> self.seen() == shared.value()
    }

    /// Take a view of the current value.
    pub fn new(shared: &Shared<T>) -> (r: Self)
        ensures
            r.seen() == shared.value(),
            r.seen_version() == shared.spec_version(),
            r.follows(shared),
    {
        Cached { value: shared.load(), version: shared.version() }
    }

    /// The value, refreshed if the control plane has published since last time.
    pub fn get(&mut self, shared: &Shared<T>) -> (r: &T)
        ensures
            *r == final(self).seen(),
            final(self).seen_version() == shared.spec_version(),
            old(self).seen_version() == shared.spec_version() ==> final(self).seen() == old(
                self,
            ).seen(),
            old(self).seen_version() != shared.spec_version() ==> final(self).seen()
                == shared.value(),
            old(self).follows(shared) ==> *r == shared.value() && final(self).follows(shared),
    {
        let version: u64 = shared.version();
        if version != self.version {
            self.value = shared.load();
            self.version = version;
        }
        &*self.value
    }
}

/// A view that follows a shared value goes on following it across updates, so
/// every read through it (see [`Cached::get`]) returns the value that is
/// current then, and nothing in between. After an update the view has not seen
/// the version.
pub proof fn law_views_follow_updates<T>(view: Cached<T>, before: Shared<T>, after: Shared<T>)
    requires
        view.follows(&before),
        after.continues(&before),
    ensures
        view.follows(&after),
        before.spec_version() < after.spec_version() ==> view.seen_version()
            != after.spec_version(),
{
}

/// A value that an exact-match table can be keyed by: it has at most 64 bits,
/// and they tell it apart from every other.
pub trait TableKey: Copy {
    /// The bits.
    spec fn key_bits(self) -> u64;

    /// The bits tell keys apart.
    proof fn lemma_injective(a: Self, b: Self)
        ensures
            a.key_bits() == b.key_bits() ==> a == b,
    ;

    /// The bits.
    fn bits(&self) -> (r: u64)
        ensures
            r == self.key_bits(),
    ;
}

impl TableKey for u8 {
    open spec fn key_bits(self) -> u64 {
        self as u64
    }

    proof fn lemma_injective(a: Self, b: Self) {
    }

    fn bits(&self) -> (r: u64) {
        *self as u64
    }
}

impl TableKey for u32 {
    open spec fn key_bits(self) -> u64 {
        self as u64
    }

    proof fn lemma_injective(a: Self, b: Self) {
    }

    fn bits(&self) -> (r: u64) {
        *self as u64
    }
}

impl TableKey for MacAddr {
    open spec fn key_bits(self) -> u64 {
        self.spec_bits() as u64
    }

    proof fn lemma_injective(a: Self, b: Self) {
    }

    fn bits(&self) -> (r: u64) {
        self.to_bits()
    }
}

/// An exact-match table with a default action.
#[derive(Debug)]
pub struct ExactTable<K, A> {
    entries: BTreeMap<u64, (K, A)>,
    default_action: A,
}

/// `list` holds each entry of `map` once, in increasing order of the keys'
/// bits.
pub open spec fn lists<K: TableKey, A>(list: Seq<(K, A)>, map: Map<K, A>) -> bool {
    &&& forall|i: int|
        0 <= i < list.len() ==> map.contains_key((#[trigger] list[i]).0) && map[list[i].0]
            == list[i].1
    &&& forall|i: int, j: int|
        0 <= i < j < list.len() ==> (#[trigger] list[i]).0.key_bits() < (
        #[trigger] list[j]).0.key_bits()
    &&& forall|k: K| #[trigger]
        map.contains_key(k) ==> exists|i: int| 0 <= i < list.len() && (#[trigger] list[i]).0 == k
}

impl<K: TableKey, A> ExactTable<K, A> {
    /// Every entry stands under its key's bits.
    pub closed spec fn wf(&self) -> bool {
        forall|b: u64| #[trigger]
            self.entries@.contains_key(b) ==> self.entries@[b].0.key_bits() == b
    }

    /// The action that a miss takes.
    pub closed spec fn default(&self) -> A {
        self.default_action
    }
}

impl<K: TableKey, A> View for ExactTable<K, A> {
    type V = Map<K, A>;

    closed spec fn view(&self) -> Map<K, A> {
        Map::new(
            |k: K| self.entries@.contains_key(k.key_bits()),
            |k: K| self.entries@[k.key_bits()].1,
        )
    }
}

/// What a table with these entries and this default does with `key`.
pub open spec fn applied<K, A>(entries: Map<K, A>, default: A, key: K) -> A {
    if entries.contains_key(key) {
        entries[key]
    } else {
        default
    }
}

impl<K: TableKey, A: Copy> Clone for ExactTable<K, A> {
    fn clone(&self) -> (r: Self)
        ensures
            r@ == self@,
            r.default() == self.default(),
            r.wf() == self.wf(),
    {
        ExactTable { entries: self.entries.clone(), default_action: self.default_action }
    }
}

impl<K: TableKey, A: Copy> ExactTable<K, A> {
    /// An empty table whose misses take `default_action`.
    pub fn new(default_action: A) -> (r: Self)
        ensures
            r.wf(),
            r@ == Map::<K, A>::empty(),
            r.default() == default_action,
    {
        let r = ExactTable { entries: BTreeMap::new(), default_action };
        assert(r@ =~= Map::<K, A>::empty());
        r
    }

    /// The action for `key`: the matched entry, or the default.
    ///
    /// This *is* table application; there is no other outcome.
    pub fn apply(&self, key: &K) -> (r: &A)
        ensures
            *r == applied(self@, self.default(), *key),
    {
        match self.get(key) {
            Some(a) => a,
            None => &self.default_action,
        }
    }

    /// The matched entry only, for control-plane queries.
    pub fn get(&self, key: &K) -> (r: Option<&A>)
        ensures
            r is Some <==> self@.contains_key(*key),
            r matches Some(a) ==> *a == self@[*key],
    {
        match self.entries.get(&key.bits()) {
            Some(entry) => Some(&entry.1),
            None => None,
        }
    }

    /// Insert or replace, returning whether an entry was replaced.
    pub fn insert(&mut self, key: K, action: A) -> (replaced: bool)
        requires
            old(self).wf(),
        ensures
            final(self).wf(),
            final(self)@ == old(self)@.insert(key, action),
            final(self).default() == old(self).default(),
            replaced == old(self)@.contains_key(key),
    {
        let r = self.entries.insert(key.bits(), (key, action));
        proof {
            assert forall|k: K| k.key_bits() == key.key_bits() implies k == key by {
                K::lemma_injective(k, key);
            }
            assert(self@ =~= old(self)@.insert(key, action));
        }
        r.is_some()
    }

    /// Remove, returning whether an entry existed.
    pub fn remove(&mut self, key: &K) -> (removed: bool)
        requires
            old(self).wf(),
        ensures
            final(self).wf(),
            final(self)@ == old(self)@.remove(*key),
            final(self).default() == old(self).default(),
            removed == old(self)@.contains_key(*key),
    {
        let r = self.entries.remove(&key.bits());
        proof {
            assert(self.entries@ == old(self).entries@.remove(key.key_bits()));
            assert forall|k: K| k.key_bits() == key.key_bits() implies k == *key by {
                K::lemma_injective(k, *key);
            }
            assert(self@ =~= old(self)@.remove(*key));
        }
        r.is_some()
    }

    /// Replace the default action.
    pub fn set_default(&mut self, action: A)
        requires
            old(self).wf(),
        ensures
            final(self).wf(),
            final(self)@ == old(self)@,
            final(self).default() == action,
    {
        self.default_action = action;
    }

    /// The default action.
    pub fn default_action(&self) -> (r: &A)
        ensures
            *r == self.default(),
    {
        &self.default_action
    }

    /// Number of installed entries, excluding the default.
    pub fn len(&self) -> (r: usize)
        requires
            self.wf(),
        ensures
            r == self@.dom().len(),
            self@.dom().finite(),
    {
        proof {
            self.lemma_sizes();
        }
        self.entries.len()
    }

    /// Whether any entry is installed.
    pub fn is_empty(&self) -> (r: bool)
        requires
            self.wf(),
        ensures
            r == (self@ == Map::<K, A>::empty()),
    {
        let n: usize = self.entries.len();
        proof {
            self.lemma_sizes();
            if n == 0 {
                assert(self@.dom() =~= Set::<K>::empty());
                assert(self@ =~= Map::<K, A>::empty());
            } else {
                assert(self@.dom().len() != 0);
            }
        }
        n == 0
    }

    /// Drop every entry, returning how many were removed.
    pub fn clear(&mut self) -> (n: usize)
        requires
            old(self).wf(),
        ensures
            final(self).wf(),
            final(self)@ == Map::<K, A>::empty(),
            final(self).default() == old(self).default(),
            n == old(self)@.dom().len(),
            old(self)@.dom().finite(),
    {
        let n: usize = self.len();
        self.entries.clear();
        assert(self@ =~= Map::<K, A>::empty());
        n
    }

    /// Every installed entry, in increasing order of the keys' bits.
    pub fn iter(&self) -> (r: Vec<(K, A)>)
        requires
            self.wf(),
        ensures
            lists(r@, self@),
    {
        let mut out: Vec<(K, A)> = Vec::new();
        let ghost map = self.entries@;
        broadcast use vstd::std_specs::btree::group_btree_axioms;

        let ghost all: Seq<(&u64, &(K, A))> = vstd::std_specs::iter::IteratorSpec::remaining(
            &vstd::std_specs::btree::spec_btree_map_iter(&self.entries),
        );
        for kv in it: self.entries.iter()
            invariant
                self.wf(),
                map == self.entries@,
                all == it.seq(),
                out@.len() == it.index(),
                vstd::std_specs::btree::increasing_seq(
                    all.map_values(|kv: (&u64, &(K, A))| *kv.0),
                ),
                forall|i: int|
                    #![trigger all[i]]
                    0 <= i < all.len() ==> map.contains_key(*all[i].0) && map[*all[i].0]
                        == *all[i].1,
                forall|b: u64| #[trigger] map.contains_key(b) ==> all.contains((&b, &map[b])),
                forall|i: int| 0 <= i < out@.len() ==> (#[trigger] out@[i]) == *all[i].1,
        {
            out.push(*kv.1);
        }
        proof {
            let keys = all.map_values(|kv: (&u64, &(K, A))| *kv.0);
            assert forall|i: int, j: int| 0 <= i < j < out@.len() implies (
            #[trigger] out@[i]).0.key_bits() < (#[trigger] out@[j]).0.key_bits() by {
                assert(keys[i] == *all[i].0 && keys[j] == *all[j].0);
                assert(vstd::std_specs::cmp::OrdSpec::cmp_spec(&keys[i], &keys[j]) is Less);
                assert(out@[i] == *all[i].1 && out@[j] == *all[j].1);
            }
            assert forall|i: int| 0 <= i < out@.len() implies self@.contains_key(
                (#[trigger] out@[i]).0,
            ) && self@[out@[i].0] == out@[i].1 by {
                assert(map.contains_key(*all[i].0));
            }
            assert forall|k: K| #[trigger] self@.contains_key(k) implies exists|i: int|
                0 <= i < out@.len() && (#[trigger] out@[i]).0 == k by {
                let b = k.key_bits();
                assert(map.contains_key(b));
                let i = choose|i: int| 0 <= i < all.len() && all[i] == (&b, &map[b]);
                assert(out@[i] == *all[i].1);
                K::lemma_injective(k, out@[i].0);
            }
        }
        out
    }

    proof fn lemma_sizes(&self)
        requires
            self.wf(),
        ensures
            self@.dom().finite(),
            self@.dom().len() == self.entries@.dom().len(),
    {
        broadcast use vstd::std_specs::btree::group_btree_axioms;

        let bits = self.entries@.dom();
        let f = |b: u64| self.entries@[b].0;
        assert(bits.map(f) =~= self@.dom()) by {
            assert forall|k: K| #[trigger] self@.dom().contains(k) implies bits.map(f).contains(
                k,
            ) by {
                let b = k.key_bits();
                assert(bits.contains(b));
                K::lemma_injective(k, f(b));
                assert(f(b) == k);
            }
            assert forall|k: K| #[trigger] bits.map(f).contains(k) implies self@.dom().contains(
                k,
            ) by {
                let b = choose|b: u64| bits.contains(b) && f(b) == k;
                assert(self.entries@.contains_key(b));
            }
        }
        assert(vstd::relations::injective_on(f, bits)) by {
            assert forall|x: u64, y: u64|
                bits.contains(x) && bits.contains(y) && #[trigger] f(x) == #[trigger] f(
                    y,
                ) implies x == y by {
                assert(self.entries@.contains_key(x));
                assert(self.entries@.contains_key(y));
            }
        }
        vstd::set_lib::lemma_map_size(bits, self@.dom(), f);
    }
}

/// A key with an entry takes that entry's action, and any other the default.
pub proof fn law_entries_come_before_the_default<K, A>(entries: Map<K, A>, default: A, key: K, a: A)
    ensures
        entries.contains_key(key) ==> applied(entries, default, key) == entries[key],
        !entries.contains_key(key) ==> applied(entries, default, key) == default,
        applied(entries.insert(key, a), default, key) == a,
        applied(entries.remove(key), default, key) == default,
{
}

} // verus!
