//! The vport table: the topology, with both of its lookup directions prebuilt.
use crate::config::error::{ConfigError, ConfigErrorModel, Errors};
use crate::config::VportId;
use crate::net::SocketAddr;
use crate::text::texts;
use crate::wire::PUNT_VPORT;
use std::collections::BTreeMap;
use vstd::prelude::*;

verus! {

/// One virtual port: an id and the peer whose UDP tuple defines it.
#[derive(Clone, Copy, Debug, PartialEq, Eq)]
pub struct Vport {
    /// Configured id, as it appears in engine verdicts.
    pub id: VportId,
    /// Peer tuple: the transmit destination, and the receive demux key.
    pub peer: SocketAddr,
}

/// A [`Vport`] with its id as a number.
pub struct VportModel {
    pub id: u16,
    pub peer: SocketAddr,
}

impl View for Vport {
    type V = VportModel;

    open spec fn view(&self) -> VportModel {
        VportModel { id: self.id.spec_get(), peer: self.peer }
    }
}

/// The views of `v`.
pub open spec fn vport_models(v: Seq<Vport>) -> Seq<VportModel> {
    Seq::new(v.len(), |i: int| v[i]@)
}

/// A dense index into a [`VportTable`], below its length.
///
/// This is a *capability*: the only way to obtain one is a successful lookup
/// in the table, so every per-vport array can be indexed by it.
#[derive(Clone, Copy, Debug, PartialEq, Eq, Structural)]
pub struct VportIdx(u16);

impl VportIdx {
    /// The index.
    pub closed spec fn spec_get(self) -> int {
        self.0 as int
    }

    /// The index as a `usize`.
    #[must_use]
    pub fn get(self) -> (r: usize)
        ensures
            r == self.spec_get(),
    {
        self.0 as usize
    }
}

/// Entries past this many have no index.
pub const MAX_VPORTS: usize = 0x1_0000;

/// The last place before `n` whose vport has `peer`.
pub open spec fn last_with_peer(v: Seq<VportModel>, peer: SocketAddr, n: int) -> Option<int>
    decreases n,
{
    if n <= 0 {
        None
    } else if v[n - 1].peer == peer {
        Some(n - 1)
    } else {
        last_with_peer(v, peer, n - 1)
    }
}

/// The last place before `n` whose vport has `id`.
pub open spec fn last_with_id(v: Seq<VportModel>, id: u16, n: int) -> Option<int>
    decreases n,
{
    if n <= 0 {
        None
    } else if v[n - 1].id == id {
        Some(n - 1)
    } else {
        last_with_id(v, id, n - 1)
    }
}

/// The uniqueness violations of the first `n` vports: one for each id that was
/// there before, and one for each peer that was. `names` is how the peers are
/// shown.
pub open spec fn duplicates(v: Seq<VportModel>, names: Seq<Seq<char>>, n: int) -> Seq<
    ConfigErrorModel,
>
    decreases n,
{
    if n <= 0 {
        Seq::empty()
    } else {
        let vp = v[n - 1];
        let before = duplicates(v, names, n - 1);
        let ids = if last_with_id(v, vp.id, n - 1) is Some {
            before.push(ConfigErrorModel::DuplicateVportId { value: vp.id })
        } else {
            before
        };
        match last_with_peer(v, vp.peer, n - 1) {
            Some(first) => ids.push(
                ConfigErrorModel::DuplicatePeer {
                    value: names[n - 1],
                    first: v[first].id,
                    second: vp.id,
                },
            ),
            None => ids,
        }
    }
}

/// How many of `n` vports have an index.
pub open spec fn indexable(n: int) -> int {
    if n <= MAX_VPORTS {
        n
    } else {
        MAX_VPORTS as int
    }
}

/// Whether no two vports share an id or a peer.
pub open spec fn distinct(v: Seq<VportModel>) -> bool {
    forall|i: int, j: int|
        0 <= i < j < v.len() ==> (#[trigger] v[i]).id != (#[trigger] v[j]).id && v[i].peer
            != v[j].peer
}

/// The node's vports, indexed three ways.
///
/// Ids are unique and legal, peer tuples are unique, and every [`VportIdx`]
/// it hands out addresses a live entry.
#[derive(Debug)]
pub struct VportTable {
    entries: Vec<Vport>,
    by_id: Vec<Option<VportIdx>>,
    by_peer: BTreeMap<(u128, u128), u16>,
}

impl View for VportTable {
    type V = Seq<VportModel>;

    closed spec fn view(&self) -> Seq<VportModel> {
        vport_models(self.entries@)
    }
}

impl VportTable {
    /// The indexes say what the entries say.
    #[verifier::type_invariant]
    spec fn inv(&self) -> bool {
        let v = vport_models(self.entries@);
        &&& 0 < v.len() <= MAX_VPORTS
        &&& distinct(v)
        &&& forall|i: int|
            0 <= i < v.len() ==> (#[trigger] v[i]).id < self.by_id@.len() && self.by_id@[v[i].id as int]
                == Some(VportIdx(i as u16))
        &&& forall|id: int|
            0 <= id < self.by_id@.len() ==> ((#[trigger] self.by_id@[id]) matches Some(idx) ==> idx.0
                < v.len() && v[idx.0 as int].id == id)
        &&& forall|i: int|
            0 <= i < v.len() ==> self.by_peer@.contains_key((#[trigger] v[i]).peer.spec_key())
        &&& forall|k: (u128, u128)|
            #[trigger] self.by_peer@.contains_key(k) ==> self.by_peer@[k] < v.len()
                && v[self.by_peer@[k] as int].peer.spec_key() == k
    }

    /// Build the table, recording uniqueness violations into `errs`.
    ///
    /// Returns `None` exactly when it recorded something, or when there are no
    /// entries at all: a partially valid topology is not a topology.
    pub(crate) fn build(entries: Vec<Vport>, names: &[String], errs: &mut Errors) -> (r: Option<Self>)
        requires
            names@.len() == entries@.len(),
        ensures
            final(errs)@ == old(errs)@ + duplicates(
                vport_models(entries@),
                texts(names@),
                indexable(entries@.len() as int),
            ),
            r is Some <==> entries@.len() > 0 && duplicates(
                vport_models(entries@),
                texts(names@),
                indexable(entries@.len() as int),
            ).len() == 0,
            r matches Some(t) ==> t@ == vport_models(entries@) && distinct(t@),
    {
        broadcast use vstd::std_specs::btree::group_btree_axioms;

        let ghost v = vport_models(entries@);
        let ghost shown = texts(names@);
        let mut by_id: Vec<Option<VportIdx>> = Vec::new();
        let mut by_peer: BTreeMap<(u128, u128), u16> = BTreeMap::new();
        let before: usize = errs.len();
        assert(errs@ =~= old(errs)@ + Seq::<ConfigErrorModel>::empty());
        let mut n: usize = 0;
        while n < entries.len() && n < MAX_VPORTS
            invariant
                n <= entries@.len(),
                n <= MAX_VPORTS,
                v == vport_models(entries@),
                shown == texts(names@),
                names@.len() == entries@.len(),
                errs@ == old(errs)@ + duplicates(v, shown, n as int),
                by_id@.len() <= 0x1_0000,
                forall|id: int|
                    #![trigger by_id@[id]]
                    0 <= id < by_id@.len() && id < 0x1_0000 ==> id_slot(
                        by_id@[id],
                        last_with_id(v, id as u16, n as int),
                    ),
                forall|i: int|
                    0 <= i < n ==> (#[trigger] v[i]).id < by_id@.len() && v[i].id != PUNT_VPORT,
                forall|p: SocketAddr|
                    #![trigger p.spec_key()]
                    peer_slot(by_peer@, p, last_with_peer(v, p, n as int)),
                forall|k: (u128, u128)|
                    #[trigger] by_peer@.contains_key(k) ==> by_peer@[k] < n
                        && v[by_peer@[k] as int].peer.spec_key() == k,
            decreases entries.len() - n,
        {
            let vp: Vport = entries[n];
            let id: u16 = vp.id.get();
            assert(v[n as int] == vp@);
            let ghost seen = duplicates(v, shown, n as int);
            while by_id.len() <= id as usize
                invariant
                    n < entries@.len(),
                    n < MAX_VPORTS,
                    v == vport_models(entries@),
                    by_id@.len() <= 0x1_0000,
                    forall|k: int|
                        #![trigger by_id@[k]]
                        0 <= k < by_id@.len() && k < 0x1_0000 ==> id_slot(
                            by_id@[k],
                            last_with_id(v, k as u16, n as int),
                        ),
                    forall|i: int| 0 <= i < n ==> (#[trigger] v[i]).id < by_id@.len(),
                decreases id + 1 - by_id.len(),
            {
                proof {
                    lemma_id_absent(v, by_id@.len() as u16, n as int);
                }
                by_id.push(None);
            }
            if by_id[id as usize].is_some() {
                errs.push(ConfigError::DuplicateVportId { value: id });
            }
            by_id[id as usize] = Some(VportIdx(n as u16));
            let key: (u128, u128) = vp.peer.key();
            assert(peer_slot(by_peer@, vp.peer, last_with_peer(v, vp.peer, n as int)));
            let ghost peers = by_peer@;
            match by_peer.insert(key, n as u16) {
                Some(first) => {
                    proof {
                        assert(peers.contains_key(key));
                    }
                    let first_id: u16 = entries[first as usize].id.get();
                    assert(v[first as int].id == first_id);
                    assert(names@[n as int]@ == shown[n as int]);
                    errs.push(
                        ConfigError::DuplicatePeer {
                            value: names[n].clone(),
                            first: first_id,
                            second: id,
                        },
                    );
                },
                None => {},
            }
            proof {
                assert(errs@ =~= old(errs)@ + duplicates(v, shown, n + 1));
                assert forall|p: SocketAddr| #![trigger p.spec_key()] peer_slot(
                    by_peer@,
                    p,
                    last_with_peer(v, p, n + 1),
                ) by {
                    assert(peer_slot(peers, p, last_with_peer(v, p, n as int)));
                    if p.spec_key() == key {
                        SocketAddr::lemma_keys_differ(p, vp.peer);
                    }
                }
                assert forall|k: (u128, u128)| #[trigger] by_peer@.contains_key(k) implies by_peer@[k]
                    < n + 1 && v[by_peer@[k] as int].peer.spec_key() == k by {
                    if k != key {
                        assert(peers.contains_key(k));
                    }
                }
            }
            n += 1;
        }
        let ghost found = duplicates(v, shown, n as int);
        if errs.len() != before || entries.len() == 0 {
            return None;
        }
        proof {
            lemma_none_found(v, shown, n as int);
            lemma_few(v, n as int);
            assert forall|i: int| 0 <= i < v.len() implies (#[trigger] v[i]).id < by_id@.len()
                && by_id@[v[i].id as int] == Some(VportIdx(i as u16)) by {
                assert(id_slot(by_id@[v[i].id as int], last_with_id(v, v[i].id, n as int)));
            }
            assert forall|id: int| 0 <= id < by_id@.len() implies ((#[trigger] by_id@[id]) matches Some(
                idx,
            ) ==> idx.0 < v.len() && v[idx.0 as int].id == id) by {
                lemma_scan(v, id as u16, v[0].peer, n as int);
            }
            assert forall|i: int| 0 <= i < v.len() implies by_peer@.contains_key(
                (#[trigger] v[i]).peer.spec_key(),
            ) by {
                let p = v[i].peer;
                assert(peer_slot(by_peer@, p, last_with_peer(v, p, n as int)));
            }
        }
        let t = VportTable { entries, by_id, by_peer };
        Some(t)
    }

    /// Number of vports.
    #[must_use]
    pub fn len(&self) -> (r: usize)
        ensures
            r == self@.len(),
            0 < r <= MAX_VPORTS,
    {
        proof {
            use_type_invariant(self);
        }
        self.entries.len()
    }

    /// Always false: there is no table without vports.
    #[must_use]
    pub fn is_empty(&self) -> (r: bool)
        ensures
            !r,
            self@.len() > 0,
    {
        proof {
            use_type_invariant(self);
        }
        self.entries.len() == 0
    }

    /// Every vport with its index, in configuration order.
    #[must_use]
    pub fn iter(&self) -> (r: Vec<(VportIdx, Vport)>)
        ensures
            r@.len() == self@.len(),
            forall|i: int|
                0 <= i < r@.len() ==> (#[trigger] r@[i]).0.spec_get() == i && r@[i].1@ == self@[i],
    {
        proof {
            use_type_invariant(self);
        }
        let mut out: Vec<(VportIdx, Vport)> = Vec::new();
        let mut i: usize = 0;
        while i < self.entries.len()
            invariant
                i <= self.entries@.len(),
                self.entries@.len() <= MAX_VPORTS,
                out@.len() == i,
                forall|j: int|
                    0 <= j < i ==> (#[trigger] out@[j]).0.spec_get() == j && out@[j].1@ == self@[j],
            decreases self.entries.len() - i,
        {
            out.push((VportIdx(i as u16), self.entries[i]));
            i += 1;
        }
        out
    }

    /// Resolve a raw id, an engine verdict's port number, to an index.
    #[must_use]
    pub fn idx_of_id(&self, id: u16) -> (r: Option<VportIdx>)
        ensures
            r matches Some(i) ==> 0 <= i.spec_get() < self@.len() && self@[i.spec_get()].id == id,
            r is None ==> forall|i: int| 0 <= i < self@.len() ==> (#[trigger] self@[i]).id != id,
            distinct(self@),
    {
        proof {
            use_type_invariant(self);
        }
        if (id as usize) < self.by_id.len() {
            self.by_id[id as usize]
        } else {
            None
        }
    }

    /// Resolve a source tuple to the vport it arrived on.
    #[must_use]
    pub fn idx_of_peer(&self, peer: &SocketAddr) -> (r: Option<VportIdx>)
        ensures
            r matches Some(i) ==> 0 <= i.spec_get() < self@.len() && self@[i.spec_get()].peer
                == *peer,
            r is None ==> forall|i: int|
                0 <= i < self@.len() ==> (#[trigger] self@[i]).peer != *peer,
            distinct(self@),
    {
        broadcast use vstd::std_specs::btree::group_btree_axioms;

        proof {
            use_type_invariant(self);
        }
        let key: (u128, u128) = peer.key();
        match self.by_peer.get(&key) {
            Some(i) => {
                proof {
                    assert(self.by_peer@.contains_key(key));
                    SocketAddr::lemma_keys_differ(self@[*i as int].peer, *peer);
                }
                Some(VportIdx(*i))
            },
            None => None,
        }
    }

    /// The vport at `idx`.
    #[must_use]
    pub fn get(&self, idx: VportIdx) -> (r: &Vport)
        requires
            0 <= idx.spec_get() < self@.len(),
        ensures
            r@ == self@[idx.spec_get()],
    {
        &self.entries[idx.0 as usize]
    }
}

spec fn id_slot(slot: Option<VportIdx>, at: Option<int>) -> bool {
    match slot {
        None => at is None,
        Some(idx) => at == Some(idx.0 as int),
    }
}

spec fn peer_slot(m: Map<(u128, u128), u16>, p: SocketAddr, at: Option<int>) -> bool {
    match at {
        None => !m.contains_key(p.spec_key()),
        Some(i) => m.contains_key(p.spec_key()) && m[p.spec_key()] == i,
    }
}

proof fn lemma_id_absent(v: Seq<VportModel>, id: u16, n: int)
    requires
        0 <= n <= v.len(),
        forall|i: int| 0 <= i < n ==> (#[trigger] v[i]).id < id,
    ensures
        last_with_id(v, id, n) is None,
    decreases n,
{
    if n > 0 {
        assert(v[n - 1].id < id);
        lemma_id_absent(v, id, n - 1);
    }
}

/// A later vport shares nothing with an earlier one that the scan would find.
proof fn lemma_scan(v: Seq<VportModel>, id: u16, peer: SocketAddr, n: int)
    requires
        0 <= n <= v.len(),
    ensures
        last_with_id(v, id, n) is None ==> forall|i: int| 0 <= i < n ==> (#[trigger] v[i]).id != id,
        last_with_id(v, id, n) matches Some(at) ==> 0 <= at < n && v[at].id == id,
        last_with_peer(v, peer, n) is None ==> forall|i: int|
            0 <= i < n ==> (#[trigger] v[i]).peer != peer,
        last_with_peer(v, peer, n) matches Some(at) ==> 0 <= at < n && v[at].peer == peer,
    decreases n,
{
    if n > 0 {
        lemma_scan(v, id, peer, n - 1);
    }
}

proof fn lemma_none_found(v: Seq<VportModel>, names: Seq<Seq<char>>, n: int)
    requires
        0 <= n <= v.len(),
        duplicates(v, names, n).len() == 0,
    ensures
        forall|i: int, j: int|
            0 <= i < j < n ==> (#[trigger] v[i]).id != (#[trigger] v[j]).id && v[i].peer
                != v[j].peer,
        forall|i: int|
            0 <= i < n ==> last_with_id(v, (#[trigger] v[i]).id, n) == Some(i) && last_with_peer(
                v,
                v[i].peer,
                n,
            ) == Some(i),
    decreases n,
{
    if n > 0 {
        lemma_none_found(v, names, n - 1);
        lemma_scan(v, v[n - 1].id, v[n - 1].peer, n - 1);
    }
}

/// There are no more distinct vports than there are legal ids.
proof fn lemma_few(v: Seq<VportModel>, n: int)
    requires
        0 <= n <= v.len(),
        forall|i: int, j: int|
            0 <= i < j < n ==> (#[trigger] v[i]).id != (#[trigger] v[j]).id && v[i].peer
                != v[j].peer,
        forall|i: int| 0 <= i < n ==> (#[trigger] v[i]).id != PUNT_VPORT,
    ensures
        n < MAX_VPORTS,
{
    let ids = Seq::new(n as nat, |i: int| v[i].id as int);
    let legal = vstd::set_lib::set_int_range(0, PUNT_VPORT as int);
    vstd::set_lib::lemma_int_range(0, PUNT_VPORT as int);
    assert(ids.no_duplicates()) by {
        assert forall|i: int, j: int| 0 <= i < ids.len() && 0 <= j < ids.len() && i
            != j implies ids[i] != ids[j] by {
            if i < j {
                assert(v[i].id != v[j].id);
            } else {
                assert(v[j].id != v[i].id);
            }
        }
    }
    ids.unique_seq_to_set();
    assert(ids.to_set().subset_of(legal)) by {
        assert forall|x: int| ids.to_set().contains(x) implies legal.contains(x) by {
            let i = choose|i: int| 0 <= i < ids.len() && ids[i] == x;
            assert(v[i].id != PUNT_VPORT);
        }
    }
    vstd::set_lib::lemma_len_subset(ids.to_set(), legal);
}

/// Two vports with one id or one peer are noticed, and vports that share
/// neither raise nothing.
pub proof fn law_duplicates_are_found(v: Seq<VportModel>, names: Seq<Seq<char>>, n: int)
    requires
        0 <= n <= v.len(),
    ensures
        duplicates(v, names, n).len() == 0 <==> (forall|i: int, j: int|
            0 <= i < j < n ==> (#[trigger] v[i]).id != (#[trigger] v[j]).id && v[i].peer
                != v[j].peer),
    decreases n,
{
    if n > 0 {
        law_duplicates_are_found(v, names, n - 1);
        lemma_scan(v, v[n - 1].id, v[n - 1].peer, n - 1);
        if duplicates(v, names, n).len() == 0 {
            lemma_none_found(v, names, n);
        }
    }
}

proof fn lemma_last(v: Seq<VportModel>, peer: SocketAddr, n: int)
    requires
        0 <= n <= v.len(),
    ensures
        last_with_peer(v, peer, n) matches Some(at) ==> 0 <= at < n && v[at].peer == peer && forall|
            k: int,
        |
            at < k < n ==> (#[trigger] v[k]).peer != peer,
        last_with_peer(v, peer, n) is None ==> forall|k: int|
            0 <= k < n ==> (#[trigger] v[k]).peer != peer,
    decreases n,
{
    if n > 0 {
        lemma_last(v, peer, n - 1);
    }
}

/// Each repeated id is reported under that id, and each repeated peer with the
/// last vport before it that had it.
pub proof fn law_each_duplicate_is_reported(
    v: Seq<VportModel>,
    names: Seq<Seq<char>>,
    n: int,
    i: int,
    j: int,
)
    requires
        0 <= i < j < n <= v.len(),
        names.len() == v.len(),
    ensures
        v[i].id == v[j].id ==> duplicates(v, names, n).contains(
            ConfigErrorModel::DuplicateVportId { value: v[j].id },
        ),
        v[i].peer == v[j].peer && (forall|k: int|
            i < k < j ==> (#[trigger] v[k]).peer != v[j].peer) ==> duplicates(v, names, n).contains(
            ConfigErrorModel::DuplicatePeer { value: names[j], first: v[i].id, second: v[j].id },
        ),
    decreases n,
{
    let before = duplicates(v, names, n - 1);
    let after = duplicates(v, names, n);
    if j < n - 1 {
        law_each_duplicate_is_reported(v, names, n - 1, i, j);
        assert forall|e: ConfigErrorModel| before.contains(e) implies after.contains(e) by {
            let k = choose|k: int| 0 <= k < before.len() && before[k] == e;
            assert(after[k] == e);
        }
    } else {
        lemma_scan(v, v[j].id, v[j].peer, n - 1);
        if v[i].id == v[j].id {
            assert(after[before.len() as int] == (ConfigErrorModel::DuplicateVportId {
                value: v[j].id,
            }));
        }
        if v[i].peer == v[j].peer && (forall|k: int|
            i < k < j ==> (#[trigger] v[k]).peer != v[j].peer) {
            lemma_last(v, v[j].peer, n - 1);
            let at = last_with_peer(v, v[j].peer, n - 1)->0;
            assert(v[at].peer == v[j].peer);
            assert(at == i);
            assert(after.last() == (ConfigErrorModel::DuplicatePeer {
                value: names[j],
                first: v[i].id,
                second: v[j].id,
            }));
        }
    }
}

} // verus!
