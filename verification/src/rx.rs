//! The receive arena: fixed-size buffers that are allocated once.
use crate::frame::replaced;
use crate::ubpf::table::{zeroed, zeros};
use vstd::prelude::*;

verus! {

/// A number of fixed-size receive buffers, side by side.
#[derive(Debug)]
pub struct RxArena {
    buf: Vec<u8>,
    slots: usize,
    slot_len: usize,
}

/// The buffers of an arena.
#[verifier::ext_equal]
pub struct ArenaModel {
    pub bytes: Seq<u8>,
    pub slots: int,
    pub slot_len: int,
}

impl ArenaModel {
    /// Where slot `i` starts.
    pub open spec fn start(self, i: int) -> int {
        i * self.slot_len
    }

    /// Slot `i`, headroom included.
    pub open spec fn slot(self, i: int) -> Seq<u8> {
        self.bytes.subrange(self.start(i), self.start(i) + self.slot_len)
    }
}

impl View for RxArena {
    type V = ArenaModel;

    closed spec fn view(&self) -> ArenaModel {
        ArenaModel {
            bytes: self.buf@,
            slots: self.slots as int,
            slot_len: self.slot_len as int,
        }
    }
}

proof fn lemma_slot_fits(i: int, slots: int, slot_len: int)
    requires
        0 <= i < slots,
        0 <= slot_len,
    ensures
        0 <= i * slot_len,
        i * slot_len + slot_len <= slots * slot_len,
{
    assert(0 <= i * slot_len) by (nonlinear_arith)
        requires
            0 <= i,
            0 <= slot_len,
    ;
    assert(i * slot_len + slot_len <= slots * slot_len) by (nonlinear_arith)
        requires
            i + 1 <= slots,
            0 <= slot_len,
    ;
}

impl RxArena {
    /// The buffers fill the arena.
    pub closed spec fn wf(&self) -> bool {
        self.buf@.len() == self.slots * self.slot_len
    }

    /// Allocate `slots` buffers of `slot_len` bytes each.
    #[must_use]
    pub fn new(slots: usize, slot_len: usize) -> (r: Self)
        requires
            slots * slot_len <= usize::MAX,
        ensures
            r.wf(),
            r@ == (ArenaModel {
                bytes: zeros((slots * slot_len) as nat),
                slots: slots as int,
                slot_len: slot_len as int,
            }),
    {
        RxArena { buf: zeroed(slots * slot_len), slots, slot_len }
    }

    /// Buffers in the arena.
    #[must_use]
    pub fn len(&self) -> (r: usize)
        ensures
            r == self@.slots,
    {
        self.slots
    }

    /// Whether there is no buffer.
    #[must_use]
    pub fn is_empty(&self) -> (r: bool)
        ensures
            r == (self@.slots == 0),
    {
        self.slots == 0
    }

    /// Bytes in each buffer.
    #[must_use]
    pub fn slot_len(&self) -> (r: usize)
        ensures
            r == self@.slot_len,
    {
        self.slot_len
    }

    /// Every buffer at once, one behind the other.
    #[must_use]
    pub fn slots_mut(&mut self) -> (r: &mut [u8])
        requires
            old(self).wf(),
        ensures
            r@ == old(self)@.bytes,
            final(r)@.len() == r@.len() ==> final(self).wf(),
            final(self)@ == (ArenaModel { bytes: final(r)@, ..old(self)@ }),
    {
        self.buf.as_mut_slice()
    }

    /// Buffer `i`, headroom included.
    #[must_use]
    pub fn slot_mut(&mut self, i: usize) -> (r: &mut [u8])
        requires
            old(self).wf(),
            i < old(self)@.slots,
        ensures
            r@ == old(self)@.slot(i as int),
            r@.len() == old(self)@.slot_len,
            final(r)@.len() == r@.len() ==> final(self).wf() && final(self)@ == (ArenaModel {
                bytes: replaced(old(self)@.bytes, old(self)@.start(i as int), final(r)@),
                ..old(self)@
            }),
    {
        proof {
            lemma_slot_fits(i as int, self.slots as int, self.slot_len as int);
            assert(self.buf@.len() == self.buf.len());
        }
        let at: usize = i * self.slot_len;
        let len: usize = self.slot_len;
        let (_, tail) = self.buf.as_mut_slice().split_at_mut(at);
        let (slot, _) = tail.split_at_mut(len);
        slot
    }
}

/// Buffers do not overlap: writing one leaves every other as it was.
pub proof fn law_slots_are_separate(arena: ArenaModel, i: int, j: int, bytes: Seq<u8>)
    requires
        arena.bytes.len() == arena.slots * arena.slot_len,
        0 <= i < arena.slots,
        0 <= j < arena.slots,
        0 <= arena.slot_len,
        bytes.len() == arena.slot_len,
    ensures
        ({
            let after = ArenaModel {
                bytes: replaced(arena.bytes, arena.start(i), bytes),
                ..arena
            };
            &&& after.slot(i) == bytes
            &&& i != j ==> after.slot(j) == arena.slot(j)
        }),
{
    lemma_slot_fits(i, arena.slots, arena.slot_len);
    lemma_slot_fits(j, arena.slots, arena.slot_len);
    let after = ArenaModel { bytes: replaced(arena.bytes, arena.start(i), bytes), ..arena };
    assert(after.slot(i) =~= bytes);
    if i < j {
        lemma_slot_fits(i, j, arena.slot_len);
        assert(after.slot(j) =~= arena.slot(j));
    } else if j < i {
        lemma_slot_fits(j, i, arena.slot_len);
        assert(after.slot(j) =~= arena.slot(j));
    }
}

/// Buffer `i` is the bytes behind the `i` buffers before it.
pub proof fn law_slots_follow_each_other(arena: ArenaModel, i: int, k: int)
    requires
        arena.bytes.len() == arena.slots * arena.slot_len,
        0 <= i < arena.slots,
        0 <= k < arena.slot_len,
    ensures
        arena.slot(i).len() == arena.slot_len,
        0 <= i * arena.slot_len + k < arena.bytes.len(),
        arena.slot(i)[k] == arena.bytes[i * arena.slot_len + k],
{
    lemma_slot_fits(i, arena.slots, arena.slot_len);
}

} // verus!
