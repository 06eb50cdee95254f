//! The punt queue.
//!
//! A bounded ring of preallocated slots between the shards (producers) and the
//! control channel (consumer). Depth and slot size are fixed at startup, so a
//! punt storm costs a counter and never memory.
use crate::headers::write_at;
use vstd::prelude::*;

verus! {

/// Ring depth.
pub const PUNT_DEPTH: usize = 1024;

/// One punted frame, handed to the control channel.
#[derive(Clone, Debug, PartialEq, Eq)]
pub struct PuntFrame {
    /// Vport the frame arrived on.
    pub ingress_vport: u16,
    /// Harness receive timestamp.
    pub rx_ts_us: u32,
    /// The inner Ethernet frame, overlay header already stripped.
    pub bytes: Vec<u8>,
}

/// A [`PuntFrame`] over a sequence.
pub struct PuntModel {
    pub ingress_vport: u16,
    pub rx_ts_us: u32,
    pub bytes: Seq<u8>,
}

impl View for PuntFrame {
    type V = PuntModel;

    open spec fn view(&self) -> PuntModel {
        PuntModel {
            ingress_vport: self.ingress_vport,
            rx_ts_us: self.rx_ts_us,
            bytes: self.bytes@,
        }
    }
}

/// The views of `v`.
pub open spec fn punt_models(v: Seq<PuntFrame>) -> Seq<PuntModel> {
    Seq::new(v.len(), |i: int| v[i]@)
}

/// A preallocated slot; `len` says how much of `buf` is live.
#[derive(Debug)]
struct Slot {
    ingress_vport: u16,
    rx_ts_us: u32,
    len: usize,
    buf: Vec<u8>,
}

impl Slot {
    spec fn model(&self) -> PuntModel {
        PuntModel {
            ingress_vport: self.ingress_vport,
            rx_ts_us: self.rx_ts_us,
            bytes: self.buf@.subrange(0, self.len as int),
        }
    }
}

/// The bounded punt queue.
#[derive(Debug)]
pub struct PuntQueue {
    slots: Vec<Slot>,
    head: usize,
    len: usize,
    slot_size: usize,
}

/// The place `i` steps behind `head` on a ring of `n`.
spec fn ring_at(head: int, i: int, n: int) -> int {
    if head + i < n {
        head + i
    } else {
        head + i - n
    }
}

impl View for PuntQueue {
    type V = Seq<PuntModel>;

    closed spec fn view(&self) -> Seq<PuntModel> {
        Seq::new(
            self.len as nat,
            |i: int| self.slots@[ring_at(self.head as int, i, self.slots@.len() as int)].model(),
        )
    }
}

/// The first `n` bytes of `frame`, or all of it.
pub open spec fn clipped(frame: Seq<u8>, n: int) -> Seq<u8> {
    if frame.len() <= n {
        frame
    } else {
        frame.subrange(0, n)
    }
}

impl PuntQueue {
    /// The ring is in order, and every slot has its full size.
    pub closed spec fn wf(&self) -> bool {
        &&& self.head < self.slots@.len()
        &&& self.len <= self.slots@.len()
        &&& forall|i: int|
            0 <= i < self.slots@.len() ==> (#[trigger] self.slots@[i]).buf@.len() == self.slot_size
                && self.slots@[i].len <= self.slot_size
    }

    /// How many frames the ring holds at most.
    pub closed spec fn spec_capacity(&self) -> int {
        self.slots@.len() as int
    }

    /// How many bytes of a frame a slot holds.
    pub closed spec fn spec_slot_size(&self) -> int {
        self.slot_size as int
    }

    /// A queue of [`PUNT_DEPTH`] slots, each able to hold `inner_mtu` bytes.
    #[must_use]
    pub fn new(inner_mtu: usize) -> (r: Self)
        ensures
            r.wf(),
            r@ == Seq::<PuntModel>::empty(),
            r.spec_capacity() == PUNT_DEPTH,
            r.spec_slot_size() == inner_mtu,
    {
        PuntQueue::with_depth(PUNT_DEPTH, inner_mtu)
    }

    /// A queue with an explicit depth, of at least one slot.
    #[must_use]
    pub fn with_depth(depth: usize, inner_mtu: usize) -> (r: Self)
        ensures
            r.wf(),
            r@ == Seq::<PuntModel>::empty(),
            r.spec_capacity() == (if depth == 0 {
                1int
            } else {
                depth as int
            }),
            r.spec_slot_size() == inner_mtu,
    {
        let n: usize = if depth == 0 {
            1
        } else {
            depth
        };
        let mut slots: Vec<Slot> = Vec::new();
        let mut i: usize = 0;
        while i < n
            invariant
                i <= n,
                slots@.len() == i,
                forall|j: int|
                    0 <= j < i ==> (#[trigger] slots@[j]).buf@.len() == inner_mtu && slots@[j].len
                        == 0,
            decreases n - i,
        {
            let buf: Vec<u8> = vec![0u8; inner_mtu];
            slots.push(Slot { ingress_vport: 0, rx_ts_us: 0, len: 0, buf });
            i += 1;
        }
        let r = PuntQueue { slots, head: 0, len: 0, slot_size: inner_mtu };
        assert(r@ =~= Seq::<PuntModel>::empty());
        r
    }

    /// Enqueue a frame, as far as a slot holds it. `false` means the ring was
    /// full and the caller must count the overflow.
    pub fn push(&mut self, frame: &[u8], ingress_vport: u16, rx_ts_us: u32) -> (r: bool)
        requires
            old(self).wf(),
        ensures
            final(self).wf(),
            final(self).spec_capacity() == old(self).spec_capacity(),
            final(self).spec_slot_size() == old(self).spec_slot_size(),
            r == (old(self)@.len() < old(self).spec_capacity()),
            r ==> final(self)@ == old(self)@.push(
                PuntModel {
                    ingress_vport,
                    rx_ts_us,
                    bytes: clipped(frame@, old(self).spec_slot_size()),
                },
            ),
            !r ==> final(self)@ == old(self)@,
            final(self)@.len() <= final(self).spec_capacity(),
    {
        let n: usize = self.slots.len();
        if self.len == n {
            return false;
        }
        let at: usize = if self.head < n - self.len {
            self.head + self.len
        } else {
            self.head - (n - self.len)
        };
        assert(self.slots@[at as int].buf@.len() == self.slot_size);
        let len: usize = if frame.len() < self.slot_size {
            frame.len()
        } else {
            self.slot_size
        };
        let mut buf: Vec<u8> = Vec::new();
        core::mem::swap(&mut buf, &mut self.slots[at].buf);
        write_at(buf.as_mut_slice(), 0, &frame[0..len]);
        let ghost filled = buf@;
        self.slots[at].buf = buf;
        self.slots[at].len = len;
        self.slots[at].ingress_vport = ingress_vport;
        self.slots[at].rx_ts_us = rx_ts_us;
        self.len = self.len + 1;
        proof {
            assert(filled.subrange(0, len as int) =~= clipped(frame@, self.slot_size as int));
            let added = PuntModel {
                ingress_vport,
                rx_ts_us,
                bytes: clipped(frame@, self.slot_size as int),
            };
            assert(self.slots@[at as int].model() == added);
            assert forall|i: int| 0 <= i < old(self)@.len() implies self@[i] == old(self)@[i] by {
                let p = ring_at(self.head as int, i, n as int);
                assert(p != at);
                assert(self.slots@[p] == old(self).slots@[p]);
            }
            assert(self@ =~= old(self)@.push(added));
        }
        true
    }

    /// Dequeue up to `max` frames, oldest first.
    pub fn drain(&mut self, max: usize) -> (r: Vec<PuntFrame>)
        requires
            old(self).wf(),
        ensures
            final(self).wf(),
            final(self).spec_capacity() == old(self).spec_capacity(),
            final(self).spec_slot_size() == old(self).spec_slot_size(),
            punt_models(r@) + final(self)@ == old(self)@,
            r@.len() == (if max < old(self)@.len() {
                max as int
            } else {
                old(self)@.len() as int
            }),
    {
        let n: usize = self.slots.len();
        let take: usize = if max < self.len {
            max
        } else {
            self.len
        };
        let mut out: Vec<PuntFrame> = Vec::new();
        let ghost before = self@;
        let mut i: usize = 0;
        while i < take
            invariant
                i <= take,
                take - i <= self.len,
                n == self.slots@.len(),
                self.wf(),
                self.spec_capacity() == old(self).spec_capacity(),
                self.spec_slot_size() == old(self).spec_slot_size(),
                out@.len() == i,
                punt_models(out@) + self@ == before,
            decreases take - i,
        {
            let ghost mid = self@;
            let ghost done = punt_models(out@);
            let head: usize = self.head;
            let slot: &Slot = &self.slots[head];
            let mut bytes: Vec<u8> = Vec::new();
            bytes.extend_from_slice(&slot.buf.as_slice()[0..slot.len]);
            let frame = PuntFrame {
                ingress_vport: slot.ingress_vport,
                rx_ts_us: slot.rx_ts_us,
                bytes,
            };
            proof {
                assert(frame@.bytes =~= self.slots@[head as int].model().bytes);
                assert(frame@ == mid[0]);
            }
            out.push(frame);
            self.head = if head + 1 == n {
                0
            } else {
                head + 1
            };
            self.len = self.len - 1;
            proof {
                assert(self@ =~= mid.subrange(1, mid.len() as int));
                assert(punt_models(out@) =~= done.push(mid[0]));
                assert(punt_models(out@) + self@ =~= done + mid);
            }
            i += 1;
        }
        out
    }

    /// A punt storm costs a counter and never memory: no more frames wait than
    /// there are slots, and none is longer than its slot.
    pub proof fn law_punt_is_bounded(&self)
        requires
            self.wf(),
        ensures
            self@.len() <= self.spec_capacity(),
            forall|i: int|
                0 <= i < self@.len() ==> (#[trigger] self@[i]).bytes.len()
                    <= self.spec_slot_size(),
    {
    }

    /// Frames waiting.
    #[must_use]
    pub fn len(&self) -> (r: usize)
        ensures
            r == self@.len(),
    {
        self.len
    }

    /// Whether nothing is waiting.
    #[must_use]
    pub fn is_empty(&self) -> (r: bool)
        ensures
            r == (self@.len() == 0),
    {
        self.len == 0
    }

    /// Slots in the ring.
    #[must_use]
    pub fn capacity(&self) -> (r: usize)
        ensures
            r == self.spec_capacity(),
    {
        self.slots.len()
    }
}

/// The queue is first in, first out: frames pushed one after the other come
/// back in that order, behind whatever was waiting.
pub proof fn law_punt_is_fifo(
    waiting: Seq<PuntModel>,
    pushed: Seq<PuntModel>,
    drained: Seq<PuntModel>,
    left: Seq<PuntModel>,
)
    requires
        drained + left == waiting + pushed,
        drained.len() >= waiting.len(),
    ensures
        drained.subrange(0, waiting.len() as int) == waiting,
        drained.subrange(waiting.len() as int, drained.len() as int) + left == pushed,
{
    let all = waiting + pushed;
    assert(drained.subrange(0, waiting.len() as int) =~= all.subrange(0, waiting.len() as int));
    assert(all.subrange(0, waiting.len() as int) =~= waiting);
    assert(drained.subrange(waiting.len() as int, drained.len() as int) + left =~= all.subrange(
        waiting.len() as int,
        all.len() as int,
    ));
    assert(all.subrange(waiting.len() as int, all.len() as int) =~= pushed);
}

/// A frame that fits its slot is kept whole; of a longer one the front is kept.
pub proof fn law_slots_keep_the_front(frame: Seq<u8>, slot_size: int, i: int)
    requires
        0 <= slot_size,
        0 <= i < clipped(frame, slot_size).len(),
    ensures
        clipped(frame, slot_size).len() == (if frame.len() <= slot_size {
            frame.len() as int
        } else {
            slot_size
        }),
        clipped(frame, slot_size)[i] == frame[i],
        PUNT_DEPTH == 1024,
{
}

} // verus!
