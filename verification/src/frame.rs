//! The buffer a pipeline is handed.
//!
//! A `FrameCtx` is a window onto a receive slot: writable headroom, then the
//! inner Ethernet frame, then whatever capacity remains. Every operation that
//! could invalidate the relationship of the three lengths is a total function
//! returning `Result`, so "frame longer than its buffer" and "encapsulated
//! past the front of the arena" are states a pipeline cannot reach.
use crate::text::{dec, push_dec};
use vstd::prelude::*;

verus! {

/// Headroom the harness guarantees before every frame it presents.
pub const MIN_HEADROOM: usize = 64;

/// Why a buffer operation was refused.
#[derive(Clone, Copy, Debug, PartialEq, Eq, Structural)]
pub enum FrameError {
    /// Encapsulation asked for more bytes than the headroom holds.
    NotEnoughHeadroom {
        /// Bytes requested.
        want: usize,
        /// Bytes available.
        have: usize,
    },
    /// The requested length exceeds the buffer behind the frame.
    NotEnoughCapacity {
        /// Length requested.
        want: usize,
        /// Length available.
        have: usize,
    },
    /// Decapsulation asked to remove more bytes than the frame holds.
    FrameTooShort {
        /// Bytes requested.
        want: usize,
        /// Bytes available.
        have: usize,
    },
}

impl FrameError {
    /// What the error says.
    pub open spec fn spec_message(self) -> Seq<char> {
        match self {
            FrameError::NotEnoughHeadroom { want, have } => "encap needs "@ + dec(want as int)
                + " B of headroom, "@ + dec(have as int) + " B available"@,
            FrameError::NotEnoughCapacity { want, have } => "frame length "@ + dec(want as int)
                + " exceeds capacity "@ + dec(have as int),
            FrameError::FrameTooShort { want, have } => "decap needs "@ + dec(want as int)
                + " B, frame is "@ + dec(have as int) + " B"@,
        }
    }

    /// What the error says, for a log line.
    pub fn message(&self) -> (r: String)
        ensures
            r@ == self.spec_message(),
    {
        match *self {
            FrameError::NotEnoughHeadroom { want, have } => {
                let mut out: String = "encap needs ".to_owned();
                push_dec(&mut out, want as u64);
                out.append(" B of headroom, ");
                push_dec(&mut out, have as u64);
                out.append(" B available");
                out
            },
            FrameError::NotEnoughCapacity { want, have } => {
                let mut out: String = "frame length ".to_owned();
                push_dec(&mut out, want as u64);
                out.append(" exceeds capacity ");
                push_dec(&mut out, have as u64);
                out
            },
            FrameError::FrameTooShort { want, have } => {
                let mut out: String = "decap needs ".to_owned();
                push_dec(&mut out, want as u64);
                out.append(" B, frame is ");
                push_dec(&mut out, have as u64);
                out.append(" B");
                out
            },
        }
    }
}

/// One inner frame, in place, with its harness metadata.
#[derive(Debug)]
pub struct FrameCtx<'a> {
    /// `[0, headroom)` is writable headroom; `[headroom, headroom + len)` is
    /// the frame; the remainder is growth capacity.
    pub buf: &'a mut [u8],
    /// Bytes in front of the frame.
    pub headroom: usize,
    /// Length of the frame.
    pub len: usize,
    /// The vport the frame arrived on, as the pipeline's ingress port.
    pub ingress_vport: u16,
    /// Harness receive timestamp, monotonic-clock microseconds truncated.
    pub rx_ts_us: u32,
}

/// `buf` with `window` in place of the bytes from `at` on.
pub open spec fn replaced(buf: Seq<u8>, at: int, window: Seq<u8>) -> Seq<u8> {
    buf.subrange(0, at) + window + buf.subrange(at + window.len(), buf.len() as int)
}

impl<'a> FrameCtx<'a> {
    /// The window lies inside the slot.
    pub open spec fn wf(&self) -> bool {
        self.headroom + self.len <= self.buf@.len()
    }

    /// The whole slot.
    pub open spec fn slot(&self) -> Seq<u8> {
        self.buf@
    }

    /// The frame's bytes.
    pub open spec fn bytes(&self) -> Seq<u8> {
        self.buf@.subrange(self.headroom as int, self.headroom + self.len)
    }

    /// The same window onto the same slot, with the same metadata; only the
    /// slot's bytes may differ.
    pub open spec fn same_window(&self, other: &Self) -> bool {
        &&& self.headroom == other.headroom
        &&& self.len == other.len
        &&& self.ingress_vport == other.ingress_vport
        &&& self.rx_ts_us == other.rx_ts_us
        &&& self.buf@.len() == other.buf@.len()
    }

    /// Present `buf[headroom..headroom + len]` as a frame.
    ///
    /// Returns `None` if that window does not fit in `buf`, which is the only
    /// way the invariant could be broken and the only place it is checked.
    pub fn new(
        buf: &'a mut [u8],
        headroom: usize,
        len: usize,
        ingress_vport: u16,
        rx_ts_us: u32,
    ) -> (r: Option<Self>)
        ensures
            r is Some <==> headroom + len <= old(buf)@.len(),
            r matches Some(f) ==> {
                &&& f.wf()
                &&& f.slot() == old(buf)@
                &&& f.headroom == headroom
                &&& f.len == len
                &&& f.ingress_vport == ingress_vport
                &&& f.rx_ts_us == rx_ts_us
                &&& final(f.buf)@ == final(buf)@
            },
            r is None ==> final(buf)@ == old(buf)@,
    {
        if headroom <= buf.len() && len <= buf.len() - headroom {
            Some(FrameCtx { buf, headroom, len, ingress_vport, rx_ts_us })
        } else {
            None
        }
    }

    /// The frame.
    #[must_use]
    pub fn frame(&self) -> (r: &[u8])
        requires
            self.wf(),
        ensures
            r@ == self.bytes(),
    {
        assert(self.buf.len() <= usize::MAX);
        &self.buf[self.headroom..self.headroom + self.len]
    }

    /// The frame, mutably.
    #[must_use]
    pub fn frame_mut(&mut self) -> (r: &mut [u8])
        requires
            old(self).wf(),
        ensures
            r@ == old(self).bytes(),
            final(r)@.len() == r@.len() ==> {
                &&& final(self).wf()
                &&& final(self).same_window(old(self))
                &&& final(self).bytes() == final(r)@
                &&& final(self).slot() == replaced(
                    old(self).slot(),
                    old(self).headroom as int,
                    final(r)@,
                )
            },
            final(final(self).buf)@ == final(old(self).buf)@,
    {
        let headroom: usize = self.headroom;
        let len: usize = self.len;
        let (_, tail) = self.buf.split_at_mut(headroom);
        let (window, _) = tail.split_at_mut(len);
        window
    }

    /// Current frame length.
    #[must_use]
    pub fn len(&self) -> (r: usize)
        ensures
            r == self.len,
    {
        self.len
    }

    /// Whether the frame is empty. A pipeline that truncates to zero has
    /// effectively dropped it, but the harness still counts the verdict.
    #[must_use]
    pub fn is_empty(&self) -> (r: bool)
        ensures
            r == (self.len == 0),
    {
        self.len == 0
    }

    /// Bytes available in front of the frame for encapsulation.
    #[must_use]
    pub fn headroom(&self) -> (r: usize)
        ensures
            r == self.headroom,
    {
        self.headroom
    }

    /// Bytes the frame may grow to without moving.
    #[must_use]
    pub fn capacity(&self) -> (r: usize)
        requires
            self.wf(),
        ensures
            r == self.slot().len() - self.headroom,
    {
        self.buf.len() - self.headroom
    }

    /// Set the frame length, keeping the existing prefix.
    pub fn set_len(&mut self, len: usize) -> (r: Result<(), FrameError>)
        requires
            old(self).wf(),
        ensures
            final(self).wf(),
            len + old(self).headroom <= old(self).slot().len() ==> r == Ok::<(), FrameError>(())
                && final(self).len == len,
            len + old(self).headroom > old(self).slot().len() ==> r == Err::<(), FrameError>(
                FrameError::NotEnoughCapacity {
                    want: len,
                    have: (old(self).slot().len() - old(self).headroom) as usize,
                },
            ) && final(self).len == old(self).len,
            final(self).slot() == old(self).slot(),
            final(self).headroom == old(self).headroom,
            final(self).ingress_vport == old(self).ingress_vport,
            final(self).rx_ts_us == old(self).rx_ts_us,
            final(final(self).buf)@ == final(old(self).buf)@,
    {
        let have: usize = self.capacity();
        if len > have {
            return Err(FrameError::NotEnoughCapacity { want: len, have });
        }
        self.len = len;
        Ok(())
    }

    /// Shorten the frame; longer requests are a no-op, as for `Vec`.
    pub fn truncate(&mut self, len: usize)
        requires
            old(self).wf(),
        ensures
            final(self).wf(),
            final(self).len == (if len < old(self).len {
                len
            } else {
                old(self).len
            }),
            final(self).slot() == old(self).slot(),
            final(self).headroom == old(self).headroom,
            final(self).ingress_vport == old(self).ingress_vport,
            final(self).rx_ts_us == old(self).rx_ts_us,
            final(final(self).buf)@ == final(old(self).buf)@,
    {
        if len < self.len {
            self.len = len;
        }
    }

    /// Prepend `n` bytes and return them for the caller to fill; until then
    /// they hold what the headroom held.
    ///
    /// This is encapsulation: the frame start moves back into the headroom.
    pub fn push_front(&mut self, n: usize) -> (r: Result<&mut [u8], FrameError>)
        requires
            old(self).wf(),
        ensures
            n > old(self).headroom ==> r is Err && r->Err_0 == (FrameError::NotEnoughHeadroom {
                want: n,
                have: old(self).headroom,
            }) && *final(self) == *old(self),
            n <= old(self).headroom ==> r is Ok && r->Ok_0@ == old(self).slot().subrange(
                old(self).headroom - n,
                old(self).headroom as int,
            ) && (final(r->Ok_0)@.len() == n ==> {
                &&& final(self).wf()
                &&& final(self).headroom == old(self).headroom - n
                &&& final(self).len == old(self).len + n
                &&& final(self).ingress_vport == old(self).ingress_vport
                &&& final(self).rx_ts_us == old(self).rx_ts_us
                &&& final(self).bytes() == final(r->Ok_0)@ + old(self).bytes()
                &&& final(self).slot() == replaced(
                    old(self).slot(),
                    old(self).headroom - n,
                    final(r->Ok_0)@,
                )
            }),
            final(final(self).buf)@ == final(old(self).buf)@,
    {
        if n > self.headroom {
            return Err(FrameError::NotEnoughHeadroom { want: n, have: self.headroom });
        }
        assert(self.buf.len() <= usize::MAX);
        self.headroom = self.headroom - n;
        self.len = self.len + n;
        let at: usize = self.headroom;
        let (_, tail) = self.buf.split_at_mut(at);
        let (window, _) = tail.split_at_mut(n);
        Ok(window)
    }

    /// Remove `n` bytes from the front of the frame (decapsulation).
    pub fn pop_front(&mut self, n: usize) -> (r: Result<(), FrameError>)
        requires
            old(self).wf(),
        ensures
            final(self).wf(),
            n > old(self).len ==> r == Err::<(), FrameError>(
                FrameError::FrameTooShort { want: n, have: old(self).len },
            ) && final(self).headroom == old(self).headroom && final(self).len == old(self).len,
            n <= old(self).len ==> r == Ok::<(), FrameError>(()) && final(self).headroom == old(
                self,
            ).headroom + n && final(self).len == old(self).len - n && final(self).bytes() == old(
                self,
            ).bytes().subrange(n as int, old(self).len as int),
            final(self).slot() == old(self).slot(),
            final(self).ingress_vport == old(self).ingress_vport,
            final(self).rx_ts_us == old(self).rx_ts_us,
            final(final(self).buf)@ == final(old(self).buf)@,
    {
        if n > self.len {
            return Err(FrameError::FrameTooShort { want: n, have: self.len });
        }
        assert(self.buf.len() <= usize::MAX);
        self.headroom = self.headroom + n;
        self.len = self.len - n;
        Ok(())
    }
}

/// Decapsulation undoes encapsulation: a frame that gained bytes at the front
/// (see [`FrameCtx::push_front`]) and then loses as many (see
/// [`FrameCtx::pop_front`]) is the frame it was, whatever was written there.
pub proof fn law_decap_undoes_encap(written: Seq<u8>, frame: Seq<u8>)
    ensures
        (written + frame).subrange(written.len() as int, (written + frame).len() as int) == frame,
{
}

} // verus!
