//! The stop flag.
use vstd::prelude::*;

verus! {

/// A latch that is set once, when the node is to stop.
#[derive(Clone, Copy, Debug, Default)]
pub struct Stop {
    requested: bool,
}

impl Stop {
    /// Whether a stop was requested.
    pub closed spec fn is_requested(&self) -> bool {
        self.requested
    }

    /// A flag that is clear.
    #[must_use]
    pub fn new() -> (r: Self)
        ensures
            !r.is_requested(),
    {
        Stop { requested: false }
    }

    /// Whether a stop was requested.
    #[must_use]
    pub fn requested(&self) -> (r: bool)
        ensures
            r == self.is_requested(),
    {
        self.requested
    }

    /// Request a stop. The flag latches: nothing clears it.
    pub fn request(&mut self)
        ensures
            final(self).is_requested(),
    {
        self.requested = true;
    }
}

} // verus!
