//! Rate-limited warnings.
//!
//! The datapath must never log per packet, but a condition that fires once is
//! exactly what an operator needs to see: log the first occurrence, then a
//! count every ten seconds, and keep counting silently in between.
use vstd::prelude::*;

verus! {

/// How long a condition class stays silent between reports.
pub const WARN_INTERVAL_US: u64 = 10_000_000;

/// One condition class's occurrence counter and next-report deadline.
#[derive(Clone, Copy, Debug, Default)]
pub struct WarnRate {
    count: u64,
    next_us: u64,
}

impl WarnRate {
    /// Occurrences so far.
    pub closed spec fn spec_count(&self) -> u64 {
        self.count
    }

    /// When the next report is due.
    pub closed spec fn spec_next_us(&self) -> u64 {
        self.next_us
    }

    /// A counter that has never fired.
    #[must_use]
    pub fn new() -> (r: Self)
        ensures
            r.spec_count() == 0,
            r.spec_next_us() == 0,
    {
        WarnRate { count: 0, next_us: 0 }
    }

    /// Record an occurrence at `now_us`.
    ///
    /// Returns the running total when the caller should log, and `None` when
    /// it should stay quiet. The first occurrence always reports.
    pub fn tick(&mut self, now_us: u64) -> (r: Option<u64>)
        requires
            old(self).spec_count() < u64::MAX,
            now_us + WARN_INTERVAL_US <= u64::MAX,
        ensures
            final(self).spec_count() == old(self).spec_count() + 1,
            old(self).spec_count() == 0 || now_us >= old(self).spec_next_us() ==> r == Some(
                final(self).spec_count(),
            ) && final(self).spec_next_us() == now_us + WARN_INTERVAL_US,
            !(old(self).spec_count() == 0 || now_us >= old(self).spec_next_us()) ==> r
                == None::<u64> && final(self).spec_next_us() == old(self).spec_next_us(),
    {
        let count: u64 = self.count + 1;
        self.count = count;
        if count == 1 || now_us >= self.next_us {
            self.next_us = now_us + WARN_INTERVAL_US;
            return Some(count);
        }
        None
    }

    /// Occurrences so far.
    #[must_use]
    pub fn count(&self) -> (r: u64)
        ensures
            r == self.spec_count(),
    {
        self.count
    }
}

/// Reports of one kind are at least ten seconds apart.
pub proof fn law_reports_are_ten_seconds_apart()
    ensures
        WARN_INTERVAL_US == 10 * 1_000_000,
{
}

} // verus!
