//! Arithmetic on the clocks.
//!
//! Overlay timestamps must be comparable *between processes* on a host, so
//! they are readings of the host's monotonic clock, truncated to 32 bits: the
//! field wraps every 71.6 minutes, which is why it measures deltas and never
//! absolute time.
use vstd::prelude::*;

verus! {

/// A monotonic reading as a timestamp on the wire.
#[must_use]
pub fn now_us(monotonic_us: u64) -> (r: u32)
    ensures
        r == monotonic_us % 0x1_0000_0000,
{
    (monotonic_us % 0x1_0000_0000) as u32
}

/// Microseconds of a monotonic reading in seconds and nanoseconds.
#[must_use]
pub fn monotonic_us(seconds: u64, nanoseconds: u64) -> (r: u64)
    requires
        seconds * 1_000_000 + nanoseconds / 1_000 <= u64::MAX,
    ensures
        r == seconds * 1_000_000 + nanoseconds / 1_000,
{
    seconds * 1_000_000 + nanoseconds / 1_000
}

/// Microseconds since the Unix epoch, for stamping snapshots; zero for a clock
/// that stands before it. Never used for latency.
#[must_use]
pub fn wall_us(since_epoch: Option<(u64, u32)>) -> (r: u64)
    ensures
        r == (match since_epoch {
            None => 0,
            Some((seconds, nanoseconds)) => (seconds * 1_000_000 + nanoseconds / 1_000)
                % 0x1_0000_0000_0000_0000,
        }),
{
    match since_epoch {
        None => 0,
        Some((seconds, nanoseconds)) => {
            let us: u128 = seconds as u128 * 1_000_000 + (nanoseconds / 1_000) as u128;
            (us % 0x1_0000_0000_0000_0000) as u64
        },
    }
}

/// Signed difference `later - earlier` in microseconds, correct across the
/// 32-bit wrap of [`now_us`].
#[must_use]
pub fn delta_us(later: u32, earlier: u32) -> (r: i32)
    ensures
        r == crate::seq::ring_delta(later as int, earlier as int),
{
    crate::seq::SeqNum::new(later).delta(crate::seq::SeqNum::new(earlier))
}

/// Two readings less than half the ring apart differ, on the wire, by exactly
/// as much as they differ.
pub proof fn law_delta_survives_the_wrap(earlier: u64, elapsed: u64)
    requires
        elapsed < 0x8000_0000,
        earlier + elapsed <= u64::MAX,
    ensures
        crate::seq::ring_delta(
            (earlier + elapsed) % 0x1_0000_0000,
            (earlier % 0x1_0000_0000) as int,
        ) == elapsed,
{
}

} // verus!
