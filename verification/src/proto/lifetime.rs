//! Lifetimes and deadlines, in nanoseconds on a clock that the caller keeps.

use vstd::prelude::*;

verus! {

/// The lifetime of an allocation where the client asks for none: 10 minutes.
pub const DEFAULT_LIFETIME: u64 = 600_000_000_000;

/// The lifetime of a permission: 5 minutes.
pub const PERMISSION_LIFETIME: u64 = 300_000_000_000;

/// The lifetime of a channel binding where the server sets none: 10 minutes.
pub const CHANNEL_BIND_LIFETIME: u64 = 600_000_000_000;

/// The lifetime of a reservation: 30 seconds.
pub const RESERVATION_LIFETIME: u64 = 30_000_000_000;

/// The instant `lifetime` after `now`, or the end of the clock where the sum
/// does not fit.
pub open spec fn deadline_after(now: u64, lifetime: u64) -> u64 {
    if now + lifetime > u64::MAX {
        u64::MAX
    } else {
        (now + lifetime) as u64
    }
}

/// The instant `lifetime` after `now`, or the end of the clock.
pub fn deadline(now: u64, lifetime: u64) -> (d: u64)
    ensures
        d == deadline_after(now, lifetime),
{
    now.saturating_add(lifetime)
}

/// The later of two instants.
pub open spec fn later(a: u64, b: u64) -> u64 {
    if a >= b {
        a
    } else {
        b
    }
}

} // verus!
