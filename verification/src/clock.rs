//! Monotonic time as plain numbers: spans and instants in nanoseconds.

use vstd::prelude::*;

verus! {

/// A span of time, in nanoseconds.
#[derive(Debug, Clone, Copy, PartialEq, Eq, Structural)]
pub struct Duration {
    pub nanos: u128,
}

impl Duration {
    /// `secs` seconds.
    pub fn from_secs(secs: u64) -> (r: Self)
        ensures
            r.nanos == secs * 1_000_000_000,
    {
        Duration { nanos: secs as u128 * 1_000_000_000 }
    }

    /// `millis` milliseconds.
    pub fn from_millis(millis: u64) -> (r: Self)
        ensures
            r.nanos == millis * 1_000_000,
    {
        Duration { nanos: millis as u128 * 1_000_000 }
    }

    /// `nanos` nanoseconds.
    pub fn from_nanos(nanos: u128) -> (r: Self)
        ensures
            r.nanos == nanos,
    {
        Duration { nanos }
    }
}

/// A point on a monotonic clock, in nanoseconds since that clock's origin.
#[derive(Debug, Clone, Copy, PartialEq, Eq, Structural)]
pub struct Instant {
    pub nanos: u128,
}

/// How long after `earlier` the instant `later` lies; zero when it lies before.
pub open spec fn elapsed_between(earlier: Instant, later: Instant) -> u128 {
    if later.nanos >= earlier.nanos {
        (later.nanos - earlier.nanos) as u128
    } else {
        0
    }
}

impl Instant {
    /// The instant `nanos` nanoseconds after the clock's origin.
    pub fn from_nanos(nanos: u128) -> (r: Self)
        ensures
            r.nanos == nanos,
    {
        Instant { nanos }
    }

    /// The instant `d` after `self`.
    pub fn plus(self, d: Duration) -> (r: Self)
        requires
            self.nanos + d.nanos <= u128::MAX,
        ensures
            r.nanos == self.nanos + d.nanos,
    {
        Instant { nanos: self.nanos + d.nanos }
    }

    /// The time elapsed from `earlier` to `self`, saturating at zero.
    pub fn duration_since(self, earlier: Instant) -> (r: Duration)
        ensures
            r.nanos == elapsed_between(earlier, self),
    {
        if self.nanos >= earlier.nanos {
            Duration { nanos: self.nanos - earlier.nanos }
        } else {
            Duration { nanos: 0 }
        }
    }
}

} // verus!
