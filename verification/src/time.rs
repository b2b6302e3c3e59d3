//! Monotonic time in whole nanoseconds.
use vstd::prelude::*;

verus! {

pub const NS_PER_MS: u64 = 1_000_000;

pub const NS_PER_SEC: u64 = 1_000_000_000;

/// A reading of a monotonic clock, in nanoseconds since some fixed origin.
#[derive(Clone, Copy, PartialEq, Eq, Structural, Debug)]
pub struct Instant {
    pub ns: u64,
}

/// A span of time in nanoseconds.
#[derive(Clone, Copy, PartialEq, Eq, Structural, Debug)]
pub struct Duration {
    pub ns: u128,
}

/// One reading of both clocks: the monotonic one that the logic measures with
/// and the wall clock (milliseconds since the Unix epoch) that the log shows.
#[derive(Clone, Copy, PartialEq, Eq, Structural, Debug)]
pub struct Clock {
    pub now: Instant,
    pub unix_ms: u64,
}

/// Nanoseconds from `earlier` to `later`; zero when `later` is not later.
pub open spec fn elapsed_ns(earlier: Instant, later: Instant) -> nat {
    if later.ns >= earlier.ns {
        (later.ns - earlier.ns) as nat
    } else {
        0
    }
}

impl Instant {
    /// Nanoseconds since `earlier`, saturating at zero.
    pub fn nanos_since(self, earlier: Instant) -> (r: u64)
        ensures
            r == elapsed_ns(earlier, self),
    {
        if self.ns >= earlier.ns {
            self.ns - earlier.ns
        } else {
            0
        }
    }

    /// The instant `d` later.
    pub fn plus(self, d: Duration) -> (r: Instant)
        requires
            self.ns + d.ns <= u64::MAX,
        ensures
            r.ns == self.ns + d.ns,
    {
        Instant { ns: self.ns + d.ns as u64 }
    }
}

impl Duration {
    pub fn from_secs(secs: u64) -> (r: Duration)
        ensures
            r.ns == secs * NS_PER_SEC,
    {
        Duration { ns: (secs as u128) * 1_000_000_000 }
    }

    pub fn from_millis(ms: u64) -> (r: Duration)
        ensures
            r.ns == ms * NS_PER_MS,
    {
        Duration { ns: (ms as u128) * 1_000_000 }
    }

    /// Whole seconds.
    pub fn as_secs(self) -> (r: u128)
        ensures
            r == self.ns / NS_PER_SEC as u128,
    {
        self.ns / (NS_PER_SEC as u128)
    }
}

/// The time from one instant to a later one is what has to be added to the first; back
/// in time there is none.
pub proof fn law_elapsed_time(a: Instant, b: Instant)
    ensures
        a.ns <= b.ns ==> a.ns + elapsed_ns(a, b) == b.ns,
        b.ns < a.ns ==> elapsed_ns(a, b) == 0,
{
}

} // verus!
