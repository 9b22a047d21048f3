//! Points in time and spans of time, counted in whole nanoseconds.

use vstd::prelude::*;

verus! {

/// Nanoseconds in one millisecond.
pub const NANOS_PER_MILLI: u64 = 1_000_000;

/// Nanoseconds in one second.
pub const NANOS_PER_SEC: u64 = 1_000_000_000;

/// A span of time.
#[derive(Clone, Copy, Debug, PartialEq, Eq, Structural, PartialOrd, Ord, Hash)]
pub struct Duration {
    pub nanos: u64,
}

/// A reading of a monotonic clock, relative to an arbitrary fixed origin.
#[derive(Clone, Copy, Debug, PartialEq, Eq, Structural, PartialOrd, Ord, Hash)]
pub struct Instant {
    pub nanos: u64,
}

impl Default for Duration {
    /// The empty span.
    fn default() -> (d: Duration)
        ensures
            d == (Duration { nanos: 0 }),
    {
        Duration { nanos: 0 }
    }
}

impl Duration {
    pub fn from_millis(millis: u64) -> (d: Duration)
        requires
            millis * NANOS_PER_MILLI <= u64::MAX,
        ensures
            d.nanos == millis * NANOS_PER_MILLI,
    {
        Duration { nanos: millis * NANOS_PER_MILLI }
    }

    pub fn from_secs(secs: u64) -> (d: Duration)
        requires
            secs * NANOS_PER_SEC <= u64::MAX,
        ensures
            d.nanos == secs * NANOS_PER_SEC,
    {
        Duration { nanos: secs * NANOS_PER_SEC }
    }

    /// Whole microseconds in this span.
    pub fn as_micros(&self) -> (micros: u64)
        ensures
            micros == self.nanos / 1000,
    {
        self.nanos / 1000
    }

    /// The distance between two spans.
    pub fn abs_diff(&self, other: Duration) -> (d: Duration)
        ensures
            d.nanos == spec_abs_diff(self.nanos as int, other.nanos as int),
    {
        if self.nanos >= other.nanos {
            Duration { nanos: self.nanos - other.nanos }
        } else {
            Duration { nanos: other.nanos - self.nanos }
        }
    }

    /// `self - other`, or the empty span where `other` is longer.
    pub fn saturating_sub(&self, other: Duration) -> (d: Duration)
        ensures
            d.nanos == (if self.nanos >= other.nanos { self.nanos - other.nanos } else { 0 }),
    {
        if self.nanos >= other.nanos {
            Duration { nanos: self.nanos - other.nanos }
        } else {
            Duration { nanos: 0 }
        }
    }
}

/// The distance between two numbers.
pub open spec fn spec_abs_diff(a: int, b: int) -> nat {
    if a >= b { (a - b) as nat } else { (b - a) as nat }
}

impl Instant {
    /// The time that passed from `earlier` to `self`, or the empty span where `earlier` is later.
    pub fn saturating_duration_since(&self, earlier: Instant) -> (d: Duration)
        ensures
            d == Self::spec_since(*self, earlier),
    {
        if self.nanos >= earlier.nanos {
            Duration { nanos: self.nanos - earlier.nanos }
        } else {
            Duration { nanos: 0 }
        }
    }

    pub open spec fn spec_since(later: Instant, earlier: Instant) -> Duration {
        Duration {
            nanos: if later.nanos >= earlier.nanos { (later.nanos - earlier.nanos) as u64 } else { 0 },
        }
    }

    /// The instant that lies `d` after this one.
    pub fn plus(&self, d: Duration) -> (t: Instant)
        requires
            self.nanos + d.nanos <= u64::MAX,
        ensures
            t.nanos == self.nanos + d.nanos,
    {
        Instant { nanos: self.nanos + d.nanos }
    }

    /// The earlier of two instants.
    pub fn earlier(&self, other: Instant) -> (t: Instant)
        ensures
            t.nanos == (if self.nanos <= other.nanos { self.nanos } else { other.nanos }),
    {
        if self.nanos <= other.nanos {
            *self
        } else {
            other
        }
    }
}

// ======== Laws ========

/// Adding the time that passed to the earlier instant gives the later one.
pub proof fn law_since(later: Instant, earlier: Instant)
    ensures
        later.nanos >= earlier.nanos ==> earlier.nanos + Instant::spec_since(later, earlier).nanos
            == later.nanos,
        later.nanos <= earlier.nanos ==> Instant::spec_since(later, earlier).nanos == 0,
{
}

/// The distance of two numbers is the same in both directions, and leads from one to the other.
pub proof fn law_abs_diff(a: int, b: int)
    ensures
        spec_abs_diff(a, b) == spec_abs_diff(b, a),
        a + spec_abs_diff(a, b) == b || b + spec_abs_diff(a, b) == a,
{
}

/// A second has a thousand milliseconds, and a millisecond a million nanoseconds.
pub proof fn law_units(millis: nat, secs: nat)
    ensures
        millis * NANOS_PER_MILLI == 1_000_000 * millis,
        secs * NANOS_PER_SEC == 1000 * (1_000_000 * secs),
{
}

} // verus!
