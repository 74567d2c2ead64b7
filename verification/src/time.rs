//! Spans of time and readings of a monotonic clock, to the nanosecond.

use vstd::prelude::*;

verus! {

/// A span of time of at most `u64::MAX` seconds and 999 999 999 nanoseconds.
#[derive(Clone, Copy, Debug, PartialEq, Eq, Structural)]
pub struct Duration {
    nanos: u128,
}

/// The longest span, in nanoseconds.
pub open spec fn max_duration_nanos() -> int {
    18_446_744_073_709_551_615_999_999_999
}

pub open spec fn smaller(a: int, b: int) -> int {
    if a <= b {
        a
    } else {
        b
    }
}

impl Duration {
    #[verifier::type_invariant]
    spec fn well_formed(self) -> bool {
        self.nanos <= max_duration_nanos()
    }

    pub closed spec fn nanos(self) -> int {
        self.nanos as int
    }

    pub proof fn lemma_nanos(self)
        ensures
            self.nanos() >= 0,
    {
    }

    pub fn from_secs(secs: u64) -> (d: Duration)
        ensures
            d.nanos() == secs * 1_000_000_000,
    {
        Duration { nanos: secs as u128 * 1_000_000_000 }
    }

    pub fn from_millis(millis: u64) -> (d: Duration)
        ensures
            d.nanos() == millis * 1_000_000,
    {
        Duration { nanos: millis as u128 * 1_000_000 }
    }

    pub fn as_nanos(&self) -> (n: u128)
        ensures
            n == self.nanos(),
            n <= max_duration_nanos(),
    {
        proof {
            use_type_invariant(self);
        }
        self.nanos
    }

    pub fn is_zero(&self) -> (r: bool)
        ensures
            r == (self.nanos() == 0),
    {
        self.nanos == 0
    }

    /// Twice the span, or the longest span where that is too long.
    pub fn saturating_double(&self) -> (d: Duration)
        ensures
            d.nanos() == smaller(2 * self.nanos(), max_duration_nanos()),
    {
        proof {
            use_type_invariant(self);
        }
        let max: u128 = 18_446_744_073_709_551_615_999_999_999;
        let doubled = 2 * self.nanos;
        if doubled <= max {
            Duration { nanos: doubled }
        } else {
            Duration { nanos: max }
        }
    }

    /// The shorter of two spans.
    pub fn min(self, other: Duration) -> (d: Duration)
        ensures
            d.nanos() == smaller(self.nanos(), other.nanos()),
            d == self || d == other,
    {
        if self.nanos <= other.nanos {
            self
        } else {
            other
        }
    }
}

/// A reading of a monotonic clock, relative to some fixed moment.
#[derive(Clone, Copy, Debug, PartialEq, Eq, Structural)]
pub struct Instant {
    pub nanos: i128,
}

impl Instant {
    /// The reading `window` before this one, or the earliest that there is
    /// where that one cannot be held. So the readings before it are those that
    /// are older than `window`.
    pub fn cutoff(&self, window: Duration) -> (r: Instant)
        ensures
            self.nanos - window.nanos() >= i128::MIN ==> r.nanos == self.nanos - window.nanos(),
            self.nanos - window.nanos() < i128::MIN ==> r.nanos == i128::MIN,
    {
        proof {
            use_type_invariant(&window);
        }
        if i128::MIN + window.nanos as i128 <= self.nanos {
            Instant { nanos: self.nanos - window.nanos as i128 }
        } else {
            Instant { nanos: i128::MIN }
        }
    }
}

} // verus!
