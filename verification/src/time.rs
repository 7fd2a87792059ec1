//! Spans of time in nanoseconds.
use vstd::prelude::*;

verus! {

/// The longest span: `u64::MAX` seconds and all but one nanosecond of another.
pub const MAX_NANOS: u128 = 18_446_744_073_709_551_615_999_999_999;

/// A span of time, counted in nanoseconds; its view is their number.
#[derive(Debug, Clone, Copy, PartialEq, Eq, Structural)]
pub struct Duration {
    nanos: u128,
}

impl View for Duration {
    type V = nat;

    closed spec fn view(&self) -> nat {
        self.nanos as nat
    }
}

impl Duration {
    #[verifier::type_invariant]
    spec fn within_range(&self) -> bool {
        self.nanos <= MAX_NANOS
    }

    pub fn from_nanos(nanos: u64) -> (d: Duration)
        ensures
            d@ == nanos,
    {
        Duration { nanos: nanos as u128 }
    }

    pub fn from_millis(millis: u64) -> (d: Duration)
        ensures
            d@ == millis * 1_000_000,
    {
        Duration { nanos: millis as u128 * 1_000_000 }
    }

    pub fn from_secs(secs: u64) -> (d: Duration)
        ensures
            d@ == secs * 1_000_000_000,
    {
        Duration { nanos: secs as u128 * 1_000_000_000 }
    }

    pub fn as_nanos(&self) -> (n: u128)
        ensures
            n == self@,
            n <= MAX_NANOS,
    {
        proof {
            use_type_invariant(self);
        }
        self.nanos
    }

    /// The whole milliseconds of the span.
    pub fn as_millis(&self) -> (n: u128)
        ensures
            n == self@ / 1_000_000,
    {
        self.nanos / 1_000_000
    }

    pub fn is_zero(&self) -> (zero: bool)
        ensures
            zero == (self@ == 0),
    {
        self.nanos == 0
    }

    /// The sum of two spans, or the longest span where it is longer.
    pub fn saturating_add(self, other: Duration) -> (d: Duration)
        ensures
            d@ == spec_saturating_add(self@, other@),
    {
        proof {
            use_type_invariant(&self);
            use_type_invariant(&other);
        }
        if self.nanos + other.nanos > MAX_NANOS {
            Duration { nanos: MAX_NANOS }
        } else {
            Duration { nanos: self.nanos + other.nanos }
        }
    }
}

/// The nanoseconds of the sum of two spans, up to the longest span.
pub open spec fn spec_saturating_add(a: nat, b: nat) -> nat {
    if a + b > MAX_NANOS {
        MAX_NANOS as nat
    } else {
        a + b
    }
}

/// Durations add up, to at most the longest there is.
pub proof fn law_durations_add(a: nat, b: nat)
    ensures
        a + b <= MAX_NANOS ==> spec_saturating_add(a, b) == a + b,
        a + b >= MAX_NANOS ==> spec_saturating_add(a, b) == MAX_NANOS,
{
}

} // verus!
