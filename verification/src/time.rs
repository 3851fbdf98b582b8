//! Spans of time, and readings of a clock that only moves forward.

use vstd::prelude::*;

verus! {

pub const NANOS_PER_SEC: u128 = 1_000_000_000;

pub const NANOS_PER_MILLI: u128 = 1_000_000;

/// The longest span: `u64::MAX` seconds and 999_999_999 nanoseconds.
pub const MAX_NANOS: u128 = 18_446_744_073_709_551_615_999_999_999;

/// A span of time, in whole nanoseconds.
///
/// A reading of the clock is the span since an arbitrary fixed moment.
#[derive(Debug, Clone, Copy, PartialEq, Eq, Structural)]
pub struct Duration {
    pub(crate) nanos: u128,
}

impl View for Duration {
    type V = nat;

    /// The number of nanoseconds.
    closed spec fn view(&self) -> nat {
        self.nanos as nat
    }
}

/// The number of nanoseconds in seconds.
pub open spec fn secs(n: nat) -> nat {
    n * (NANOS_PER_SEC as nat)
}

/// The number of nanoseconds in milliseconds.
pub open spec fn millis(n: nat) -> nat {
    n * (NANOS_PER_MILLI as nat)
}

/// The whole seconds in a number of nanoseconds.
pub open spec fn whole_secs(nanos: nat) -> nat {
    nanos / (NANOS_PER_SEC as nat)
}

/// The lesser of two numbers.
pub open spec fn lesser(a: nat, b: nat) -> nat {
    if a <= b {
        a
    } else {
        b
    }
}

/// What is left of `a` without `b`, nothing if `b` is more.
pub open spec fn minus(a: nat, b: nat) -> nat {
    if a >= b {
        (a - b) as nat
    } else {
        0
    }
}

/// The nanoseconds of a span that may be missing.
pub open spec fn reading(t: Option<Duration>) -> Option<nat> {
    match t {
        Some(d) => Some(d@),
        None => None,
    }
}

impl Duration {
    #[verifier::type_invariant]
    spec fn valid(self) -> bool {
        self.nanos <= MAX_NANOS
    }

    pub fn zero() -> (r: Duration)
        ensures
            r@ == 0,
    {
        Duration { nanos: 0 }
    }

    pub fn from_secs(n: u64) -> (r: Duration)
        ensures
            r@ == secs(n as nat),
    {
        Duration { nanos: n as u128 * NANOS_PER_SEC }
    }

    pub fn from_millis(n: u64) -> (r: Duration)
        ensures
            r@ == millis(n as nat),
    {
        Duration { nanos: n as u128 * NANOS_PER_MILLI }
    }

    /// The span of `secs` seconds and `nanos` nanoseconds, if it is not too long.
    pub fn from_parts(secs: u64, nanos: u32) -> (r: Option<Duration>)
        ensures
            r is Some <==> secs as nat * (NANOS_PER_SEC as nat) + nanos <= MAX_NANOS,
            r matches Some(d) ==> d@ == secs as nat * (NANOS_PER_SEC as nat) + nanos,
    {
        let n: u128 = secs as u128 * NANOS_PER_SEC + nanos as u128;
        if n <= MAX_NANOS {
            Some(Duration { nanos: n })
        } else {
            None
        }
    }

    /// The whole seconds in the span.
    pub fn as_secs(&self) -> (r: u64)
        ensures
            r == whole_secs(self@),
    {
        proof {
            use_type_invariant(self);
        }
        (self.nanos / NANOS_PER_SEC) as u64
    }

    /// The nanoseconds in the span beyond its whole seconds.
    pub fn subsec_nanos(&self) -> (r: u32)
        ensures
            r == self@ % (NANOS_PER_SEC as nat),
    {
        (self.nanos % NANOS_PER_SEC) as u32
    }

    pub fn is_zero(&self) -> (r: bool)
        ensures
            r == (self@ == 0),
    {
        self.nanos == 0
    }

    pub fn less_than(&self, other: &Duration) -> (r: bool)
        ensures
            r == (self@ < other@),
    {
        self.nanos < other.nanos
    }

    /// The shorter of two spans.
    pub fn min(&self, other: &Duration) -> (r: Duration)
        ensures
            r@ == lesser(self@, other@),
            r == *self || r == *other,
    {
        if self.nanos <= other.nanos {
            *self
        } else {
            *other
        }
    }

    /// The two spans one after the other, which must not be too long.
    pub fn plus(&self, other: &Duration) -> (r: Duration)
        requires
            self@ + other@ <= MAX_NANOS,
        ensures
            r@ == self@ + other@,
    {
        Duration { nanos: self.nanos + other.nanos }
    }

    /// The two spans one after the other, if that is not too long.
    pub fn checked_plus(&self, other: &Duration) -> (r: Option<Duration>)
        ensures
            r is Some <==> self@ + other@ <= MAX_NANOS,
            r matches Some(d) ==> d@ == self@ + other@,
    {
        proof {
            use_type_invariant(self);
            use_type_invariant(other);
        }
        let n: u128 = self.nanos + other.nanos;
        if n <= MAX_NANOS {
            Some(Duration { nanos: n })
        } else {
            None
        }
    }

    /// The span from an earlier reading to this one, nothing if the other is later.
    pub fn since(&self, earlier: &Duration) -> (r: Duration)
        ensures
            r@ == minus(self@, earlier@),
    {
        proof {
            use_type_invariant(self);
        }
        if self.nanos >= earlier.nanos {
            Duration { nanos: self.nanos - earlier.nanos }
        } else {
            Duration { nanos: 0 }
        }
    }

    /// How far the two spans are apart.
    pub fn abs_diff(&self, other: &Duration) -> (r: Duration)
        ensures
            r@ == minus(self@, other@) + minus(other@, self@),
    {
        if self.nanos >= other.nanos {
            self.since(other)
        } else {
            other.since(self)
        }
    }
}

/// Spans of equally many nanoseconds are the same span.
pub broadcast proof fn lemma_duration_view(a: Duration, b: Duration)
    ensures
        #![trigger a@, b@]
        a@ == b@ ==> a == b,
{
}

/// A second is 1 000 000 000 ns, a millisecond 1 000 000 ns; whole seconds are counted downwards.
pub proof fn lemma_units(n: nat, nanos: nat)
    requires
        nanos < 1_000_000_000,
    ensures
        secs(n) == n * 1_000_000_000,
        millis(n) == n * 1_000_000,
        whole_secs(n * 1_000_000_000 + nanos) == n,
{
}

} // verus!
