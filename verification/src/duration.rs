//! Spans of time, exact to the nanosecond.
use vstd::prelude::*;

verus! {

/// Nanoseconds in a second.
pub const NANOS_PER_SEC: u32 = 1_000_000_000;

/// Nanoseconds in a millisecond.
pub const NANOS_PER_MILLI: u32 = 1_000_000;

/// The nanoseconds of the longest span.
pub open spec fn max_nanos() -> nat {
    (u64::MAX * NANOS_PER_SEC + NANOS_PER_SEC - 1) as nat
}

/// A span of time: whole seconds and the nanoseconds short of one more.
#[derive(Clone, Copy, Debug, PartialEq, Eq, Structural)]
pub struct Duration {
    secs: u64,
    nanos: u32,
}

impl Duration {
    #[verifier::type_invariant]
    spec fn well_formed(self) -> bool {
        self.nanos < NANOS_PER_SEC
    }

    /// The span in nanoseconds.
    pub closed spec fn as_nanos(self) -> nat {
        (self.secs * NANOS_PER_SEC + self.nanos) as nat
    }

    /// The span of `n` nanoseconds.
    pub closed spec fn of_nanos(n: nat) -> Duration {
        Duration { secs: (n / NANOS_PER_SEC as nat) as u64, nanos: (n % NANOS_PER_SEC as nat) as u32 }
    }

    /// Every span up to the longest is the span of its nanoseconds.
    pub proof fn law_nanos_identify(n: nat)
        requires
            n <= max_nanos(),
        ensures
            Duration::of_nanos(n).as_nanos() == n,
    {
        assert(n / NANOS_PER_SEC as nat <= u64::MAX);
    }

    /// The longest span is a nanosecond short of `2^64` seconds.
    pub proof fn law_longest_span()
        ensures
            max_nanos() == 0x1_0000_0000_0000_0000 * 1_000_000_000 - 1,
    {
    }

    /// A span of `secs` seconds and `nanos` nanoseconds.
    pub fn new(secs: u64, nanos: u32) -> (d: Duration)
        requires
            nanos < NANOS_PER_SEC,
        ensures
            d == Duration::of_nanos((secs * NANOS_PER_SEC + nanos) as nat),
            d.as_nanos() == secs * NANOS_PER_SEC + nanos,
    {
        Duration { secs, nanos }
    }

    /// A span of whole seconds.
    pub fn from_secs(secs: u64) -> (d: Duration)
        ensures
            d == Duration::of_nanos((secs * NANOS_PER_SEC) as nat),
            d.as_nanos() == secs * NANOS_PER_SEC,
    {
        Duration { secs, nanos: 0 }
    }

    /// A span of whole milliseconds.
    pub fn from_millis(millis: u64) -> (d: Duration)
        ensures
            d == Duration::of_nanos((millis * NANOS_PER_MILLI) as nat),
            d.as_nanos() == millis * NANOS_PER_MILLI,
    {
        Duration { secs: millis / 1000, nanos: (millis % 1000) as u32 * NANOS_PER_MILLI }
    }

    /// The whole seconds of the span.
    pub fn as_secs(&self) -> (secs: u64)
        ensures
            secs == self.as_nanos() / NANOS_PER_SEC as nat,
    {
        proof {
            use_type_invariant(self);
        }
        self.secs
    }

    /// The nanoseconds beyond the whole seconds.
    pub fn subsec_nanos(&self) -> (nanos: u32)
        ensures
            nanos == self.as_nanos() % NANOS_PER_SEC as nat,
    {
        proof {
            use_type_invariant(self);
        }
        self.nanos
    }

    /// The whole milliseconds of the span.
    pub fn as_millis(&self) -> (millis: u128)
        ensures
            millis == self.as_nanos() / NANOS_PER_MILLI as nat,
    {
        proof {
            use_type_invariant(self);
        }
        self.secs as u128 * 1000 + (self.nanos / NANOS_PER_MILLI) as u128
    }

    /// The span `factor` times over, or the longest span when that is longer.
    pub fn saturating_mul(&self, factor: u32) -> (d: Duration)
        ensures
            d == Duration::of_nanos(
                if self.as_nanos() * factor <= max_nanos() {
                    self.as_nanos() * factor as nat
                } else {
                    max_nanos()
                },
            ),
            factor == 1 ==> d == *self,
    {
        proof {
            use_type_invariant(self);
        }
        assert(0 <= self.secs * 1_000_000_000 <= u64::MAX * 1_000_000_000);
        let nanos: u128 = self.secs as u128 * NANOS_PER_SEC as u128 + self.nanos as u128;
        let longest: u128 = u64::MAX as u128 * NANOS_PER_SEC as u128 + (NANOS_PER_SEC - 1) as u128;
        assert(nanos * factor <= longest * u32::MAX) by (nonlinear_arith)
            requires
                0 <= nanos <= longest,
                0 <= factor <= u32::MAX,
        ;
        let product: u128 = nanos * factor as u128;
        let total: u128 = if product <= longest { product } else { longest };
        Duration {
            secs: (total / NANOS_PER_SEC as u128) as u64,
            nanos: (total % NANOS_PER_SEC as u128) as u32,
        }
    }
}

} // verus!
