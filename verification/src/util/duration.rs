use vstd::prelude::*;

verus! {

/// A span of time, counted in nanoseconds.
#[derive(Clone, Copy, Debug, PartialEq, Eq, Structural)]
pub struct Duration {
    pub nanos: u128,
}

/// How many nanoseconds a second has.
pub const NANOS_PER_SECOND: u128 = 1_000_000_000;

impl Duration {
    /// The span of `secs` whole seconds.
    pub fn from_secs(secs: u64) -> (r: Duration)
        ensures
            r.nanos == secs * NANOS_PER_SECOND,
    {
        assert(secs * NANOS_PER_SECOND <= u128::MAX) by (nonlinear_arith)
            requires
                secs <= u64::MAX,
                NANOS_PER_SECOND == 1_000_000_000,
        ;
        Duration { nanos: (secs as u128) * NANOS_PER_SECOND }
    }

    /// The whole seconds of the span.
    pub fn as_secs(&self) -> (r: u128)
        ensures
            r == self.nanos / NANOS_PER_SECOND,
    {
        self.nanos / NANOS_PER_SECOND
    }

    /// How far two spans are apart.
    pub fn abs_diff(&self, other: &Duration) -> (r: Duration)
        ensures
            r.nanos == if self.nanos <= other.nanos {
                other.nanos - self.nanos
            } else {
                self.nanos - other.nanos
            },
    {
        if self.nanos <= other.nanos {
            Duration { nanos: other.nanos - self.nanos }
        } else {
            Duration { nanos: self.nanos - other.nanos }
        }
    }
}

} // verus!
