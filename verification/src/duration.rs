//! A span of time with nanosecond resolution.

use vstd::prelude::*;

verus! {

/// A non-negative span of time, held as a whole number of nanoseconds.
#[derive(Clone, Copy, Debug, PartialEq, Eq, Hash, Structural)]
pub struct Duration {
    pub nanos: u128,
}

impl Duration {
    /// The span of `nanos` nanoseconds.
    pub fn from_nanos(nanos: u64) -> (d: Duration)
        ensures
            d.nanos == nanos,
    {
        Duration { nanos: nanos as u128 }
    }

    /// The span of `micros` microseconds.
    pub fn from_micros(micros: u64) -> (d: Duration)
        ensures
            d.nanos == micros * 1_000,
    {
        Duration { nanos: micros as u128 * 1_000 }
    }

    /// The span of `millis` milliseconds.
    pub fn from_millis(millis: u64) -> (d: Duration)
        ensures
            d.nanos == millis * 1_000_000,
    {
        Duration { nanos: millis as u128 * 1_000_000 }
    }

    /// The whole number of microseconds in this span, rounded down.
    pub open spec fn micros(self) -> nat {
        (self.nanos / 1_000) as nat
    }

    /// The number of nanoseconds in this span.
    pub fn as_nanos(&self) -> (n: u128)
        ensures
            n == self.nanos,
    {
        self.nanos
    }

    /// The whole number of microseconds in this span, rounded down.
    pub fn as_micros(&self) -> (n: u128)
        ensures
            n == self.micros(),
    {
        self.nanos / 1_000
    }
}

} // verus!
