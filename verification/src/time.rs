//! Time as plain numbers.
//!
//! The limiters never read a clock. Every operation that depends on time is
//! handed the current reading of a monotonic clock as an [`Instant`], so the
//! same sequence of calls always yields the same states.

use vstd::prelude::*;

verus! {

/// Nanoseconds in one microsecond.
pub const NANOS_PER_MICRO: u64 = 1_000;

/// Nanoseconds in one millisecond.
pub const NANOS_PER_MILLI: u64 = 1_000_000;

/// Nanoseconds in one second.
pub const NANOS_PER_SEC: u64 = 1_000_000_000;

/// The value nearest to `n` that a `u64` can hold.
pub open spec fn clamp_u64(n: int) -> nat {
    if n < 0 {
        0
    } else if n > u64::MAX {
        u64::MAX as nat
    } else {
        n as nat
    }
}

/// A span of time in whole nanoseconds.
///
/// Arithmetic saturates: a result that would not fit is the longest span.
#[derive(Clone, Copy, Debug, PartialEq, Eq, PartialOrd, Ord, Hash, Structural)]
pub struct Duration {
    pub nanos: u64,
}

impl View for Duration {
    type V = nat;

    open spec fn view(&self) -> nat {
        self.nanos as nat
    }
}

impl Duration {
    /// The empty span.
    pub fn zero() -> (d: Duration)
        ensures
            d@ == 0,
    {
        Duration { nanos: 0 }
    }

    pub fn from_nanos(nanos: u64) -> (d: Duration)
        ensures
            d@ == nanos,
    {
        Duration { nanos }
    }

    pub fn from_micros(micros: u64) -> (d: Duration)
        ensures
            d@ == clamp_u64(micros * NANOS_PER_MICRO),
    {
        Duration { nanos: scale(micros, NANOS_PER_MICRO) }
    }

    pub fn from_millis(millis: u64) -> (d: Duration)
        ensures
            d@ == clamp_u64(millis * NANOS_PER_MILLI),
    {
        Duration { nanos: scale(millis, NANOS_PER_MILLI) }
    }

    pub fn from_secs(secs: u64) -> (d: Duration)
        ensures
            d@ == clamp_u64(secs * NANOS_PER_SEC),
    {
        Duration { nanos: scale(secs, NANOS_PER_SEC) }
    }

    pub fn as_nanos(&self) -> (n: u64)
        ensures
            n == self@,
    {
        self.nanos
    }

    /// Whole milliseconds in the span, rounded down.
    pub fn as_millis(&self) -> (n: u64)
        ensures
            n == self@ / (NANOS_PER_MILLI as nat),
    {
        self.nanos / NANOS_PER_MILLI
    }

    /// Whole seconds in the span, rounded down.
    pub fn as_secs(&self) -> (n: u64)
        ensures
            n == self@ / (NANOS_PER_SEC as nat),
    {
        self.nanos / NANOS_PER_SEC
    }

    pub fn is_zero(&self) -> (b: bool)
        ensures
            b == (self@ == 0),
    {
        self.nanos == 0
    }

    pub fn saturating_add(self, other: Duration) -> (d: Duration)
        ensures
            d@ == clamp_u64((self@ + other@) as int),
    {
        Duration { nanos: self.nanos.saturating_add(other.nanos) }
    }

    pub fn saturating_sub(self, other: Duration) -> (d: Duration)
        ensures
            d@ == clamp_u64(self@ - other@),
    {
        Duration { nanos: self.nanos.saturating_sub(other.nanos) }
    }

    pub fn saturating_mul(self, factor: u64) -> (d: Duration)
        ensures
            d@ == clamp_u64(self@ * factor),
    {
        Duration { nanos: scale(self.nanos, factor) }
    }

    /// The span split into `parts` equal parts, rounded down.
    pub fn divided_by(self, parts: u32) -> (d: Duration)
        requires
            parts > 0,
        ensures
            d@ == self@ / (parts as nat),
    {
        Duration { nanos: self.nanos / (parts as u64) }
    }
}

/// A reading of a monotonic clock: nanoseconds since the clock's origin.
#[derive(Clone, Copy, Debug, PartialEq, Eq, PartialOrd, Ord, Hash, Structural)]
pub struct Instant {
    pub nanos: u64,
}

impl View for Instant {
    type V = nat;

    open spec fn view(&self) -> nat {
        self.nanos as nat
    }
}

impl Instant {
    pub fn from_nanos(nanos: u64) -> (t: Instant)
        ensures
            t@ == nanos,
    {
        Instant { nanos }
    }

    pub fn as_nanos(&self) -> (n: u64)
        ensures
            n == self@,
    {
        self.nanos
    }

    /// The time from `earlier` to `self`, or nothing if `earlier` is the later one.
    pub fn saturating_duration_since(self, earlier: Instant) -> (d: Duration)
        ensures
            d@ == clamp_u64(self@ - earlier@),
    {
        Duration { nanos: self.nanos.saturating_sub(earlier.nanos) }
    }

    /// The instant `span` after `self`, or the last instant the clock can show.
    pub fn saturating_add(self, span: Duration) -> (t: Instant)
        ensures
            t@ == clamp_u64((self@ + span@) as int),
    {
        Instant { nanos: self.nanos.saturating_add(span.nanos) }
    }

    /// The instant `span` before `self`, or the clock's origin.
    pub fn saturating_sub(self, span: Duration) -> (t: Instant)
        ensures
            t@ == clamp_u64(self@ - span@),
    {
        Instant { nanos: self.nanos.saturating_sub(span.nanos) }
    }

    /// The later of two instants.
    pub fn latest(self, other: Instant) -> (t: Instant)
        ensures
            t@ == (if self@ >= other@ { self@ } else { other@ }),
            t == self || t == other,
    {
        if self.nanos >= other.nanos {
            self
        } else {
            other
        }
    }
}

/// `a * b`, or the largest `u64` where the product does not fit.
pub fn scale(a: u64, b: u64) -> (r: u64)
    ensures
        r == clamp_u64(a * b),
{
    match a.checked_mul(b) {
        Some(product) => product,
        None => u64::MAX,
    }
}

} // verus!
