//! Points in time as plain nanosecond counts.
//!
//! The editing logic only ever compares two points in time, measures the gap
//! between them, and offsets one by a fixed period. A [`Timestamp`] holds a
//! point as nanoseconds since a fixed origin, so that logic is plain integer
//! arithmetic; the host reads the clock and hands timestamps in. Gaps are
//! measured saturating at zero, so a clock that steps back reads as no time
//! passing.
use vstd::prelude::*;

verus! {

/// A point in time: nanoseconds since a fixed origin.
#[derive(Copy, Clone, Debug, PartialEq, Eq, Hash, Structural)]
pub struct Timestamp {
    /// Nanoseconds since the scale's origin.
    pub nanos: u64,
}

impl Timestamp {
    /// The timestamp `nanos` nanoseconds after the origin.
    pub fn from_nanos(nanos: u64) -> (t: Timestamp)
        ensures
            t.nanos == nanos,
    {
        Timestamp { nanos }
    }

    /// This timestamp offset by `period_nanos`; the sum must fit in a `u64`.
    pub fn plus(self, period_nanos: u64) -> (t: Timestamp)
        requires
            self.nanos + period_nanos <= u64::MAX,
        ensures
            t.nanos == self.nanos + period_nanos,
    {
        Timestamp { nanos: self.nanos + period_nanos }
    }

    /// Nanoseconds elapsed from `earlier` to `self`, or 0 when `earlier` is later.
    pub fn saturating_since(self, earlier: Timestamp) -> (d: u64)
        ensures
            d == (if self.nanos >= earlier.nanos {
                self.nanos - earlier.nanos
            } else {
                0
            }),
    {
        self.nanos.saturating_sub(earlier.nanos)
    }
}

/// A monotonic clock reading (`std::time::Instant`).
#[verifier::external_type_specification]
#[verifier::external_body]
pub struct ExInstant(std::time::Instant);

/// `Instant::clone`: `Instant` is `Copy`, so a clone is the same reading.
pub assume_specification [<std::time::Instant as std::clone::Clone>::clone](instant: &std::time::Instant) -> (r: std::time::Instant)
    ensures
        r == *instant,
;

/// `Instant::now`: the current monotonic clock reading, used as the origin
/// that later timestamps are measured from. Nothing is promised about it.
#[verifier::external_body]
pub(crate) fn clock_origin() -> std::time::Instant {
    std::time::Instant::now()
}

/// `Instant::elapsed`: nanoseconds on the monotonic clock since `origin`
/// (saturating at zero). Nothing is promised about the value.
#[verifier::external_body]
pub(crate) fn clock_since(origin: &std::time::Instant) -> Timestamp {
    Timestamp { nanos: origin.elapsed().as_nanos() as u64 }
}

} // verus!
