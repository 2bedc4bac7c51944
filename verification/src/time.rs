//! TrueTime: the current time as a bounded uncertainty interval.
//!
//! Timestamps are microseconds since the Unix epoch (`i64`); durations are microseconds too.
use vstd::prelude::*;

verus! {

/// The clock uncertainty (epsilon) applied on either side of the local clock reading.
pub const UNCERTAINTY_MICROS: i64 = 7_000;

/// An upper bound on any reading of the system clock, in microseconds since the epoch.
pub const CLOCK_MAX_MICROS: i64 = 8_230_000_000_000_000_000;

/// The largest magnitude of a timestamp that travels inside a message.
pub const TIME_LIMIT_MICROS: i64 = 8_000_000_000_000_000_000;

/// A timestamp that fits the range handled by this library.
pub open spec fn valid_time(t: i64) -> bool {
    -TIME_LIMIT_MICROS <= t <= TIME_LIMIT_MICROS
}

/// Reads the system clock through `chrono::Utc::now()` and returns it as microseconds
/// since the Unix epoch.
///
/// `Utc::now()` panics on a clock before the epoch and only builds values inside
/// chrono's `DateTime` range (years up to `MAX_YEAR` = 262142), so the reading is
/// non-negative and below 262143 - 1970 years of 366 days. Nothing else is promised:
/// the value depends on the machine's clock.
#[verifier::external_body]
pub(crate) fn utc_now_micros() -> (t: i64)
    ensures
        0 <= t <= CLOCK_MAX_MICROS,
{
    chrono::Utc::now().timestamp_micros()
}

/// A bounded interval `[earliest, latest]` around the local clock reading.
pub struct TimeInterval {
    pub earliest: i64,
    pub latest: i64,
}

impl TimeInterval {
    /// The interval is centred on a clock reading `t` with `0 <= t <= CLOCK_MAX_MICROS`.
    pub open spec fn wf(self) -> bool {
        &&& 0 <= self.earliest + UNCERTAINTY_MICROS <= CLOCK_MAX_MICROS
        &&& self.latest == self.earliest + 2 * UNCERTAINTY_MICROS
    }

    /// The interval around the clock reading `micros`.
    pub fn around(micros: i64) -> (r: TimeInterval)
        requires
            0 <= micros <= CLOCK_MAX_MICROS,
        ensures
            r.wf(),
            r.earliest == micros - UNCERTAINTY_MICROS,
            r.latest == micros + UNCERTAINTY_MICROS,
    {
        TimeInterval { earliest: micros - UNCERTAINTY_MICROS, latest: micros + UNCERTAINTY_MICROS }
    }
}

/// A TrueTime service returning the current time as a bounded interval.
pub struct TrueTime {}

impl TrueTime {
    /// Returns the current time as the interval `[now - epsilon, now + epsilon]`.
    pub fn now() -> (r: TimeInterval)
        ensures
            r.wf(),
    {
        TimeInterval::around(utc_now_micros())
    }

    /// True if `timestamp` is definitely in the future relative to `now`.
    pub fn before_at(timestamp: i64, now: &TimeInterval) -> (r: bool)
        ensures
            r == (timestamp > now.latest),
    {
        timestamp > now.latest
    }

    /// True if `timestamp` is definitely in the past relative to `now`.
    pub fn after_at(timestamp: i64, now: &TimeInterval) -> (r: bool)
        ensures
            r == (timestamp < now.earliest),
    {
        timestamp < now.earliest
    }

    /// True if `timestamp` has definitely not arrived yet.
    pub fn before(timestamp: i64) -> (r: bool)
        ensures
            r ==> timestamp > UNCERTAINTY_MICROS,
            timestamp > CLOCK_MAX_MICROS + UNCERTAINTY_MICROS ==> r,
    {
        let now = Self::now();
        Self::before_at(timestamp, &now)
    }

    /// True if `timestamp` has definitely passed.
    pub fn after(timestamp: i64) -> (r: bool)
        ensures
            r ==> timestamp < CLOCK_MAX_MICROS - UNCERTAINTY_MICROS,
            timestamp < -UNCERTAINTY_MICROS ==> r,
    {
        let now = Self::now();
        Self::after_at(timestamp, &now)
    }
}

/// At any one reading of the clock, no timestamp is both definitely in the future and
/// definitely in the past.
pub proof fn lemma_before_after_exclusive(timestamp: i64, now: TimeInterval)
    requires
        now.wf(),
    ensures
        !((timestamp > now.latest) && (timestamp < now.earliest)),
{
}

} // verus!
