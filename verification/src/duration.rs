//! A signed time span with minute resolution.

use vstd::prelude::*;

verus! {

/// A signed span of time, counted in whole minutes.
///
/// Minute resolution is all the report needs: activity durations are
/// displayed as whole hours and minutes, with no rounding.
#[derive(Clone, Copy, Debug, PartialEq, Eq, Structural)]
pub struct Duration {
    /// The length of the span in minutes; negative for a reversed span.
    pub minutes: i64,
}

impl Duration {
    /// The span of `m` minutes.
    pub fn minutes(m: i64) -> (d: Duration)
        ensures
            d.minutes == m,
    {
        Duration { minutes: m }
    }

    /// The span of `h` whole hours.
    pub fn hours(h: i64) -> (d: Duration)
        requires
            i64::MIN <= h * 60 <= i64::MAX,
        ensures
            d.minutes == h * 60,
    {
        Duration { minutes: h * 60 }
    }

    /// The sum of two spans.
    pub fn plus(self, other: Duration) -> (d: Duration)
        requires
            i64::MIN <= self.minutes + other.minutes <= i64::MAX,
        ensures
            d.minutes == self.minutes + other.minutes,
    {
        Duration { minutes: self.minutes + other.minutes }
    }

    /// The span's length in whole minutes.
    pub fn num_minutes(&self) -> (m: i64)
        ensures
            m == self.minutes,
    {
        self.minutes
    }

    /// The span's length in whole hours, truncated.
    pub fn num_hours(&self) -> (h: i64)
        requires
            0 <= self.minutes,
        ensures
            h == self.minutes as int / 60,
    {
        let m = self.minutes as u64;
        (m / 60) as i64
    }
}

} // verus!
