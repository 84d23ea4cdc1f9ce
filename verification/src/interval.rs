//! Closed ranges of fixed-point quantities, used to bound valid hit
//! parameters and to clamp color channels.

use vstd::prelude::*;

verus! {

/// A numeric range with a lower and an upper endpoint. `contains` treats
/// it as closed, `surrounds` as open. The whole `i64` line stands in for
/// an unbounded range.
#[derive(Clone, Copy, Debug, PartialEq, Eq, Structural)]
pub struct Interval {
    /// Lower endpoint.
    pub min: i64,
    /// Upper endpoint.
    pub max: i64,
}

/// Whether `t` lies strictly between `min` and `max`.
pub open spec fn surrounds_v(min: int, max: int, t: int) -> bool {
    min < t < max
}

impl Default for Interval {
    /// The empty range.
    fn default() -> (r: Interval)
        ensures
            r.min == i64::MAX,
            r.max == i64::MIN,
    {
        Interval::empty()
    }
}

impl Interval {
    /// The range from `min` to `max`.
    pub fn new(min: i64, max: i64) -> (r: Interval)
        ensures
            r.min == min,
            r.max == max,
    {
        Interval { min, max }
    }

    /// An empty range: no value lies in it.
    pub fn empty() -> (r: Interval)
        ensures
            r.min == i64::MAX,
            r.max == i64::MIN,
    {
        Interval { min: i64::MAX, max: i64::MIN }
    }

    /// The widest representable range.
    pub fn universe() -> (r: Interval)
        ensures
            r.min == i64::MIN,
            r.max == i64::MAX,
    {
        Interval { min: i64::MIN, max: i64::MAX }
    }

    /// The lower endpoint.
    pub fn min(&self) -> (r: i64)
        ensures
            r == self.min,
    {
        self.min
    }

    /// The upper endpoint.
    pub fn max(&self) -> (r: i64)
        ensures
            r == self.max,
    {
        self.max
    }

    /// This range with the lower endpoint replaced.
    pub fn with_min(self, min: i64) -> (r: Interval)
        ensures
            r.min == min,
            r.max == self.max,
    {
        Interval { min, max: self.max }
    }

    /// This range with the upper endpoint replaced.
    pub fn with_max(self, max: i64) -> (r: Interval)
        ensures
            r.min == self.min,
            r.max == max,
    {
        Interval { min: self.min, max }
    }

    /// The length of the range; negative when it is reversed.
    pub fn size(&self) -> (r: i64)
        requires
            self.max - self.min <= i64::MAX,
            i64::MIN <= self.max - self.min,
        ensures
            r == self.max - self.min,
    {
        self.max - self.min
    }

    /// Whether `value` lies in the closed range.
    pub fn contains(&self, value: i64) -> (r: bool)
        ensures
            r == (self.min <= value <= self.max),
    {
        self.min <= value && value <= self.max
    }

    /// Whether `value` lies in the open range.
    pub fn surrounds(&self, value: i64) -> (r: bool)
        ensures
            r == surrounds_v(self.min as int, self.max as int, value as int),
    {
        self.min < value && value < self.max
    }
}

} // verus!
