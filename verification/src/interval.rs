//! Closed numeric ranges over grid values, used for valid-hit-distance
//! windows and for clamping color channels.

use crate::rtweekend::INFINITY;
use vstd::prelude::*;

verus! {

#[derive(Clone, Copy, PartialEq, Eq, Structural, Debug)]
pub struct Interval {
    pub min: i64,
    pub max: i64,
}

/// `x` clamped into `[i.min, i.max]`.
pub open spec fn clamp_s(i: Interval, x: int) -> int {
    if x < i.min {
        i.min as int
    } else if x > i.max {
        i.max as int
    } else {
        x
    }
}

impl Interval {
    /// The empty interval: below every grid value, above every grid value.
    pub fn new() -> (r: Self)
        ensures
            r.min == INFINITY,
            r.max == -INFINITY,
    {
        Interval { min: INFINITY, max: -INFINITY }
    }

    /// The empty range: below every grid value, above every grid value.
    pub fn empty() -> (r: Self)
        ensures
            r.min == INFINITY,
            r.max == -INFINITY,
            r.min > r.max,
    {
        Interval { min: INFINITY, max: -INFINITY }
    }

    /// The range that admits every representable distance.
    pub fn universal() -> (r: Self)
        ensures
            r.min == -INFINITY,
            r.max == INFINITY,
    {
        Interval { min: -INFINITY, max: INFINITY }
    }

    pub fn new_use(minimum: i64, maximum: i64) -> (r: Self)
        ensures
            r.min == minimum,
            r.max == maximum,
    {
        Interval { min: minimum, max: maximum }
    }

    pub fn size(&self) -> (r: i64)
        requires
            self.max - self.min <= i64::MAX,
            self.max - self.min >= i64::MIN,
        ensures
            r == self.max - self.min,
    {
        self.max - self.min
    }

    /// Inclusive membership.
    pub fn contains(&self, x: i64) -> (r: bool)
        ensures
            r == (self.min <= x && x <= self.max),
    {
        self.min <= x && x <= self.max
    }

    /// Strict membership, used for hit-distance acceptance so that boundary
    /// self-intersections are excluded.
    pub fn surrounds(&self, x: i64) -> (r: bool)
        ensures
            r == (self.min < x && x < self.max),
    {
        self.min < x && x < self.max
    }

    pub fn clamp(&self, x: i64) -> (r: i64)
        ensures
            r == clamp_s(*self, x as int),
    {
        if x < self.min {
            self.min
        } else if x > self.max {
            self.max
        } else {
            x
        }
    }
}

impl Default for Interval {
    /// The empty interval, as `new` builds it.
    fn default() -> (r: Self)
        ensures
            r.min == INFINITY,
            r.max == -INFINITY,
    {
        Interval::new()
    }
}

} // verus!
