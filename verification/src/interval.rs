//! Closed scalar intervals bounding valid ray parameters.

use vstd::prelude::*;

use crate::fixed::{abs_i, FX_INF, FX_LIM};

verus! {

#[derive(Clone, Copy, PartialEq, Eq, Structural, Debug)]
pub struct Interval {
    pub min: i128,
    pub max: i128,
}

pub open spec fn contains_s(i: Interval, x: int) -> bool {
    i.min <= x && x <= i.max
}

pub open spec fn surrounds_s(i: Interval, x: int) -> bool {
    i.min < x && x < i.max
}

pub open spec fn clamp_s(i: Interval, x: int) -> int {
    if x < i.min {
        i.min as int
    } else if x > i.max {
        i.max as int
    } else {
        x
    }
}

impl Interval {
    pub fn new(min: i128, max: i128) -> (r: Interval)
        ensures
            r.min == min,
            r.max == max,
    {
        Interval { min, max }
    }

    /// The empty interval: its lower end lies above its upper end, so it
    /// contains nothing.
    pub fn empty() -> (r: Interval)
        ensures
            r.min == FX_INF,
            r.max == -FX_INF,
    {
        Interval { min: FX_INF, max: -FX_INF }
    }

    /// The interval holding every representable scalar.
    pub fn universe() -> (r: Interval)
        ensures
            r.min == -FX_INF,
            r.max == FX_INF,
    {
        Interval { min: -FX_INF, max: FX_INF }
    }

    pub fn size(&self) -> (r: i128)
        requires
            abs_i(self.min as int) <= FX_LIM as int / 2,
            abs_i(self.max as int) <= FX_LIM as int / 2,
        ensures
            r == self.max - self.min,
    {
        self.max - self.min
    }

    pub fn contains(&self, x: i128) -> (r: bool)
        ensures
            r == contains_s(*self, x as int),
    {
        self.min <= x && x <= self.max
    }

    pub fn surrounds(&self, x: i128) -> (r: bool)
        ensures
            r == surrounds_s(*self, x as int),
    {
        self.min < x && x < self.max
    }

    pub fn clamp(&self, x: i128) -> (r: i128)
        ensures
            r == clamp_s(*self, x as int),
    {
        if x < self.min {
            return self.min;
        }
        if x > self.max {
            return self.max;
        }
        x
    }
}

impl Default for Interval {
    /// The default interval is the empty one.
    fn default() -> (r: Interval)
        ensures
            r.min == FX_INF,
            r.max == -FX_INF,
    {
        Interval::empty()
    }
}

} // verus!
