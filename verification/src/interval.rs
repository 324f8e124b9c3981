use crate::num::INF;
use vstd::prelude::*;

verus! {

/// A numeric range over fixed-point scalars. No invariant forces
/// `min <= max`: an interval with `min > max` is a valid degenerate state
/// that contains nothing and serves as a sentinel.
#[derive(Clone, Copy, Debug, PartialEq, Eq, Structural)]
pub struct Interval {
    pub min: i128,
    pub max: i128,
}

/// Strict containment of a mathematical scalar in an interval: the
/// condition a parametric distance must meet to count as a hit.
pub open spec fn srd(i: Interval, x: int) -> bool {
    (i.min as int) < x && x < (i.max as int)
}

impl Interval {
    pub fn new(min: i128, max: i128) -> (r: Interval)
        ensures
            r == (Interval { min, max }),
    {
        Interval { min, max }
    }

    /// The interval that contains nothing.
    pub fn empty() -> (r: Interval)
        ensures
            r.min == INF,
            r.max == -(INF as int),
    {
        Interval { min: INF, max: -INF }
    }

    /// The interval that contains every representable scalar.
    pub fn universe() -> (r: Interval)
        ensures
            r.min == -(INF as int),
            r.max == INF,
    {
        Interval { min: -INF, max: INF }
    }

    /// True exactly when `min <= x <= max`, endpoints included.
    pub fn contains(&self, x: i128) -> (r: bool)
        ensures
            r == (self.min <= x && x <= self.max),
    {
        self.min <= x && x <= self.max
    }

    /// True exactly when `min < x < max`: the strict test used to bound ray
    /// parameters, so that boundary points never count as intersections.
    pub fn surrounds(&self, x: i128) -> (r: bool)
        ensures
            r == srd(*self, x as int),
    {
        self.min < x && x < self.max
    }

    /// Clamps `x` into the range: `min` below it, `max` above it, `x` inside.
    pub fn clamp(&self, x: i128) -> (r: i128)
        ensures
            r == (if x < self.min {
                self.min
            } else if x > self.max {
                self.max
            } else {
                x
            }),
    {
        if x < self.min {
            self.min
        } else if x > self.max {
            self.max
        } else {
            x
        }
    }
}

/// Builds an interval from its two bounds.
pub fn interval(min: i128, max: i128) -> (r: Interval)
    ensures
        r == (Interval { min, max }),
{
    Interval { min, max }
}

/// For every non-degenerate interval, the strict test holds exactly on the
/// open range `min < x < max`, and fails at both endpoints.
pub proof fn lemma_surrounds_excludes_endpoints(i: Interval)
    requires
        i.min <= i.max,
    ensures
        forall|x: int| srd(i, x) == ((i.min as int) < x && x < (i.max as int)),
        !srd(i, i.min as int),
        !srd(i, i.max as int),
{
}

} // verus!
