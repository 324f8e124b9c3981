use crate::num::{abs_le, COORD_MAX, INF, PMAX, SCALE};
use crate::vec3::{fx_mul, Vec3};
use vstd::prelude::*;

verus! {

/// A half-line: origin plus a direction, parameterized by the fixed-point
/// scalar distance `t`.
#[derive(Clone, Copy, Debug, PartialEq, Eq, Structural)]
pub struct Ray {
    pub origin: Vec3,
    pub direction: Vec3,
}

/// The point a ray reaches at parametric distance `t`, as a mathematical
/// function: each component is `origin + t * direction`, rounded down.
pub open spec fn at_i(r: Ray, t: int) -> Vec3 {
    Vec3 {
        x: (r.origin.x + fx_mul(t, r.direction.x as int)) as i128,
        y: (r.origin.y + fx_mul(t, r.direction.y as int)) as i128,
        z: (r.origin.z + fx_mul(t, r.direction.z as int)) as i128,
    }
}

impl Ray {
    /// Origin and direction lie within the coordinate budget; the renderer
    /// only casts such rays.
    pub open spec fn wf(self) -> bool {
        self.origin.in_bounds(COORD_MAX as int) && self.direction.in_bounds(COORD_MAX as int)
    }

    /// The point at parametric distance `t` along the ray.
    pub fn at(&self, t: i128) -> (r: Vec3)
        requires
            self.wf(),
            abs_le(t as int, INF as int),
        ensures
            r == at_i(*self, t as int),
            r.in_bounds(PMAX as int),
    {
        proof {
            lemma_at_bounds(*self, t as int);
        }
        self.origin.plus(self.direction.scale_fx(t))
    }
}

/// Bounds every component of `at_i` from the coordinate budget: the scaled
/// direction term stays under `PMAX - COORD_MAX`, the origin adds at most
/// `COORD_MAX` more.
pub proof fn lemma_at_bounds(r: Ray, t: int)
    requires
        r.wf(),
        abs_le(t, INF as int),
    ensures
        abs_le(t * r.direction.x, (INF as int) * (COORD_MAX as int)),
        abs_le(t * r.direction.y, (INF as int) * (COORD_MAX as int)),
        abs_le(t * r.direction.z, (INF as int) * (COORD_MAX as int)),
        abs_le(fx_mul(t, r.direction.x as int), PMAX as int - COORD_MAX as int),
        abs_le(fx_mul(t, r.direction.y as int), PMAX as int - COORD_MAX as int),
        abs_le(fx_mul(t, r.direction.z as int), PMAX as int - COORD_MAX as int),
        at_i(r, t).in_bounds(PMAX as int),
{
    lemma_fx_mul_abs(t, r.direction.x as int);
    lemma_fx_mul_abs(t, r.direction.y as int);
    lemma_fx_mul_abs(t, r.direction.z as int);
}

/// A fixed-point product of values within the distance and coordinate
/// budgets stays well under `PMAX`.
proof fn lemma_fx_mul_abs(t: int, d: int)
    requires
        abs_le(t, INF as int),
        abs_le(d, COORD_MAX as int),
    ensures
        abs_le(t * d, (INF as int) * (COORD_MAX as int)),
        abs_le(fx_mul(t, d), PMAX as int - COORD_MAX as int),
{
    crate::num::lemma_mul_abs(t, d, INF as int, COORD_MAX as int);
    crate::num::lemma_div_abs_scaled(t * d, SCALE as int, (INF as int) * (COORD_MAX as int));
}

/// Builds a ray from an origin and a direction.
pub fn ray(origin: Vec3, direction: Vec3) -> (r: Ray)
    ensures
        r == (Ray { origin, direction }),
{
    Ray { origin, direction }
}

} // verus!
