use crate::num::{abs_le, floor_div, lemma_div_abs, SCALE};
use vstd::prelude::*;

verus! {

/// Half the `i128` range: room enough for any sum the renderer forms from
/// values that already passed a product bound.
pub const BIG: i128 = 85070591730234615865843651857942052863;

/// A quarter of the `i128` range: the bound each addend of a dot product
/// must meet so that the three-term sum cannot overflow.
pub const QUARTER: i128 = 42535295865117307932921825928971026431;

/// A three-component vector of fixed-point scalars.
#[derive(Clone, Copy, Debug, PartialEq, Eq, Structural)]
pub struct Vec3 {
    pub x: i128,
    pub y: i128,
    pub z: i128,
}

/// The dot product of `u` and `v`, in raw (doubly scaled) units.
pub open spec fn dot_i(u: Vec3, v: Vec3) -> int {
    u.x * v.x + u.y * v.y + u.z * v.z
}

/// Fixed-point product: `k` is a fixed-point factor, the result is scaled
/// back down.
pub open spec fn fx_mul(k: int, x: int) -> int {
    (k * x) / (SCALE as int)
}

impl Vec3 {
    /// Every component has magnitude at most `b`.
    pub open spec fn in_bounds(self, b: int) -> bool {
        abs_le(self.x as int, b) && abs_le(self.y as int, b) && abs_le(self.z as int, b)
    }

    pub fn new(x: i128, y: i128, z: i128) -> (r: Vec3)
        ensures
            r == (Vec3 { x, y, z }),
    {
        Vec3 { x, y, z }
    }

    pub fn plus(self, o: Vec3) -> (r: Vec3)
        requires
            self.in_bounds(BIG as int),
            o.in_bounds(BIG as int),
        ensures
            r.x == self.x + o.x,
            r.y == self.y + o.y,
            r.z == self.z + o.z,
    {
        Vec3 { x: self.x + o.x, y: self.y + o.y, z: self.z + o.z }
    }

    pub fn minus(self, o: Vec3) -> (r: Vec3)
        requires
            self.in_bounds(BIG as int),
            o.in_bounds(BIG as int),
        ensures
            r.x == self.x - o.x,
            r.y == self.y - o.y,
            r.z == self.z - o.z,
    {
        Vec3 { x: self.x - o.x, y: self.y - o.y, z: self.z - o.z }
    }

    pub fn negate(self) -> (r: Vec3)
        requires
            self.in_bounds(BIG as int),
        ensures
            r.x == -self.x,
            r.y == -self.y,
            r.z == -self.z,
    {
        Vec3 { x: -self.x, y: -self.y, z: -self.z }
    }

    /// Dot product in raw units; the caller must show each addend bounded.
    pub fn dot(self, o: Vec3) -> (r: i128)
        requires
            abs_le(self.x * o.x, QUARTER as int),
            abs_le(self.y * o.y, QUARTER as int),
            abs_le(self.z * o.z, QUARTER as int),
        ensures
            r == dot_i(self, o),
    {
        self.x * o.x + self.y * o.y + self.z * o.z
    }

    /// Scales by a plain integer factor (a pixel count, not a fixed-point
    /// value), exactly.
    pub fn scale_int(self, k: i128) -> (r: Vec3)
        requires
            abs_le(k * self.x, BIG as int),
            abs_le(k * self.y, BIG as int),
            abs_le(k * self.z, BIG as int),
        ensures
            r.x == k * self.x,
            r.y == k * self.y,
            r.z == k * self.z,
    {
        Vec3 { x: k * self.x, y: k * self.y, z: k * self.z }
    }

    /// Scales by a fixed-point factor `k`, rounding each component down.
    pub fn scale_fx(self, k: i128) -> (r: Vec3)
        requires
            abs_le(k * self.x, BIG as int),
            abs_le(k * self.y, BIG as int),
            abs_le(k * self.z, BIG as int),
        ensures
            r.x == fx_mul(k as int, self.x as int),
            r.y == fx_mul(k as int, self.y as int),
            r.z == fx_mul(k as int, self.z as int),
            r.in_bounds(BIG as int),
    {
        proof {
            lemma_div_abs(k * self.x, SCALE as int, BIG as int);
            lemma_div_abs(k * self.y, SCALE as int, BIG as int);
            lemma_div_abs(k * self.z, SCALE as int, BIG as int);
        }
        Vec3 {
            x: floor_div(k * self.x, SCALE),
            y: floor_div(k * self.y, SCALE),
            z: floor_div(k * self.z, SCALE),
        }
    }

    /// Divides each component by a positive integer, rounding down.
    pub fn div_int(self, k: i128) -> (r: Vec3)
        requires
            0 < k,
            self.in_bounds(BIG as int),
        ensures
            r.x == self.x as int / k as int,
            r.y == self.y as int / k as int,
            r.z == self.z as int / k as int,
            r.in_bounds(BIG as int),
    {
        proof {
            lemma_div_abs(self.x as int, k as int, BIG as int);
            lemma_div_abs(self.y as int, k as int, BIG as int);
            lemma_div_abs(self.z as int, k as int, BIG as int);
        }
        Vec3 {
            x: floor_div(self.x, k),
            y: floor_div(self.y, k),
            z: floor_div(self.z, k),
        }
    }
}

/// Componentwise product bounds, and the bound on a whole dot product, from
/// bounds on the two vectors.
pub proof fn lemma_dot_bound(u: Vec3, v: Vec3, a: int, b: int)
    requires
        u.in_bounds(a),
        v.in_bounds(b),
        0 <= a,
        0 <= b,
    ensures
        abs_le(u.x * v.x, a * b),
        abs_le(u.y * v.y, a * b),
        abs_le(u.z * v.z, a * b),
        abs_le(dot_i(u, v), 3 * (a * b)),
{
    crate::num::lemma_mul_abs(u.x as int, v.x as int, a, b);
    crate::num::lemma_mul_abs(u.y as int, v.y as int, a, b);
    crate::num::lemma_mul_abs(u.z as int, v.z as int, a, b);
}

/// Builds a vector from its components.
pub fn vec3(x: i128, y: i128, z: i128) -> (r: Vec3)
    ensures
        r == (Vec3 { x, y, z }),
{
    Vec3 { x, y, z }
}

} // verus!
