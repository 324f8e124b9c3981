use crate::hittable::{flip_i, HitRecord};
use crate::interval::Interval;
use crate::num::{
    abs_le, floor_div, isqrt, lemma_div_abs, lemma_mul_abs, sqrt_i, COORD_MAX, INF, NMAX, PMAX,
    SCALE,
};
use crate::ray::{at_i, Ray};
use crate::vec3::{dot_i, lemma_dot_bound, Vec3};
use vstd::arithmetic::div_mod::{lemma_div_is_ordered, lemma_div_of0};
use vstd::prelude::*;

verus! {

/// An analytic sphere: a center and a fixed-point radius.
#[derive(Clone, Copy, Debug, PartialEq, Eq, Structural)]
pub struct Sphere {
    pub center: Vec3,
    pub radius: i128,
}

/// Origin of the ray relative to the sphere's center.
pub open spec fn sphere_oc(s: Sphere, r: Ray) -> Vec3 {
    Vec3 {
        x: (r.origin.x - s.center.x) as i128,
        y: (r.origin.y - s.center.y) as i128,
        z: (r.origin.z - s.center.z) as i128,
    }
}

/// Leading quadratic coefficient: the squared length of the direction.
pub open spec fn sphere_a(r: Ray) -> int {
    dot_i(r.direction, r.direction)
}

/// Half the linear quadratic coefficient.
pub open spec fn sphere_half_b(s: Sphere, r: Ray) -> int {
    dot_i(sphere_oc(s, r), r.direction)
}

/// Constant quadratic coefficient.
pub open spec fn sphere_c(s: Sphere, r: Ray) -> int {
    dot_i(sphere_oc(s, r), sphere_oc(s, r)) - s.radius * s.radius
}

/// Discriminant of the ray-sphere quadratic: negative exactly when the ray
/// misses the sphere entirely.
pub open spec fn sphere_disc(s: Sphere, r: Ray) -> int {
    sphere_half_b(s, r) * sphere_half_b(s, r) - sphere_a(r) * sphere_c(s, r)
}

/// The smaller root: the entry point of the ray into the sphere.
pub open spec fn sphere_root_near(s: Sphere, r: Ray) -> int {
    ((-sphere_half_b(s, r) - sqrt_i(sphere_disc(s, r))) * (SCALE as int)) / sphere_a(r)
}

/// The larger root: the exit point of the ray out of the sphere.
pub open spec fn sphere_root_far(s: Sphere, r: Ray) -> int {
    ((-sphere_half_b(s, r) + sqrt_i(sphere_disc(s, r))) * (SCALE as int)) / sphere_a(r)
}

/// The outward normal at a point on the sphere: the radius vector scaled to
/// unit length by the radius.
pub open spec fn outward_normal_i(s: Sphere, p: Vec3) -> Vec3 {
    Vec3 {
        x: (((p.x - s.center.x) * (SCALE as int)) / (s.radius as int)) as i128,
        y: (((p.y - s.center.y) * (SCALE as int)) / (s.radius as int)) as i128,
        z: (((p.z - s.center.z) * (SCALE as int)) / (s.radius as int)) as i128,
    }
}

/// The record reported for a hit at parametric distance `t`: the point, the
/// outward normal oriented against the ray, and the face flag.
pub open spec fn sphere_rec_i(s: Sphere, r: Ray, t: int) -> HitRecord {
    let p = at_i(r, t);
    let outn = outward_normal_i(s, p);
    HitRecord {
        point: p,
        normal: if dot_i(r.direction, outn) < 0 {
            outn
        } else {
            flip_i(outn)
        },
        t: t as i128,
        front_face: dot_i(r.direction, outn) < 0,
    }
}

/// The intersection a sphere reports over the open range `(tmin, tmax)`:
/// nothing on a negative discriminant, else the smaller root if it lies
/// strictly inside, else the larger root under the same test, else nothing.
pub open spec fn sphere_hit_i(s: Sphere, r: Ray, tmin: int, tmax: int) -> Option<HitRecord> {
    if sphere_disc(s, r) < 0 {
        None
    } else {
        let t1 = sphere_root_near(s, r);
        let t2 = sphere_root_far(s, r);
        if tmin < t1 && t1 < tmax {
            Some(sphere_rec_i(s, r, t1))
        } else if tmin < t2 && t2 < tmax {
            Some(sphere_rec_i(s, r, t2))
        } else {
            None
        }
    }
}

impl Sphere {
    /// Center and radius lie within the coordinate budget, and the radius
    /// is positive.
    pub open spec fn wf(self) -> bool {
        self.center.in_bounds(COORD_MAX as int) && 0 < self.radius && self.radius <= COORD_MAX
    }

    pub fn new(center: Vec3, radius: i128) -> (s: Sphere)
        ensures
            s == (Sphere { center, radius }),
    {
        Sphere { center, radius }
    }

    /// Reports the nearest intersection of `ray` with this sphere whose
    /// parametric distance lies strictly inside `ray_t`. A negative
    /// discriminant reports nothing.
    pub fn hit(&self, ray: &Ray, ray_t: Interval) -> (res: Option<HitRecord>)
        requires
            self.wf(),
            ray.wf(),
            dot_i(ray.direction, ray.direction) > 0,
            -(INF as int) <= ray_t.min,
            ray_t.max <= INF,
        ensures
            res == sphere_hit_i(*self, *ray, ray_t.min as int, ray_t.max as int),
            sphere_disc(*self, *ray) < 0 ==> res is None,
    {
        let oc = ray.origin.minus(self.center);
        proof {
            lemma_dot_bound(ray.direction, ray.direction, COORD_MAX as int, COORD_MAX as int);
            lemma_dot_bound(oc, ray.direction, 2 * COORD_MAX as int, COORD_MAX as int);
            lemma_dot_bound(oc, oc, 2 * COORD_MAX as int, 2 * COORD_MAX as int);
            lemma_mul_abs(self.radius as int, self.radius as int, COORD_MAX as int,
                COORD_MAX as int);
        }
        let a = ray.direction.dot(ray.direction);
        let half_b = oc.dot(ray.direction);
        let c = oc.dot(oc) - self.radius * self.radius;
        proof {
            lemma_mul_abs(half_b as int, half_b as int, 6000000000000000000,
                6000000000000000000);
            lemma_mul_abs(a as int, c as int, 3000000000000000000, 13000000000000000000);
        }
        let discriminant = half_b * half_b - a * c;
        if discriminant < 0 {
            None
        } else {
            let sqrtd = isqrt(discriminant);
            proof {
                assert(sqrtd <= 9000000000000000000) by (nonlinear_arith)
                    requires
                        0 <= sqrtd,
                        (sqrtd as int) * (sqrtd as int) <= discriminant as int,
                        discriminant as int <= 75000000000000000000000000000000000000,
                {
                }
            }
            let mut root = floor_div((-half_b - sqrtd) * SCALE, a);
            if !ray_t.surrounds(root) {
                root = floor_div((-half_b + sqrtd) * SCALE, a);
                if !ray_t.surrounds(root) {
                    return None;
                }
            }
            let t = root;
            let point = ray.at(t);
            let diff = point.minus(self.center);
            proof {
                lemma_normal_bounds(diff.x as int, self.radius as int);
                lemma_normal_bounds(diff.y as int, self.radius as int);
                lemma_normal_bounds(diff.z as int, self.radius as int);
            }
            let outward_normal = Vec3::new(
                floor_div(diff.x * SCALE, self.radius),
                floor_div(diff.y * SCALE, self.radius),
                floor_div(diff.z * SCALE, self.radius),
            );
            let mut rec = HitRecord { t, point, normal: Vec3::new(0, 0, 0), front_face: false };
            rec.set_face_normal(ray, outward_normal);
            Some(rec)
        }
    }
}

/// A normal component computed from a reachable point stays within `NMAX`.
proof fn lemma_normal_bounds(d: int, radius: int)
    requires
        abs_le(d, PMAX as int + COORD_MAX as int),
        0 < radius,
    ensures
        abs_le(d * (SCALE as int), (PMAX as int + COORD_MAX as int) * (SCALE as int)),
        abs_le((d * (SCALE as int)) / radius, NMAX as int),
{
    lemma_mul_abs(d, SCALE as int, PMAX as int + COORD_MAX as int, SCALE as int);
    lemma_div_abs(d * (SCALE as int), radius, (PMAX as int + COORD_MAX as int) * (SCALE as int));
}

/// Any record a well-formed sphere reports for a well-formed ray carries a
/// point, normal and distance within the renderer's numeric budgets.
pub proof fn lemma_sphere_rec_bounds(s: Sphere, r: Ray, tmin: int, tmax: int)
    requires
        s.wf(),
        r.wf(),
        -(INF as int) <= tmin,
        tmax <= INF,
    ensures
        match sphere_hit_i(s, r, tmin, tmax) {
            Some(rec) => rec.normal.in_bounds(NMAX as int) && rec.point.in_bounds(PMAX as int)
                && abs_le(rec.t as int, INF as int),
            None => true,
        },
{
    if sphere_hit_i(s, r, tmin, tmax) is Some {
        let t1 = sphere_root_near(s, r);
        let t2 = sphere_root_far(s, r);
        let t = if tmin < t1 && t1 < tmax {
            t1
        } else {
            t2
        };
        crate::ray::lemma_at_bounds(r, t);
        let p = at_i(r, t);
        lemma_normal_bounds(p.x - s.center.x, s.radius as int);
        lemma_normal_bounds(p.y - s.center.y, s.radius as int);
        lemma_normal_bounds(p.z - s.center.z, s.radius as int);
    }
}

/// For a non-degenerate ray the exit root never lies before the entry root.
pub proof fn lemma_roots_ordered(s: Sphere, r: Ray)
    requires
        sphere_a(r) > 0,
        sphere_disc(s, r) >= 0,
    ensures
        sphere_root_near(s, r) <= sphere_root_far(s, r),
{
    let hb = sphere_half_b(s, r);
    let sq = sqrt_i(sphere_disc(s, r));
    crate::num::lemma_sqrt_exists(sphere_disc(s, r));
    assert((-hb - sq) * (SCALE as int) <= (-hb + sq) * (SCALE as int)) by (nonlinear_arith)
        requires
            0 <= sq,
    {
    }
    lemma_div_is_ordered((-hb - sq) * (SCALE as int), (-hb + sq) * (SCALE as int), sphere_a(r));
}

/// Rays that miss the sphere entirely, with a negative discriminant,
/// produce no hit over any parameter range.
pub proof fn lemma_miss_is_none(s: Sphere, r: Ray, tmin: int, tmax: int)
    requires
        sphere_disc(s, r) < 0,
    ensures
        sphere_hit_i(s, r, tmin, tmax) is None,
{
}

/// A ray cast from strictly inside the sphere, over a range that admits no
/// nonpositive distance, can only strike the far root: the exit point. The
/// entry root lies at a nonpositive distance, behind or at the origin.
pub proof fn lemma_inside_hits_far_root(s: Sphere, r: Ray, tmin: int, tmax: int)
    requires
        sphere_a(r) > 0,
        sphere_c(s, r) < 0,
        0 <= tmin,
        tmax <= INF,
    ensures
        match sphere_hit_i(s, r, tmin, tmax) {
            Some(rec) => rec.t == sphere_root_far(s, r),
            None => true,
        },
{
    let hb = sphere_half_b(s, r);
    let a = sphere_a(r);
    let c = sphere_c(s, r);
    let disc = sphere_disc(s, r);
    assert(disc > hb * hb) by (nonlinear_arith)
        requires
            a > 0,
            c < 0,
            disc == hb * hb - a * c,
    {
    }
    assert(hb * hb >= 0) by (nonlinear_arith)
    {
    }
    crate::num::lemma_sqrt_exists(disc);
    let sq = sqrt_i(disc);
    assert(-hb - sq <= 0) by (nonlinear_arith)
        requires
            0 <= sq,
            hb * hb < disc,
            disc < (sq + 1) * (sq + 1),
    {
    }
    assert((-hb - sq) * (SCALE as int) <= 0) by (nonlinear_arith)
        requires
            -hb - sq <= 0,
    {
    }
    lemma_div_is_ordered((-hb - sq) * (SCALE as int), 0, a);
    lemma_div_of0(a);
}

/// Narrowing the upper bound keeps exactly the sphere hits that beat it.
pub proof fn lemma_sphere_hit_narrow(s: Sphere, r: Ray, tmin: int, m1: int, m2: int)
    requires
        m2 <= m1,
        -(INF as int) <= tmin,
        m1 <= INF,
        sphere_a(r) > 0,
    ensures
        sphere_hit_i(s, r, tmin, m2) == (match sphere_hit_i(s, r, tmin, m1) {
            Some(rec) => if rec.t < m2 {
                Some(rec)
            } else {
                None
            },
            None => None::<HitRecord>,
        }),
{
    if sphere_disc(s, r) >= 0 {
        lemma_roots_ordered(s, r);
    }
}

} // verus!
