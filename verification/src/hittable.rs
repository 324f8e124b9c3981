pub mod group;
pub mod sphere;

use crate::hittable::group::HittableGroup;
use crate::hittable::sphere::Sphere;
use crate::num::{abs_le, COORD_MAX, INF, NMAX, PMAX};
use crate::ray::Ray;
use crate::vec3::{dot_i, lemma_dot_bound, Vec3};
use vstd::prelude::*;

verus! {

broadcast use vstd::std_specs::vec::group_vec_axioms, vstd::seq::group_seq_axioms;

/// The result of a successful intersection: the hit point, the unit surface
/// normal oriented against the incoming ray, the parametric distance `t`,
/// and whether the outward face was struck.
#[derive(Clone, Copy, Debug, PartialEq, Eq, Structural)]
pub struct HitRecord {
    pub point: Vec3,
    pub normal: Vec3,
    pub t: i128,
    pub front_face: bool,
}

/// A vector with every component negated.
pub open spec fn flip_i(v: Vec3) -> Vec3 {
    Vec3 { x: (-v.x) as i128, y: (-v.y) as i128, z: (-v.z) as i128 }
}

impl HitRecord {
    /// Orients `outward_normal` against the incoming ray: the front face is
    /// struck exactly when the ray runs against the outward normal, and the
    /// stored normal is negated on a back-face hit.
    pub fn set_face_normal(&mut self, ray: &Ray, outward_normal: Vec3)
        requires
            ray.wf(),
            outward_normal.in_bounds(NMAX as int),
        ensures
            final(self).front_face == (dot_i(ray.direction, outward_normal) < 0),
            final(self).normal == (if dot_i(ray.direction, outward_normal) < 0 {
                outward_normal
            } else {
                flip_i(outward_normal)
            }),
            final(self).point == old(self).point,
            final(self).t == old(self).t,
    {
        proof {
            lemma_dot_bound(ray.direction, outward_normal, COORD_MAX as int, NMAX as int);
        }
        self.front_face = ray.direction.dot(outward_normal) < 0;
        self.normal = if self.front_face {
            outward_normal
        } else {
            outward_normal.negate()
        };
    }
}

/// A closed set of geometry that can be tested for ray intersection: a
/// sphere, or a group aggregating further geometry (groups may nest).
pub enum Hittable {
    Sphere(Sphere),
    Group(HittableGroup),
}

/// Every primitive reachable from `h` lies within the coordinate budget.
pub open spec fn h_wf(h: Hittable) -> bool
    decreases h,
{
    match h {
        Hittable::Sphere(s) => s.wf(),
        Hittable::Group(g) => forall|i: int|
            0 <= i < g.objects@.len() ==> h_wf(#[trigger] g.objects@[i]),
    }
}

/// The intersection reported by `h` for a ray over the open parameter range
/// `(tmin, tmax)`, as a mathematical function.
pub open spec fn hit_i(h: Hittable, r: Ray, tmin: int, tmax: int) -> Option<HitRecord>
    decreases h,
{
    match h {
        Hittable::Sphere(s) => crate::hittable::sphere::sphere_hit_i(s, r, tmin, tmax),
        Hittable::Group(g) => group_hit_i(g.objects@, r, tmin, tmax),
    }
}

/// The closest-hit fold over a sequence of members, scanned left to right:
/// each member is queried with the upper bound narrowed to the best `t`
/// seen so far, so only strictly closer hits replace the result.
pub open spec fn group_hit_i(objs: Seq<Hittable>, r: Ray, tmin: int, tmax: int) -> Option<
    HitRecord,
>
    decreases objs,
{
    if objs.len() == 0 {
        None
    } else {
        let prev = group_hit_i(objs.drop_last(), r, tmin, tmax);
        let bound = match prev {
            Some(rec) => rec.t as int,
            None => tmax,
        };
        match hit_i(objs.last(), r, tmin, bound) {
            Some(rec) => Some(rec),
            None => prev,
        }
    }
}

impl Hittable {
    /// Reports the nearest intersection whose parametric distance lies
    /// strictly inside `ray_t`, or nothing if no member intersects there.
    pub fn hit(&self, ray: &Ray, ray_t: crate::interval::Interval) -> (res: Option<HitRecord>)
        requires
            h_wf(*self),
            ray.wf(),
            dot_i(ray.direction, ray.direction) > 0,
            -(INF as int) <= ray_t.min,
            ray_t.max <= INF,
        ensures
            res == hit_i(*self, *ray, ray_t.min as int, ray_t.max as int),
        decreases *self,
    {
        match self {
            Hittable::Sphere(s) => s.hit(ray, ray_t),
            Hittable::Group(g) => g.hit(ray, ray_t),
        }
    }
}

/// Any reported hit lies strictly inside the queried parameter range.
pub proof fn lemma_hit_in_interval(h: Hittable, r: Ray, tmin: int, tmax: int)
    requires
        -(INF as int) <= tmin,
        tmax <= INF,
    ensures
        match hit_i(h, r, tmin, tmax) {
            Some(rec) => tmin < rec.t < tmax,
            None => true,
        },
    decreases h,
{
    match h {
        Hittable::Sphere(s) => {}
        Hittable::Group(g) => {
            lemma_group_in_interval(g.objects@, r, tmin, tmax);
        }
    }
}

/// Any hit reported by the closest-hit fold lies strictly inside the
/// queried parameter range.
pub proof fn lemma_group_in_interval(objs: Seq<Hittable>, r: Ray, tmin: int, tmax: int)
    requires
        -(INF as int) <= tmin,
        tmax <= INF,
    ensures
        match group_hit_i(objs, r, tmin, tmax) {
            Some(rec) => tmin < rec.t < tmax,
            None => true,
        },
    decreases objs,
{
    if objs.len() > 0 {
        lemma_group_in_interval(objs.drop_last(), r, tmin, tmax);
        let prev = group_hit_i(objs.drop_last(), r, tmin, tmax);
        let bound = match prev {
            Some(rec) => rec.t as int,
            None => tmax,
        };
        lemma_hit_in_interval(objs.last(), r, tmin, bound);
    }
}

/// Any record well-formed geometry reports for a well-formed ray carries a
/// point, normal and distance within the renderer's numeric budgets.
pub proof fn lemma_hit_bounds(h: Hittable, r: Ray, tmin: int, tmax: int)
    requires
        h_wf(h),
        r.wf(),
        -(INF as int) <= tmin,
        tmax <= INF,
    ensures
        match hit_i(h, r, tmin, tmax) {
            Some(rec) => rec.normal.in_bounds(NMAX as int) && rec.point.in_bounds(PMAX as int)
                && abs_le(rec.t as int, INF as int),
            None => true,
        },
    decreases h,
{
    match h {
        Hittable::Sphere(s) => {
            crate::hittable::sphere::lemma_sphere_rec_bounds(s, r, tmin, tmax);
        }
        Hittable::Group(g) => {
            lemma_group_hit_bounds(g.objects@, r, tmin, tmax);
        }
    }
}

/// The bounds of `lemma_hit_bounds`, for the closest-hit fold.
pub proof fn lemma_group_hit_bounds(objs: Seq<Hittable>, r: Ray, tmin: int, tmax: int)
    requires
        forall|i: int| 0 <= i < objs.len() ==> h_wf(#[trigger] objs[i]),
        r.wf(),
        -(INF as int) <= tmin,
        tmax <= INF,
    ensures
        match group_hit_i(objs, r, tmin, tmax) {
            Some(rec) => rec.normal.in_bounds(NMAX as int) && rec.point.in_bounds(PMAX as int)
                && abs_le(rec.t as int, INF as int),
            None => true,
        },
    decreases objs,
{
    if objs.len() > 0 {
        lemma_group_hit_bounds(objs.drop_last(), r, tmin, tmax);
        lemma_group_in_interval(objs.drop_last(), r, tmin, tmax);
        let prev = group_hit_i(objs.drop_last(), r, tmin, tmax);
        let bound = match prev {
            Some(rec) => rec.t as int,
            None => tmax,
        };
        lemma_hit_bounds(objs.last(), r, tmin, bound);
    }
}

/// Narrowing the upper bound keeps exactly the hits that beat it: querying
/// over `(tmin, m2)` with `m2 <= m1` returns the `(tmin, m1)` result when
/// its `t` lies below `m2`, and nothing otherwise.
pub proof fn lemma_hit_narrow(h: Hittable, r: Ray, tmin: int, m1: int, m2: int)
    requires
        m2 <= m1,
        -(INF as int) <= tmin,
        m1 <= INF,
        dot_i(r.direction, r.direction) > 0,
    ensures
        hit_i(h, r, tmin, m2) == (match hit_i(h, r, tmin, m1) {
            Some(rec) => if rec.t < m2 {
                Some(rec)
            } else {
                None
            },
            None => None::<HitRecord>,
        }),
    decreases h,
{
    match h {
        Hittable::Sphere(s) => {
            crate::hittable::sphere::lemma_sphere_hit_narrow(s, r, tmin, m1, m2);
        }
        Hittable::Group(g) => {
            lemma_group_hit_narrow(g.objects@, r, tmin, m1, m2);
        }
    }
}

/// The narrowing property of `lemma_hit_narrow`, for the closest-hit fold.
pub proof fn lemma_group_hit_narrow(objs: Seq<Hittable>, r: Ray, tmin: int, m1: int, m2: int)
    requires
        m2 <= m1,
        -(INF as int) <= tmin,
        m1 <= INF,
        dot_i(r.direction, r.direction) > 0,
    ensures
        group_hit_i(objs, r, tmin, m2) == (match group_hit_i(objs, r, tmin, m1) {
            Some(rec) => if rec.t < m2 {
                Some(rec)
            } else {
                None
            },
            None => None::<HitRecord>,
        }),
    decreases objs,
{
    if objs.len() > 0 {
        let rest = objs.drop_last();
        let last = objs.last();
        lemma_group_hit_narrow(rest, r, tmin, m1, m2);
        let prev1 = group_hit_i(rest, r, tmin, m1);
        let prev2 = group_hit_i(rest, r, tmin, m2);
        lemma_group_in_interval(rest, r, tmin, m1);
        lemma_group_in_interval(rest, r, tmin, m2);
        match prev1 {
            Some(p) => {
                if p.t < m2 {
                    // both folds carry the same best-so-far bound
                    lemma_hit_in_interval(last, r, tmin, p.t as int);
                } else {
                    // the narrow fold has no best yet; its bound m2 is the
                    // tighter one
                    lemma_hit_narrow(last, r, tmin, p.t as int, m2);
                    lemma_hit_in_interval(last, r, tmin, m2);
                }
            }
            None => {
                lemma_hit_narrow(last, r, tmin, m1, m2);
                lemma_hit_in_interval(last, r, tmin, m2);
            }
        }
    }
}

} // verus!
