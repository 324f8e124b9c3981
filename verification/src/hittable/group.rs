use crate::hittable::{
    group_hit_i, h_wf, hit_i, lemma_group_in_interval, lemma_hit_in_interval, lemma_hit_narrow,
    HitRecord, Hittable,
};
use crate::interval::Interval;
use crate::num::INF;
use crate::ray::Ray;
use crate::vec3::dot_i;
use vstd::prelude::*;

verus! {

broadcast use vstd::std_specs::vec::group_vec_axioms, vstd::seq::group_seq_axioms;

/// An aggregate of hittable geometry: queried members answer with their
/// nearest hit, and the group reports the closest one overall.
pub struct HittableGroup {
    pub objects: Vec<Hittable>,
}

impl HittableGroup {
    /// Every member lies within the coordinate budget.
    pub open spec fn wf(self) -> bool {
        forall|i: int| 0 <= i < self.objects@.len() ==> h_wf(#[trigger] self.objects@[i])
    }

    pub fn new() -> (g: HittableGroup)
        ensures
            g.objects@.len() == 0,
    {
        HittableGroup { objects: Vec::new() }
    }

    pub fn clear(&mut self)
        ensures
            final(self).objects@.len() == 0,
    {
        self.objects.clear()
    }

    pub fn add(&mut self, object: Hittable)
        ensures
            final(self).objects@ == old(self).objects@.push(object),
    {
        self.objects.push(object)
    }

    /// Scans the members, narrowing the upper parameter bound to the best
    /// `t` seen so far, and reports the closest hit strictly inside `ray_t`.
    #[verifier::loop_isolation(false)]
    pub fn hit(&self, ray: &Ray, ray_t: Interval) -> (res: Option<HitRecord>)
        requires
            self.wf(),
            ray.wf(),
            dot_i(ray.direction, ray.direction) > 0,
            -(INF as int) <= ray_t.min,
            ray_t.max <= INF,
        ensures
            res == group_hit_i(self.objects@, *ray, ray_t.min as int, ray_t.max as int),
        decreases *self,
    {
        let ghost tmin = ray_t.min as int;
        let ghost tmax = ray_t.max as int;
        let mut closest_hit: Option<HitRecord> = None;
        let mut closest_so_far: i128 = ray_t.max;
        let n = self.objects.len();
        let mut i: usize = 0;
        while i < n
            invariant
                i <= n,
                closest_hit == group_hit_i(self.objects@.subrange(0, i as int), *ray, tmin, tmax),
                closest_so_far as int == (match closest_hit {
                    Some(rec) => rec.t as int,
                    None => tmax,
                }),
                closest_so_far <= ray_t.max,
            decreases n - i,
        {
            let obj = &self.objects[i];
            let res = obj.hit(ray, Interval::new(ray_t.min, closest_so_far));
            proof {
                assert(self.objects@.subrange(0, (i + 1) as int).drop_last() =~= self.objects@
                    .subrange(0, i as int));
                assert(self.objects@.subrange(0, (i + 1) as int).last() == self.objects@[
                    i as int]);
                lemma_hit_in_interval(self.objects@[i as int], *ray, tmin, closest_so_far as int);
            }
            match res {
                Some(rec) => {
                    closest_hit = Some(rec);
                    closest_so_far = rec.t;
                },
                None => {},
            }
            i = i + 1;
        }
        proof {
            assert(self.objects@.subrange(0, n as int) =~= self.objects@);
        }
        closest_hit
    }
}

/// The closest-hit fold really reports the minimum: when it answers, its
/// record is the full-interval hit of some member and its `t` is no larger
/// than any member's; when it answers nothing, no member hits at all.
pub proof fn lemma_group_hit_is_min(objs: Seq<Hittable>, r: Ray, tmin: int, tmax: int)
    requires
        -(INF as int) <= tmin,
        tmax <= INF,
        dot_i(r.direction, r.direction) > 0,
    ensures
        match group_hit_i(objs, r, tmin, tmax) {
            Some(rec) => (exists|i: int|
                0 <= i < objs.len() && hit_i(#[trigger] objs[i], r, tmin, tmax) == Some(rec))
                && (forall|i: int|
                0 <= i < objs.len() ==> (hit_i(#[trigger] objs[i], r, tmin, tmax) matches Some(
                    rec2,
                ) ==> rec.t <= rec2.t)),
            None => forall|i: int|
                0 <= i < objs.len() ==> hit_i(#[trigger] objs[i], r, tmin, tmax) is None,
        },
    decreases objs,
{
    if objs.len() > 0 {
        let rest = objs.drop_last();
        let last = objs.last();
        lemma_group_hit_is_min(rest, r, tmin, tmax);
        let prev = group_hit_i(rest, r, tmin, tmax);
        let bound = match prev {
            Some(p) => p.t as int,
            None => tmax,
        };
        lemma_group_in_interval(rest, r, tmin, tmax);
        lemma_hit_narrow(last, r, tmin, tmax, bound);
        lemma_hit_in_interval(last, r, tmin, bound);
        lemma_hit_in_interval(last, r, tmin, tmax);
        assert(forall|i: int| 0 <= i < rest.len() ==> rest[i] == objs[i]);
        assert(last == objs[objs.len() - 1]);
    }
}

/// Adding a member that does not intersect never changes the group's answer.
pub proof fn lemma_group_add_miss(objs: Seq<Hittable>, h: Hittable, r: Ray, tmin: int, tmax: int)
    requires
        -(INF as int) <= tmin,
        tmax <= INF,
        dot_i(r.direction, r.direction) > 0,
        hit_i(h, r, tmin, tmax) is None,
    ensures
        group_hit_i(objs.push(h), r, tmin, tmax) == group_hit_i(objs, r, tmin, tmax),
{
    assert(objs.push(h).drop_last() =~= objs);
    assert(objs.push(h).last() == h);
    let prev = group_hit_i(objs, r, tmin, tmax);
    let bound = match prev {
        Some(p) => p.t as int,
        None => tmax,
    };
    lemma_group_in_interval(objs, r, tmin, tmax);
    lemma_hit_narrow(h, r, tmin, tmax, bound);
}

/// Adding a member that hits strictly closer than the group's current
/// answer always makes its hit the new answer.
pub proof fn lemma_group_add_closer(
    objs: Seq<Hittable>,
    h: Hittable,
    r: Ray,
    tmin: int,
    tmax: int,
    rec: HitRecord,
)
    requires
        -(INF as int) <= tmin,
        tmax <= INF,
        dot_i(r.direction, r.direction) > 0,
        hit_i(h, r, tmin, tmax) == Some(rec),
        match group_hit_i(objs, r, tmin, tmax) {
            Some(p) => rec.t < p.t,
            None => true,
        },
    ensures
        group_hit_i(objs.push(h), r, tmin, tmax) == Some(rec),
{
    assert(objs.push(h).drop_last() =~= objs);
    assert(objs.push(h).last() == h);
    let prev = group_hit_i(objs, r, tmin, tmax);
    let bound = match prev {
        Some(p) => p.t as int,
        None => tmax,
    };
    lemma_group_in_interval(objs, r, tmin, tmax);
    lemma_hit_in_interval(h, r, tmin, tmax);
    lemma_hit_narrow(h, r, tmin, tmax, bound);
}

} // verus!
