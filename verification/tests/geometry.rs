use raytrace::hittable::group::HittableGroup;
use raytrace::hittable::sphere::Sphere;
use raytrace::hittable::Hittable;
use raytrace::interval::{interval, Interval};
use raytrace::num::{INF, SCALE};
use raytrace::ray::ray;
use raytrace::vec3::vec3;

// One world unit is SCALE fixed-point steps.
const S: i128 = SCALE;

#[test]
fn surrounds_is_strict_and_excludes_endpoints() {
    let i = Interval::new(2 * S, 5 * S);
    assert!(!i.surrounds(2 * S));
    assert!(!i.surrounds(5 * S));
    assert!(i.surrounds(2 * S + 1));
    assert!(i.surrounds(3 * S));
    assert!(i.surrounds(5 * S - 1));
    assert!(!i.surrounds(S));
    assert!(!i.surrounds(6 * S));
}

#[test]
fn contains_includes_endpoints() {
    let i = interval(-S, S);
    assert!(i.contains(-S));
    assert!(i.contains(S));
    assert!(i.contains(0));
    assert!(!i.contains(-S - 1));
    assert!(!i.contains(S + 1));
}

#[test]
fn empty_interval_contains_nothing() {
    let e = Interval::empty();
    assert!(!e.contains(0));
    assert!(!e.surrounds(0));
    let u = Interval::universe();
    assert!(u.contains(0));
    assert!(u.surrounds(12345));
}

#[test]
fn clamp_pins_to_bounds() {
    let i = interval(0, 99900);
    assert_eq!(i.clamp(-5), 0);
    assert_eq!(i.clamp(123456), 99900);
    assert_eq!(i.clamp(40000), 40000);
}

#[test]
fn ray_missing_sphere_reports_nothing() {
    // sphere half a unit behind the camera plane; ray goes straight up
    let s = Sphere::new(vec3(0, 0, -S), S / 2);
    let r = ray(vec3(0, 0, 0), vec3(0, S, 0));
    assert!(s.hit(&r, interval(0, INF)).is_none());
}

#[test]
fn ray_at_center_hits_at_distance_minus_radius() {
    // origin two units from the center, unit direction at it: t = 2 - 1 = 1
    let s = Sphere::new(vec3(0, 0, -2 * S), S);
    let r = ray(vec3(0, 0, 0), vec3(0, 0, -S));
    let rec = s.hit(&r, interval(0, INF)).expect("must hit");
    assert_eq!(rec.t, S);
    assert!(rec.front_face);
    assert_eq!(rec.normal.x, 0);
    assert_eq!(rec.normal.y, 0);
    assert_eq!(rec.normal.z, S);
    assert_eq!(rec.point.z, -S);
}

#[test]
fn ray_from_inside_reports_back_face_with_inward_normal() {
    // origin at the sphere's center: the hit is the exit point
    let s = Sphere::new(vec3(0, 0, -S), S / 2);
    let r = ray(vec3(0, 0, -S), vec3(0, 0, -S));
    let rec = s.hit(&r, interval(0, INF)).expect("must hit");
    assert_eq!(rec.t, S / 2);
    assert!(!rec.front_face);
    // outward normal points along -z there; the stored normal is negated
    assert_eq!(rec.normal.z, S);
}

#[test]
fn group_reports_minimum_t_among_members() {
    let mut world = HittableGroup::new();
    world.add(Hittable::Sphere(Sphere::new(vec3(0, 0, -4 * S), S / 2)));
    world.add(Hittable::Sphere(Sphere::new(vec3(0, 0, -2 * S), S / 2)));
    let r = ray(vec3(0, 0, 0), vec3(0, 0, -S));
    let rec = world.hit(&r, interval(0, INF)).expect("must hit");
    // nearer sphere wins: t = 2 - 0.5
    assert_eq!(rec.t, 3 * S / 2);
}

#[test]
fn group_order_does_not_change_closest_hit() {
    let mut a = HittableGroup::new();
    a.add(Hittable::Sphere(Sphere::new(vec3(0, 0, -2 * S), S / 2)));
    a.add(Hittable::Sphere(Sphere::new(vec3(0, 0, -4 * S), S / 2)));
    let mut b = HittableGroup::new();
    b.add(Hittable::Sphere(Sphere::new(vec3(0, 0, -4 * S), S / 2)));
    b.add(Hittable::Sphere(Sphere::new(vec3(0, 0, -2 * S), S / 2)));
    let r = ray(vec3(0, 0, 0), vec3(0, 0, -S));
    let ra = a.hit(&r, interval(0, INF)).expect("must hit");
    let rb = b.hit(&r, interval(0, INF)).expect("must hit");
    assert_eq!(ra.t, rb.t);
    assert_eq!(ra.t, 3 * S / 2);
}

#[test]
fn adding_missing_object_keeps_result() {
    let r = ray(vec3(0, 0, 0), vec3(0, 0, -S));
    let mut world = HittableGroup::new();
    world.add(Hittable::Sphere(Sphere::new(vec3(0, 0, -2 * S), S / 2)));
    let before = world.hit(&r, interval(0, INF)).expect("must hit");
    // far off to the side: the ray misses it entirely
    world.add(Hittable::Sphere(Sphere::new(vec3(5 * S, 0, 0), S / 2)));
    let after = world.hit(&r, interval(0, INF)).expect("must hit");
    assert_eq!(before.t, after.t);
    assert_eq!(before.point.z, after.point.z);
}

#[test]
fn adding_closer_object_lowers_t() {
    let r = ray(vec3(0, 0, 0), vec3(0, 0, -S));
    let mut world = HittableGroup::new();
    world.add(Hittable::Sphere(Sphere::new(vec3(0, 0, -4 * S), S / 2)));
    let far = world.hit(&r, interval(0, INF)).expect("must hit");
    assert_eq!(far.t, 7 * S / 2);
    world.add(Hittable::Sphere(Sphere::new(vec3(0, 0, -2 * S), S / 2)));
    let near = world.hit(&r, interval(0, INF)).expect("must hit");
    assert_eq!(near.t, 3 * S / 2);
}

#[test]
fn empty_group_reports_nothing_and_clear_empties() {
    let r = ray(vec3(0, 0, 0), vec3(0, 0, -S));
    let mut world = HittableGroup::new();
    assert!(world.hit(&r, interval(0, INF)).is_none());
    world.add(Hittable::Sphere(Sphere::new(vec3(0, 0, -2 * S), S / 2)));
    assert!(world.hit(&r, interval(0, INF)).is_some());
    world.clear();
    assert!(world.hit(&r, interval(0, INF)).is_none());
}

#[test]
fn groups_nest() {
    let mut inner = HittableGroup::new();
    inner.add(Hittable::Sphere(Sphere::new(vec3(0, 0, -2 * S), S / 2)));
    let mut world = HittableGroup::new();
    world.add(Hittable::Group(inner));
    world.add(Hittable::Sphere(Sphere::new(vec3(0, 0, -4 * S), S / 2)));
    let r = ray(vec3(0, 0, 0), vec3(0, 0, -S));
    let rec = world.hit(&r, interval(0, INF)).expect("must hit");
    assert_eq!(rec.t, 3 * S / 2);
}

#[test]
fn narrowed_interval_rejects_far_hit() {
    let s = Sphere::new(vec3(0, 0, -2 * S), S / 2);
    let r = ray(vec3(0, 0, 0), vec3(0, 0, -S));
    // hit at t = 1.5 lies outside (0, 1)
    assert!(s.hit(&r, interval(0, S)).is_none());
    assert!(s.hit(&r, interval(0, 2 * S)).is_some());
}
