use raytrace::camera::{vec_to_color, Camera};
use raytrace::hittable::group::HittableGroup;
use raytrace::hittable::sphere::Sphere;
use raytrace::hittable::Hittable;
use raytrace::num::SCALE;
use raytrace::ray::ray;
use raytrace::sampler::Sampler;
use raytrace::vec3::vec3;

const S: i128 = SCALE;

fn demo_scene() -> Hittable {
    let mut world = HittableGroup::new();
    world.add(Hittable::Sphere(Sphere::new(vec3(0, 0, -S), S / 2)));
    world.add(Hittable::Sphere(Sphere::new(vec3(0, -100 * S - S / 2, -S), 100 * S)));
    Hittable::Group(world)
}

#[test]
fn sky_ray_yields_sky_blue() {
    let world = demo_scene();
    let cam = Camera::new(256, 256, 1);
    let up = ray(vec3(0, 0, 0), vec3(0, S, 0));
    let c = cam.ray_color(&world, &up);
    assert_eq!(c.x, S / 2);
    assert_eq!(c.y, 70000);
    assert_eq!(c.z, S);
    let rgb = vec_to_color(c, 1);
    assert_eq!(rgb.0, 128);
    assert_eq!(rgb.1, 179);
    assert_eq!(rgb.2, 255);
}

#[test]
fn center_pixel_hits_small_sphere() {
    let world = demo_scene();
    let cam = Camera::new(256, 256, 1);
    let mut sampler = Sampler::new(7);
    let r = cam.get_ray(128, 128, &mut sampler);
    // a single sample per pixel draws no jitter
    assert_eq!(sampler.state, 7);
    let rec = match &world {
        Hittable::Group(g) => g
            .hit(&r, raytrace::interval::interval(0, raytrace::num::INF))
            .expect("center ray must hit"),
        _ => unreachable!(),
    };
    // the small sphere sits half a world unit before the camera
    assert!(rec.t > 49000 && rec.t < 51000, "t was {}", rec.t);
    assert!(rec.front_face);
    // normal points back toward the camera
    assert!(rec.normal.z > 99000);
    let c = cam.ray_color(&world, &r);
    let rgb = vec_to_color(c, 1);
    assert!(rgb.0 >= 126 && rgb.0 <= 130, "r was {}", rgb.0);
    assert!(rgb.1 >= 124 && rgb.1 <= 130, "g was {}", rgb.1);
    assert_eq!(rgb.2, 255);
}

#[test]
fn vec_to_color_scales_and_clamps() {
    let rgb = vec_to_color(vec3(50000, 70000, 200000), 1);
    assert_eq!(rgb.0, 128);
    assert_eq!(rgb.1, 179);
    assert_eq!(rgb.2, 255);
    // averaging over two samples halves each channel first
    let rgb2 = vec_to_color(vec3(50000, 70000, 200000), 2);
    assert_eq!(rgb2.0, 64);
    assert_eq!(rgb2.1, 89);
    assert_eq!(rgb2.2, 255);
    // negative accumulations clamp to black
    let rgb3 = vec_to_color(vec3(-5, -50000, 0), 1);
    assert_eq!(rgb3.0, 0);
    assert_eq!(rgb3.1, 0);
    assert_eq!(rgb3.2, 0);
}

#[test]
fn sampler_is_deterministic_per_seed() {
    let mut a = Sampler::new(42);
    let mut b = Sampler::new(42);
    for _ in 0..16 {
        let x = a.next_unit();
        let y = b.next_unit();
        assert_eq!(x, y);
        assert!((0..S).contains(&x));
    }
}

#[test]
fn render_row_packs_three_bytes_per_pixel() {
    let world = demo_scene();
    let cam = Camera::new(16, 8, 2);
    let mut sampler = Sampler::new(1);
    let row = cam.render_row(&world, 0, &mut sampler);
    assert_eq!(row.len(), 48);
}

#[test]
fn render_fills_whole_buffer_row_major() {
    let world = demo_scene();
    let cam = Camera::new(8, 8, 1);
    let mut sampler = Sampler::new(5);
    let img = cam.render(&world, &mut sampler);
    assert_eq!(img.len(), 8 * 8 * 3);
    // the first row equals a fresh render of row zero
    let mut s2 = Sampler::new(5);
    let row0 = cam.render_row(&world, 0, &mut s2);
    assert_eq!(&img[..24], &row0[..]);
    // top-left pixel sees sky, bottom rows the ground sphere
    assert_eq!(img[2], 255);
}

#[test]
fn seeded_renders_are_byte_identical() {
    let world = demo_scene();
    let cam = Camera::new(8, 8, 3);
    let mut s1 = Sampler::new(42);
    let img1 = cam.render(&world, &mut s1);
    let mut s2 = Sampler::new(42);
    let img2 = cam.render(&world, &mut s2);
    assert_eq!(img1, img2);
    assert_eq!(img1.len(), 8 * 8 * 3);
    assert_eq!(s1.state, s2.state);
}
