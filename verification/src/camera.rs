use crate::hittable::{h_wf, hit_i, lemma_hit_bounds, Hittable};
use crate::interval::interval;
use crate::num::{
    abs_le, floor_div, isqrt, lemma_div_abs, lemma_div_abs_scaled, lemma_mul_abs, sqrt_i,
    COORD_MAX, HALF, INF, NMAX, SCALE,
};
use crate::ray::{ray, Ray};
use crate::sampler::{lcg_next, unit_of, Sampler};
use crate::vec3::{dot_i, fx_mul, vec3, Vec3, BIG};
use vstd::arithmetic::div_mod::{
    lemma_div_is_ordered, lemma_div_of0, lemma_fundamental_div_mod,
};
use vstd::prelude::*;

verus! {

broadcast use vstd::std_specs::vec::group_vec_axioms, vstd::seq::group_seq_axioms;

/// Bound on one color component of a single sample.
pub const CSAMP: i128 = 2000000000000000000000000000;

/// Largest accepted image side.
pub const SIDE_MAX: u32 = 4096;

/// Largest accepted sample count per pixel.
pub const SPP_MAX: u32 = 10000;

/// Aspect ratio of the image, as a fixed-point value.
pub open spec fn aspect_i(w: int, h: int) -> int {
    ((SCALE as int) * w) / h
}

/// Fixed-point viewport width: the fixed viewport height of two world units
/// scaled by the aspect ratio.
pub open spec fn vw_i(w: int, h: int) -> int {
    ((2 * SCALE as int) * aspect_i(w, h)) / (SCALE as int)
}

/// Per-pixel step across the viewport, left to right.
pub open spec fn du_i(w: int, h: int) -> Vec3 {
    Vec3 { x: (vw_i(w, h) / w) as i128, y: 0, z: 0 }
}

/// Per-pixel step down the viewport; negative because image rows grow
/// downward.
pub open spec fn dv_i(h: int) -> Vec3 {
    Vec3 { x: 0, y: ((-(2 * SCALE as int)) / h) as i128, z: 0 }
}

/// Center of the top-left pixel: the upper-left viewport corner plus half a
/// pixel step each way. The camera sits at the origin, one focal unit
/// before the viewport plane.
pub open spec fn p00_i(w: int, h: int) -> Vec3 {
    let vw = vw_i(w, h);
    let du = du_i(w, h);
    let dv = dv_i(h);
    Vec3 {
        x: (0 - (vw / 2) - (0int / 2) + fx_mul(HALF as int, du.x + dv.x)) as i128,
        y: (0 - (0int / 2) - ((-(2 * SCALE as int)) / 2) + fx_mul(HALF as int, du.y + dv.y)) as i128,
        z: (-(SCALE as int) + fx_mul(HALF as int, du.z + dv.z)) as i128,
    }
}

/// Owns the viewport geometry derived once from the image dimensions, and
/// drives sampling and shading. It holds no hidden state: the sample source
/// is threaded through rendering explicitly.
pub struct Camera {
    pub image_width: u32,
    pub image_height: u32,
    pub samples_per_pixel: u32,
    pub camera_center: Vec3,
    pub pixel_delta_u: Vec3,
    pub pixel_delta_v: Vec3,
    pub pixel00_loc: Vec3,
}

impl Camera {
    /// Dimensions are within budget and the precomputed viewport basis is
    /// exactly the one derived from them.
    pub open spec fn wf(self) -> bool {
        &&& 1 <= self.image_width <= SIDE_MAX
        &&& 1 <= self.image_height <= SIDE_MAX
        &&& 1 <= self.samples_per_pixel <= SPP_MAX
        &&& self.camera_center == (Vec3 { x: 0, y: 0, z: 0 })
        &&& self.pixel_delta_u == du_i(self.image_width as int, self.image_height as int)
        &&& self.pixel_delta_v == dv_i(self.image_height as int)
        &&& self.pixel00_loc == p00_i(self.image_width as int, self.image_height as int)
    }

    /// Derives the viewport basis from the image dimensions, once.
    pub fn new(image_width: u32, image_height: u32, samples_per_pixel: u32) -> (cam: Camera)
        requires
            1 <= image_width <= SIDE_MAX,
            1 <= image_height <= SIDE_MAX,
            1 <= samples_per_pixel <= SPP_MAX,
        ensures
            cam.wf(),
            cam.image_width == image_width,
            cam.image_height == image_height,
            cam.samples_per_pixel == samples_per_pixel,
    {
        let w = image_width as i128;
        let h = image_height as i128;
        let aspect_ratio = floor_div(SCALE * w, h);
        proof {
            lemma_div_of0(h as int);
            lemma_div_is_ordered(0, (SCALE as int) * w, h as int);
            lemma_div_abs((SCALE as int) * w, h as int, 409600000);
        }
        let viewport_height: i128 = 2 * SCALE;
        let viewport_width = floor_div(viewport_height * aspect_ratio, SCALE);
        proof {
            lemma_div_of0(SCALE as int);
            lemma_div_is_ordered(0, (viewport_height as int) * aspect_ratio, SCALE as int);
            lemma_div_abs_scaled((viewport_height as int) * aspect_ratio, SCALE as int,
                81920000000000);
        }
        proof {
            lemma_viewport_bounds(image_width as int, image_height as int);
        }
        let camera_center = vec3(0, 0, 0);
        let viewport_u = vec3(viewport_width, 0, 0);
        let viewport_v = vec3(0, -viewport_height, 0);
        let pixel_delta_u = viewport_u.div_int(w);
        let pixel_delta_v = viewport_v.div_int(h);
        let viewport_upper_left = camera_center.minus(vec3(0, 0, SCALE)).minus(
            viewport_u.div_int(2),
        ).minus(viewport_v.div_int(2));
        let pixel00_loc = viewport_upper_left.plus(
            pixel_delta_u.plus(pixel_delta_v).scale_fx(HALF),
        );
        Camera {
            image_width,
            image_height,
            samples_per_pixel,
            camera_center,
            pixel_delta_u,
            pixel_delta_v,
            pixel00_loc,
        }
    }
}

/// The viewport quantities stay within the coordinate budget, and the
/// horizontal pixel step times any pixel index stays within the viewport.
proof fn lemma_viewport_bounds(w: int, h: int)
    requires
        1 <= w <= SIDE_MAX,
        1 <= h <= SIDE_MAX,
    ensures
        0 <= aspect_i(w, h) <= 409600000,
        0 <= vw_i(w, h) <= 820000000,
        0 <= du_i(w, h).x <= vw_i(w, h),
        du_i(w, h).x * w <= vw_i(w, h),
        -(2 * SCALE as int) <= dv_i(h).y <= 0,
        h * dv_i(h).y >= -(2 * SCALE as int) - h,
{
    let a = aspect_i(w, h);
    lemma_div_of0(h);
    lemma_div_is_ordered(0, (SCALE as int) * w, h);
    lemma_div_abs((SCALE as int) * w, h, 409600000);
    let vw = vw_i(w, h);
    lemma_div_of0(SCALE as int);
    lemma_div_is_ordered(0, (2 * SCALE as int) * a, SCALE as int);
    assert(2 * SCALE as int == 200000);
    lemma_mul_abs(2 * SCALE as int, a, 200000, 409600000);
    lemma_div_abs_scaled((2 * SCALE as int) * a, SCALE as int, 81920000000000);
    let q = vw / w;
    lemma_div_of0(w);
    lemma_div_is_ordered(0, vw, w);
    lemma_div_abs(vw, w, vw);
    lemma_fundamental_div_mod(vw, w);
    // the division identity speaks of `w * q`; the postcondition of `q * w`
    assert(q * w == w * q);
    let dy = (-(2 * SCALE as int)) / h;
    lemma_div_is_ordered(-(2 * SCALE as int), 0, h);
    lemma_fundamental_div_mod(-(2 * SCALE as int), h);
    vstd::arithmetic::div_mod::lemma_mod_division_less_than_divisor(-(2 * SCALE as int), h);
    assert(h * dy >= -(2 * SCALE as int) - h + 1);
    assert(dy >= -(2 * SCALE as int)) by (nonlinear_arith)
        requires
            1 <= h,
            dy <= 0,
            h * dy >= -(2 * SCALE as int) - h + 1,
    {
    }
}

/// The center of pixel `(x, y)`, before any jitter.
pub open spec fn pixel_center_i(c: Camera, x: int, y: int) -> Vec3 {
    let p00 = p00_i(c.image_width as int, c.image_height as int);
    let du = du_i(c.image_width as int, c.image_height as int);
    let dv = dv_i(c.image_height as int);
    Vec3 {
        x: (p00.x + x * du.x + y * dv.x) as i128,
        y: (p00.y + x * du.y + y * dv.y) as i128,
        z: (p00.z + x * du.z + y * dv.z) as i128,
    }
}

/// The generator state after producing one sample ray: two draws when
/// jitter is on, none when a single sample per pixel is taken.
pub open spec fn state_after_ray(c: Camera, st: u64) -> u64 {
    if c.samples_per_pixel > 1 {
        lcg_next(lcg_next(st))
    } else {
        st
    }
}

/// The point on the viewport sampled for pixel `(x, y)` from state `st`:
/// the pixel center, perturbed by up to half a pixel each way when jitter
/// is on.
pub open spec fn sample_point_i(c: Camera, x: int, y: int, st: u64) -> Vec3 {
    let pc = pixel_center_i(c, x, y);
    if c.samples_per_pixel > 1 {
        let s1 = lcg_next(st);
        let px = unit_of(s1) - (HALF as int);
        let s2 = lcg_next(s1);
        let py = unit_of(s2) - (HALF as int);
        let du = du_i(c.image_width as int, c.image_height as int);
        let dv = dv_i(c.image_height as int);
        Vec3 {
            x: (pc.x + fx_mul(px, du.x as int) + fx_mul(py, dv.x as int)) as i128,
            y: (pc.y + fx_mul(px, du.y as int) + fx_mul(py, dv.y as int)) as i128,
            z: (pc.z + fx_mul(px, du.z as int) + fx_mul(py, dv.z as int)) as i128,
        }
    } else {
        pc
    }
}

/// The sample ray for pixel `(x, y)` from state `st`: from the camera
/// center toward the sampled viewport point.
pub open spec fn ray_i(c: Camera, x: int, y: int, st: u64) -> Ray {
    let p = sample_point_i(c, x, y, st);
    Ray {
        origin: c.camera_center,
        direction: Vec3 {
            x: (p.x - c.camera_center.x) as i128,
            y: (p.y - c.camera_center.y) as i128,
            z: (p.z - c.camera_center.z) as i128,
        },
    }
}

/// Every camera ray's direction stays within the coordinate budget, and
/// its viewport-plane component is exactly one focal length.
proof fn lemma_sample_bounds(c: Camera, x: int, y: int, st: u64)
    requires
        c.wf(),
        0 <= x < c.image_width,
        0 <= y < c.image_height,
    ensures
        ray_i(c, x, y, st).wf(),
        ray_i(c, x, y, st).direction.z == -(SCALE as int),
        dot_i(ray_i(c, x, y, st).direction, ray_i(c, x, y, st).direction) > 0,
{
    let w = c.image_width as int;
    let h = c.image_height as int;
    lemma_viewport_bounds(w, h);
    let vw = vw_i(w, h);
    let q = du_i(w, h).x as int;
    let dy = dv_i(h).y as int;
    // pixel00 components
    lemma_fundamental_div_mod(vw, 2);
    lemma_fundamental_div_mod((HALF as int) * q, SCALE as int);
    lemma_fundamental_div_mod((HALF as int) * dy, SCALE as int);
    lemma_div_of0(2);
    assert(0int / 2 == 0);
    // index terms
    assert(x * q + q <= w * q) by (nonlinear_arith)
        requires
            0 <= q,
            x + 1 <= w,
    {
    }
    assert(0 <= x * q) by (nonlinear_arith)
        requires
            0 <= q,
            0 <= x,
    {
    }
    assert(abs_le(y * dy, 4096 * (2 * SCALE as int + 4096))) by (nonlinear_arith)
        requires
            -(2 * SCALE as int) <= dy <= 0,
            0 <= y <= 4096,
    {
    }
    // jitter terms
    if c.samples_per_pixel > 1 {
        let s1 = lcg_next(st);
        let px = unit_of(s1) - (HALF as int);
        let s2 = lcg_next(s1);
        let py = unit_of(s2) - (HALF as int);
        assert(0 <= unit_of(s1) < SCALE as int) by {
            lemma_unit_range(s1);
        }
        assert(0 <= unit_of(s2) < SCALE as int) by {
            lemma_unit_range(s2);
        }
        lemma_mul_abs(px, q, HALF as int, 820000000);
        lemma_mul_abs(px, dy, HALF as int, 2 * SCALE as int);
        lemma_mul_abs(py, q, HALF as int, 820000000);
        lemma_mul_abs(py, dy, HALF as int, 2 * SCALE as int);
        lemma_fundamental_div_mod(px * q, SCALE as int);
        lemma_fundamental_div_mod(px * dy, SCALE as int);
        lemma_fundamental_div_mod(py * q, SCALE as int);
        lemma_fundamental_div_mod(py * dy, SCALE as int);
        lemma_fundamental_div_mod(px * 0, SCALE as int);
        lemma_fundamental_div_mod(py * 0, SCALE as int);
        assert(px * 0 == 0) by (nonlinear_arith)
        {
        }
        assert(py * 0 == 0) by (nonlinear_arith)
        {
        }
        lemma_div_of0(SCALE as int);
    }
    let d = ray_i(c, x, y, st).direction;
    assert(dot_i(d, d) > 0) by (nonlinear_arith)
        requires
            d.z == -(SCALE as int),
    {
    }
}

/// A drawn unit value lies in `[0, 1)`.
proof fn lemma_unit_range(s: u64)
    ensures
        0 <= unit_of(s) < SCALE as int,
{
    lemma_div_of0(0x1_0000_0000);
    lemma_div_is_ordered(0, s as int, 0x1_0000_0000);
    vstd::arithmetic::div_mod::lemma_mod_division_less_than_divisor((s as int) / 0x1_0000_0000,
        SCALE as int);
}

impl Camera {
    /// Builds the sample ray for pixel `(x, y)`, drawing jitter from the
    /// sampler when more than one sample per pixel is taken.
    pub fn get_ray(&self, x: u32, y: u32, sampler: &mut Sampler) -> (r: Ray)
        requires
            self.wf(),
            x < self.image_width,
            y < self.image_height,
        ensures
            r == ray_i(*self, x as int, y as int, old(sampler).state),
            final(sampler).state == state_after_ray(*self, old(sampler).state),
            r.wf(),
            r.direction.z == -(SCALE as int),
            dot_i(r.direction, r.direction) > 0,
    {
        proof {
            lemma_sample_bounds(*self, x as int, y as int, old(sampler).state);
            lemma_viewport_bounds(self.image_width as int, self.image_height as int);
            lemma_mul_abs(x as int, self.pixel_delta_u.x as int, 4096, 820000001);
            lemma_mul_abs(y as int, self.pixel_delta_v.y as int, 4096, 200000);
        }
        let mut pixel_sample = self.pixel00_loc.plus(
            self.pixel_delta_u.scale_int(x as i128),
        ).plus(self.pixel_delta_v.scale_int(y as i128));
        if self.samples_per_pixel > 1 {
            let px = sampler.next_unit() - HALF;
            let py = sampler.next_unit() - HALF;
            proof {
                lemma_mul_abs(px as int, self.pixel_delta_u.x as int, HALF as int, 820000001);
                lemma_mul_abs(py as int, self.pixel_delta_v.y as int, HALF as int, 200000);
            }
            pixel_sample = pixel_sample.plus(self.pixel_delta_u.scale_fx(px)).plus(
                self.pixel_delta_v.scale_fx(py),
            );
        }
        let ray_origin = self.camera_center;
        let ray_direction = pixel_sample.minus(ray_origin);
        ray(ray_origin, ray_direction)
    }
}

/// The color of one sample ray: half the oriented unit normal shifted into
/// display range on a hit, else a vertical white-to-sky-blue gradient over
/// the ray's normalized vertical component.
pub open spec fn ray_color_i(world: Hittable, r: Ray) -> Vec3 {
    match hit_i(world, r, 0, INF as int) {
        Some(rec) => Vec3 {
            x: fx_mul(HALF as int, rec.normal.x + SCALE as int) as i128,
            y: fx_mul(HALF as int, rec.normal.y + SCALE as int) as i128,
            z: fx_mul(HALF as int, rec.normal.z + SCALE as int) as i128,
        },
        None => {
            let len = sqrt_i(dot_i(r.direction, r.direction));
            let uy = ((r.direction.y as int) * (SCALE as int)) / len;
            let a = ((uy + SCALE as int) * (HALF as int)) / (SCALE as int);
            Vec3 {
                x: (fx_mul(SCALE as int - a, SCALE as int) + fx_mul(a, HALF as int)) as i128,
                y: (fx_mul(SCALE as int - a, SCALE as int) + fx_mul(a, 70000)) as i128,
                z: (fx_mul(SCALE as int - a, SCALE as int) + fx_mul(a, SCALE as int)) as i128,
            }
        },
    }
}

impl Camera {
    /// Shades one sample ray against the scene.
    pub fn ray_color(&self, world: &Hittable, r: &Ray) -> (c: Vec3)
        requires
            h_wf(*world),
            r.wf(),
            dot_i(r.direction, r.direction) > 0,
        ensures
            c == ray_color_i(*world, *r),
            c.in_bounds(CSAMP as int),
    {
        proof {
            lemma_hit_bounds(*world, *r, 0, INF as int);
        }
        if let Some(hit) = world.hit(r, interval(0, INF)) {
            proof {
                lemma_mul_abs(HALF as int, hit.normal.x + SCALE as int, HALF as int,
                    NMAX as int + SCALE as int);
                lemma_mul_abs(HALF as int, hit.normal.y + SCALE as int, HALF as int,
                    NMAX as int + SCALE as int);
                lemma_mul_abs(HALF as int, hit.normal.z + SCALE as int, HALF as int,
                    NMAX as int + SCALE as int);
                lemma_div_abs_scaled((HALF as int) * (hit.normal.x + SCALE as int), SCALE as int,
                    (HALF as int) * (NMAX as int + SCALE as int));
                lemma_div_abs_scaled((HALF as int) * (hit.normal.y + SCALE as int), SCALE as int,
                    (HALF as int) * (NMAX as int + SCALE as int));
                lemma_div_abs_scaled((HALF as int) * (hit.normal.z + SCALE as int), SCALE as int,
                    (HALF as int) * (NMAX as int + SCALE as int));
            }
            return hit.normal.plus(vec3(SCALE, SCALE, SCALE)).scale_fx(HALF);
        }
        proof {
            crate::vec3::lemma_dot_bound(r.direction, r.direction, COORD_MAX as int,
                COORD_MAX as int);
        }
        let len = isqrt(r.direction.dot(r.direction));
        proof {
            assert(1 <= len) by (nonlinear_arith)
                requires
                    0 <= len,
                    1 <= dot_i(r.direction, r.direction),
                    dot_i(r.direction, r.direction) < ((len as int) + 1) * ((len as int) + 1),
            {
            }
            lemma_mul_abs(r.direction.y as int, SCALE as int, 1000000000, 100000);
            lemma_div_abs((r.direction.y as int) * (SCALE as int), len as int, 100000000000000);
        }
        let uy = floor_div(r.direction.y * SCALE, len);
        proof {
            lemma_mul_abs(uy as int + SCALE as int, HALF as int, 200000000000000, 50000);
            lemma_div_abs((uy as int + SCALE as int) * (HALF as int), SCALE as int,
                10000000000000000000);
        }
        let a = floor_div((uy + SCALE) * HALF, SCALE);
        let white = vec3(SCALE, SCALE, SCALE);
        let sky = vec3(HALF, 70000, SCALE);
        proof {
            lemma_mul_abs(SCALE as int - a as int, SCALE as int, 20000000000000000000, 100000);
            lemma_mul_abs(a as int, HALF as int, 10000000000000000000, 50000);
            lemma_mul_abs(a as int, 70000, 10000000000000000000, 70000);
            lemma_mul_abs(a as int, SCALE as int, 10000000000000000000, 100000);
        }
        white.scale_fx(SCALE - a).plus(sky.scale_fx(a))
    }
}

/// Clamp of an averaged channel into the displayable band `[0, 0.999]`.
pub open spec fn clamp_chan_i(x: int) -> int {
    if x < 0 {
        0
    } else if x > 99900 {
        99900
    } else {
        x
    }
}

/// The 8-bit value written for a channel accumulated over `spp` samples:
/// the average, clamped, scaled by 256 and truncated.
pub open spec fn byte_i(sum: int, spp: int) -> int {
    (256 * clamp_chan_i(sum / spp)) / (SCALE as int)
}

/// One clamped channel scaled to 8 bits.
fn channel_byte(c: i128) -> (b: u8)
    requires
        0 <= c <= 99900,
    ensures
        b as int == (256 * c) / (SCALE as int),
{
    proof {
        lemma_div_of0(SCALE as int);
        lemma_div_is_ordered(0, 256 * c as int, SCALE as int);
        lemma_div_is_ordered(256 * c as int, 25574400, SCALE as int);
        vstd::arithmetic::div_mod::lemma_fundamental_div_mod_converse_div(25574400, 100000, 255,
            74400);
    }
    floor_div(256 * c, SCALE) as u8
}

/// Averages an accumulated color over the sample count, clamps each channel
/// into `[0, 0.999]`, and scales the channels to 8-bit values.
pub fn vec_to_color(vec: Vec3, samples_per_pixel: u32) -> (rgb: (u8, u8, u8))
    requires
        1 <= samples_per_pixel,
        vec.in_bounds(BIG as int),
    ensures
        rgb.0 as int == byte_i(vec.x as int, samples_per_pixel as int),
        rgb.1 as int == byte_i(vec.y as int, samples_per_pixel as int),
        rgb.2 as int == byte_i(vec.z as int, samples_per_pixel as int),
{
    let scaled = vec.div_int(samples_per_pixel as i128);
    let intensity = interval(0, 99900);
    let bx = channel_byte(intensity.clamp(scaled.x));
    let by = channel_byte(intensity.clamp(scaled.y));
    let bz = channel_byte(intensity.clamp(scaled.z));
    (bx, by, bz)
}

/// The zero color.
pub open spec fn zero3_i() -> Vec3 {
    Vec3 { x: 0, y: 0, z: 0 }
}

/// Color sum and generator state after the first `k` samples of pixel
/// `(x, y)`.
pub open spec fn samples_i(c: Camera, w: Hittable, x: int, y: int, st: u64, k: nat) -> (Vec3, u64)
    decreases k,
{
    if k == 0 {
        (zero3_i(), st)
    } else {
        let prev = samples_i(c, w, x, y, st, (k - 1) as nat);
        let col = ray_color_i(w, ray_i(c, x, y, prev.1));
        (
            Vec3 {
                x: (prev.0.x + col.x) as i128,
                y: (prev.0.y + col.y) as i128,
                z: (prev.0.z + col.z) as i128,
            },
            state_after_ray(c, prev.1),
        )
    }
}

/// The three bytes of pixel `(x, y)` and the state after sampling it.
pub open spec fn pixel_i(c: Camera, w: Hittable, x: int, y: int, st: u64) -> (Seq<u8>, u64) {
    let s = samples_i(c, w, x, y, st, c.samples_per_pixel as nat);
    (
        seq![
            byte_i(s.0.x as int, c.samples_per_pixel as int) as u8,
            byte_i(s.0.y as int, c.samples_per_pixel as int) as u8,
            byte_i(s.0.z as int, c.samples_per_pixel as int) as u8,
        ],
        s.1,
    )
}

/// Bytes of the first `x` pixels of row `y`, and the state after them.
pub open spec fn row_i(c: Camera, w: Hittable, y: int, st: u64, x: nat) -> (Seq<u8>, u64)
    decreases x,
{
    if x == 0 {
        (Seq::empty(), st)
    } else {
        let prev = row_i(c, w, y, st, (x - 1) as nat);
        let px = pixel_i(c, w, x - 1, y, prev.1);
        (prev.0 + px.0, px.1)
    }
}

/// Bytes of the first `y` rows, and the state after them.
pub open spec fn image_i(c: Camera, w: Hittable, st: u64, y: nat) -> (Seq<u8>, u64)
    decreases y,
{
    if y == 0 {
        (Seq::empty(), st)
    } else {
        let prev = image_i(c, w, st, (y - 1) as nat);
        let row = row_i(c, w, y - 1, prev.1, c.image_width as nat);
        (prev.0 + row.0, row.1)
    }
}

/// The full image rendered from a camera, a scene and a seed: a
/// mathematical function of these three alone.
pub open spec fn render_i(c: Camera, w: Hittable, st: u64) -> Seq<u8> {
    image_i(c, w, st, c.image_height as nat).0
}

/// Each rendered pixel contributes exactly three bytes.
pub proof fn lemma_row_len(c: Camera, w: Hittable, y: int, st: u64, x: nat)
    ensures
        row_i(c, w, y, st, x).0.len() == 3 * x,
    decreases x,
{
    if x > 0 {
        lemma_row_len(c, w, y, st, (x - 1) as nat);
    }
}

/// Each rendered row contributes exactly three bytes per pixel of width.
pub proof fn lemma_image_len(c: Camera, w: Hittable, st: u64, y: nat)
    ensures
        image_i(c, w, st, y).0.len() == 3 * (c.image_width as int) * y,
    decreases y,
{
    if y > 0 {
        lemma_image_len(c, w, st, (y - 1) as nat);
        let prev = image_i(c, w, st, (y - 1) as nat);
        lemma_row_len(c, w, y - 1, prev.1, c.image_width as nat);
        assert(3 * (c.image_width as int) * y == 3 * (c.image_width as int) * (y - 1) + 3 * (
        c.image_width as int)) by (nonlinear_arith)
        {
        }
    } else {
        assert(3 * (c.image_width as int) * y == 0) by (nonlinear_arith)
            requires
                y == 0,
        {
        }
    }
}

/// What follows a sequence in a concatenation is recovered whole by taking
/// the range just past it.
proof fn lemma_concat_subrange_suffix<A>(s: Seq<A>, t: Seq<A>)
    ensures
        (s + t).subrange(s.len() as int, (s.len() + t.len()) as int) == t,
{
    assert((s + t).subrange(s.len() as int, (s.len() + t.len()) as int) =~= t);
}

/// A range that lies inside the first part of a concatenation reads the
/// same bytes there.
proof fn lemma_concat_subrange_prefix<A>(s: Seq<A>, t: Seq<A>, a: int, b: int)
    requires
        0 <= a <= b <= s.len(),
    ensures
        (s + t).subrange(a, b) == s.subrange(a, b),
{
    assert((s + t).subrange(a, b) =~= s.subrange(a, b));
}

/// Row `y` occupies exactly the byte range `[3*W*y, 3*W*(y+1))` of the
/// rendered image: every row lands at its row-major offset, with no gaps
/// and no overlap.
pub proof fn lemma_row_in_image(c: Camera, w: Hittable, st: u64, y: nat, upto: nat)
    requires
        y < upto,
        upto <= c.image_height,
    ensures
        ({
            let pre = image_i(c, w, st, y);
            let row = row_i(c, w, y as int, pre.1, c.image_width as nat).0;
            image_i(c, w, st, upto).0.subrange(3 * (c.image_width as int) * y,
                3 * (c.image_width as int) * (y + 1)) == row
        }),
    decreases upto,
{
    let wid = c.image_width as int;
    let pre = image_i(c, w, st, y);
    let row = row_i(c, w, y as int, pre.1, c.image_width as nat).0;
    lemma_image_len(c, w, st, y);
    lemma_row_len(c, w, y as int, pre.1, c.image_width as nat);
    assert(3 * wid * (y + 1) == 3 * wid * y + 3 * wid) by (nonlinear_arith)
    {
    }
    assert(0 <= 3 * wid * y) by (nonlinear_arith)
        requires
            0 <= wid,
            0 <= y,
    {
    }
    if upto == y + 1 {
        lemma_concat_subrange_suffix(pre.0, row);
    } else {
        lemma_row_in_image(c, w, st, y, (upto - 1) as nat);
        let prev_img = image_i(c, w, st, (upto - 1) as nat);
        lemma_image_len(c, w, st, (upto - 1) as nat);
        assert(3 * wid * (y + 1) <= 3 * wid * (upto - 1)) by (nonlinear_arith)
            requires
                0 <= wid,
                y + 1 <= upto - 1,
        {
        }
        lemma_concat_subrange_prefix(prev_img.0, row_i(c, w, upto - 1, prev_img.1,
            c.image_width as nat).0, 3 * wid * y, 3 * wid * (y + 1));
    }
}

/// Rendering the same scene with the same camera and the same seed twice
/// produces byte-identical images.
pub proof fn lemma_render_deterministic(
    c1: Camera,
    w1: Hittable,
    s1: u64,
    c2: Camera,
    w2: Hittable,
    s2: u64,
)
    requires
        c1 == c2,
        w1 == w2,
        s1 == s2,
    ensures
        render_i(c1, w1, s1) == render_i(c2, w2, s2),
{
}

impl Camera {
    /// Renders one scanline into packed RGB bytes, three per pixel, left to
    /// right, advancing the sampler.
    #[verifier::loop_isolation(false)]
    pub fn render_row(&self, world: &Hittable, y: u32, sampler: &mut Sampler) -> (row: Vec<u8>)
        requires
            self.wf(),
            h_wf(*world),
            y < self.image_height,
        ensures
            row@ == row_i(*self, *world, y as int, old(sampler).state,
                self.image_width as nat).0,
            final(sampler).state == row_i(*self, *world, y as int, old(sampler).state,
                self.image_width as nat).1,
            row@.len() == 3 * self.image_width,
    {
        let ghost st0 = sampler.state;
        let mut row: Vec<u8> = Vec::new();
        let mut x: u32 = 0;
        while x < self.image_width
            invariant
                x <= self.image_width,
                row@ == row_i(*self, *world, y as int, st0, x as nat).0,
                sampler.state == row_i(*self, *world, y as int, st0, x as nat).1,
                row@.len() == 3 * x,
            decreases self.image_width - x,
        {
            let ghost stp = sampler.state;
            let mut color = Vec3::new(0, 0, 0);
            let mut s: u32 = 0;
            while s < self.samples_per_pixel
                invariant
                    s <= self.samples_per_pixel,
                    color == samples_i(*self, *world, x as int, y as int, stp, s as nat).0,
                    sampler.state == samples_i(*self, *world, x as int, y as int, stp,
                        s as nat).1,
                    color.in_bounds((s as int) * (CSAMP as int)),
                    x < self.image_width,
                decreases self.samples_per_pixel - s,
            {
                let r = self.get_ray(x, y, sampler);
                let col = self.ray_color(world, &r);
                color = color.plus(col);
                s = s + 1;
            }
            let rgb = vec_to_color(color, self.samples_per_pixel);
            row.push(rgb.0);
            row.push(rgb.1);
            row.push(rgb.2);
            proof {
                assert(row@ =~= row_i(*self, *world, y as int, st0, (x + 1) as nat).0);
            }
            x = x + 1;
        }
        row
    }

    /// Renders the full image, rows top to bottom: exactly one RGB triple
    /// per pixel coordinate, packed row-major with no gaps.
    #[verifier::loop_isolation(false)]
    pub fn render(&self, world: &Hittable, sampler: &mut Sampler) -> (img: Vec<u8>)
        requires
            self.wf(),
            h_wf(*world),
        ensures
            img@ == render_i(*self, *world, old(sampler).state),
            final(sampler).state == image_i(*self, *world, old(sampler).state,
                self.image_height as nat).1,
            img@.len() == 3 * self.image_width * self.image_height,
    {
        let ghost st0 = sampler.state;
        let mut img: Vec<u8> = Vec::new();
        let mut y: u32 = 0;
        while y < self.image_height
            invariant
                y <= self.image_height,
                img@ == image_i(*self, *world, st0, y as nat).0,
                sampler.state == image_i(*self, *world, st0, y as nat).1,
                img@.len() == 3 * self.image_width * y,
            decreases self.image_height - y,
        {
            let mut row = self.render_row(world, y, sampler);
            img.append(&mut row);
            proof {
                assert(3 * self.image_width * (y + 1) == 3 * self.image_width * y + 3
                    * self.image_width) by (nonlinear_arith)
                {
                }
                assert(img@ =~= image_i(*self, *world, st0, (y + 1) as nat).0);
            }
            y = y + 1;
        }
        img
    }
}

} // verus!
