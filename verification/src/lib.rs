//! An offline path-tracing renderer whose arithmetic core is verified.
//!
//! Scalars are fixed-point numbers: an `i64` holding the real value times
//! `fixed::SCALE`.  Every arithmetic routine carries an exact contract over
//! the mathematical integers, so the geometric and radiometric claims of the
//! renderer (intersection bounds, normal orientation, scatter behaviour,
//! tone-mapping range) are proved rather than sampled.
//!
//! This crate root holds the integrator: the iterative color resolution of a
//! ray through the scene, the sky gradient for escaped rays, and the
//! per-tile sampling loop that a driver distributes over workers.

pub mod aabb;
pub mod camera;
pub mod fixed;
pub mod geometry;
pub mod hit_record;
pub mod image;
pub mod material;
pub mod ray;
pub mod scene;
pub mod vec_three;

use crate::camera::Camera;
use crate::fixed::clamped;
use crate::fixed::fmul;
use crate::fixed::lemma_fmul_bound;
use crate::fixed::lemma_fmul_mono;
use crate::fixed::lemma_fmul_neg;
use crate::fixed::lemma_fmul_unit;
use crate::fixed::mag;
use crate::fixed::SCALE;
use crate::image::color_to_rgb8;
use crate::material::color_wf;
use crate::ray::Ray;
use crate::ray::MAX_T;
use crate::scene::scene_hit;
use crate::scene::Scene;
use crate::vec_three::dot3;
use crate::vec_three::vadd;
use crate::vec_three::vscale;
use crate::vec_three::vsub;
use crate::vec_three::vunit;
use crate::vec_three::Vec3;
use crate::vec_three::MAX_COORD;
use crate::vec_three::WORLD_BOUND;
use crate::vec_three::V3;
use vstd::prelude::*;

verus! {

/// Width over height of the rendered image: the real ratio 3/2.
pub const IMAGE_ASPECT_RATIO: i64 = 98304;

pub const IMAGE_WIDTH: u32 = 800;

/// The width divided by the aspect ratio.
pub const IMAGE_HEIGHT: u32 = 533;

pub const SAMPLES_PER_PIXEL: u32 = 20;

/// The recursion budget of a single ray.
pub const MAX_RAYS: u32 = 50;

/// The image is split into this many tiles along each axis.
pub const NUM_CHUNKS: u32 = 12;

/// Intersections closer than this are ignored, which keeps a scattered ray
/// from immediately hitting the surface it just left.
pub const T_MIN: i64 = 65;

/// The color of the sky at the zenith (the gradient's `t = 1` end).
pub open spec fn sky_zenith() -> V3 {
    V3 { x: 32768, y: 45875, z: 65536 }
}

/// The color of the sky at the horizon (the gradient's `t = 0` end): white.
pub open spec fn sky_horizon() -> V3 {
    V3 { x: 65536, y: 65536, z: 65536 }
}

/// The gradient an escaped ray resolves to: the direction is normalized, its
/// height is turned into a blend factor `t = (y + 1) / 2` clamped to `[0, 1]`,
/// and the horizon and zenith colors are interpolated by `t`.
pub open spec fn spec_sky_color(dir: V3) -> V3 {
    let s = SCALE as int;
    let t = clamped(fmul(vunit(dir).y + s, 32768), 0, s);
    vadd(sky_horizon(), vscale(vsub(sky_zenith(), sky_horizon()), t))
}

/// The sky gradient for a ray that hit nothing.  Every channel stays at or
/// above the zenith color's: the sky is never black.
pub fn sky_color(ray: &Ray) -> (r: Vec3)
    requires
        ray.direction@.bounded(MAX_COORD as int),
        dot3(ray.direction@, ray.direction@) >= 1,
    ensures
        r@ == spec_sky_color(ray.direction@),
        32768 <= r@.x <= 65536,
        45875 <= r@.y <= 65536,
        r@.z == 65536,
{
    let ghost s: int = SCALE as int;
    let unit_direction = ray.direction.unit_vector();
    proof {
        assert(s == 65536);
        assert((4 * s) * 32768 <= s * (2 * s)) by (nonlinear_arith)
            requires
                s == 65536,
        ;
        lemma_fmul_bound(unit_direction@.y + s, 32768, 4 * s, 32768, 2 * s);
    }
    let t_raw = crate::fixed::fix_mul(unit_direction.y + SCALE, 32768);
    let t = crate::fixed::fix_clamp(t_raw, 0, SCALE);
    let delta = Vec3 { x: -32768, y: -19661, z: 0 };
    proof {
        assert(32768 * s <= s * 32768) by (nonlinear_arith);
        crate::vec_three::lemma_vscale_bound(delta@, t as int, 32768, s, 32768);
        lemma_fmul_neg(32768, t as int);
        lemma_fmul_neg(19661, t as int);
        lemma_fmul_mono(32768, 32768, t as int, s);
        lemma_fmul_mono(19661, 19661, t as int, s);
        lemma_fmul_unit(32768);
        lemma_fmul_unit(19661);
        assert(0 * (t as int) == 0) by (nonlinear_arith);
    }
    let scaled = delta.scale(t);
    Vec3::identity().add(scaled)
}

/// Resolves the color a ray gathers from the scene, up to `depth` bounces.
///
/// The loop follows the path, multiplying the attenuation colors of the
/// surfaces it scatters off.  A zero budget yields black (an engineering cut
/// of the path, not a physical termination), an absorbed or degenerate
/// scattered ray yields black, and an escaped ray yields the attenuated sky
/// gradient.  In an empty scene every ray escapes at once and the result is
/// exactly the sky gradient.
pub fn ray_color(ray: &Ray, world: &Scene, depth: u32) -> (r: Vec3)
    requires
        world.wf(),
        ray.origin@.bounded(WORLD_BOUND as int),
        ray.direction@.bounded(MAX_COORD as int),
        dot3(ray.direction@, ray.direction@) >= 1,
    ensures
        color_wf(r@),
        depth == 0 ==> r@ == (V3 { x: 0, y: 0, z: 0 }),
        scene_hit(world@, ray.origin@, ray.direction@, T_MIN as int, MAX_T as int) is None
            && depth > 0 ==> r@ == spec_sky_color(ray.direction@),
        world@.len() == 0 && depth > 0 ==> r@ == spec_sky_color(ray.direction@),
{
    let ghost s: int = SCALE as int;
    let mut attenuation = Vec3::identity();
    let mut current = Ray::from(&ray.origin, &ray.direction);
    let mut remaining = depth;
    while remaining > 0
        invariant
            world.wf(),
            current.origin@.bounded(WORLD_BOUND as int),
            current.direction@.bounded(MAX_COORD as int),
            dot3(current.direction@, current.direction@) >= 1,
            color_wf(attenuation@),
            remaining <= depth,
            remaining == depth ==> current == *ray && attenuation@ == (V3 {
                x: SCALE as int,
                y: SCALE as int,
                z: SCALE as int,
            }),
            scene_hit(world@, ray.origin@, ray.direction@, T_MIN as int, MAX_T as int) is None
                ==> remaining == depth,
            ray.direction@.bounded(MAX_COORD as int),
            dot3(ray.direction@, ray.direction@) >= 1,
        decreases remaining,
    {
        match world.hit(&current, T_MIN, MAX_T) {
            Some((hit_record, material)) => {
                match material.scatter(&current, &hit_record) {
                    Some((color, scattered_ray)) => {
                        proof {
                            lemma_attenuation_step(attenuation@, color@);
                        }
                        attenuation = attenuation.mul_vec(color);
                        let d2 = scattered_ray.direction.length_squared();
                        if d2 < 1 {
                            // the scattered direction collapsed: absorb
                            return Vec3::zero();
                        }
                        current = scattered_ray;
                        remaining = remaining - 1;
                    },
                    None => {
                        return Vec3::zero();
                    },
                }
            },
            None => {
                let sky = sky_color(&current);
                proof {
                    lemma_attenuation_step(attenuation@, sky@);
                    if remaining == depth {
                        lemma_fmul_unit(sky@.x);
                        lemma_fmul_unit(sky@.y);
                        lemma_fmul_unit(sky@.z);
                    }
                }
                return attenuation.mul_vec(sky);
            },
        }
    }
    Vec3::zero()
}

/// Multiplying two colors keeps every channel within `[0, 1]` and the raw
/// products inside the admissible range.
proof fn lemma_attenuation_step(a: V3, b: V3)
    requires
        color_wf(a),
        color_wf(b),
    ensures
        mag(a.x * b.x) <= i64::MAX * (SCALE as int),
        mag(a.y * b.y) <= i64::MAX * (SCALE as int),
        mag(a.z * b.z) <= i64::MAX * (SCALE as int),
        color_wf(crate::vec_three::vmul3(a, b)),
{
    let s = SCALE as int;
    assert(s * s <= s * s) by (nonlinear_arith);
    lemma_fmul_bound(a.x, b.x, s, s, s);
    lemma_fmul_bound(a.y, b.y, s, s, s);
    lemma_fmul_bound(a.z, b.z, s, s, s);
    lemma_fmul_mono(a.x, s, b.x, s);
    lemma_fmul_mono(a.y, s, b.y, s);
    lemma_fmul_mono(a.z, s, b.z, s);
    lemma_fmul_unit(s);
}

/// One finished pixel of a tile: its image coordinates and tone-mapped color.
#[derive(Clone, Copy, Debug)]
pub struct PixelColor {
    pub x: u32,
    pub y: u32,
    pub red: u8,
    pub green: u8,
    pub blue: u8,
}

/// Renders one rectangular tile of the image, row-major over `x` then `y`,
/// firing `samples_per_pixel` jittered rays per pixel and tone-mapping the
/// accumulated color.  The emitted `y` coordinates are flipped so that row 0
/// of the result is the image's top scanline.  Tiles are disjoint, so a
/// driver may render them on independent workers and write the pixels
/// without any further coordination.
pub fn render_tile(
    camera: &Camera,
    world: &Scene,
    start_x: u32,
    end_x: u32,
    start_y: u32,
    end_y: u32,
    width: u32,
    height: u32,
    samples_per_pixel: u32,
    max_depth: u32,
) -> (r: Vec<PixelColor>)
    requires
        camera.wf(),
        world.wf(),
        start_x <= end_x <= width,
        start_y <= end_y <= height,
        2 <= width <= 65536,
        2 <= height <= 65536,
        1 <= samples_per_pixel <= 100000,
    ensures
        r@.len() == (end_x - start_x) * (end_y - start_y),
        forall|k: int|
            0 <= k < r@.len() ==> {
                &&& (#[trigger] r@[k]).x == start_x + k / ((end_y - start_y) as int)
                &&& r@[k].y == height - 1 - (start_y + k % ((end_y - start_y) as int))
            },
{
    let ghost tile_h: int = (end_y - start_y) as int;
    let mut pixels: Vec<PixelColor> = Vec::new();
    let mut i = start_x;
    while i < end_x
        invariant
            camera.wf(),
            world.wf(),
            start_x <= i <= end_x <= width,
            start_y <= end_y <= height,
            2 <= width <= 65536,
            2 <= height <= 65536,
            1 <= samples_per_pixel <= 100000,
            tile_h == end_y - start_y,
            pixels@.len() == (i - start_x) * tile_h,
            forall|k: int|
                0 <= k < pixels@.len() ==> {
                    &&& (#[trigger] pixels@[k]).x == start_x + k / tile_h
                    &&& pixels@[k].y == height - 1 - (start_y + k % tile_h)
                },
        decreases end_x - i,
    {
        let mut j = start_y;
        while j < end_y
            invariant
                camera.wf(),
                world.wf(),
                start_x <= i < end_x <= width,
                start_y <= j <= end_y <= height,
                2 <= width <= 65536,
                2 <= height <= 65536,
                1 <= samples_per_pixel <= 100000,
                tile_h == end_y - start_y,
                pixels@.len() == (i - start_x) * tile_h + (j - start_y),
                forall|k: int|
                    0 <= k < pixels@.len() ==> {
                        &&& (#[trigger] pixels@[k]).x == start_x + k / tile_h
                        &&& pixels@[k].y == height - 1 - (start_y + k % tile_h)
                    },
            decreases end_y - j,
        {
            let color = sample_pixel(
                camera,
                world,
                i,
                j,
                width,
                height,
                samples_per_pixel,
                max_depth,
            );
            let rgb = color_to_rgb8(&color, samples_per_pixel);
            let pixel = PixelColor {
                x: i,
                y: height - 1 - j,
                red: rgb.0,
                green: rgb.1,
                blue: rgb.2,
            };
            pixels.push(pixel);
            proof {
                let k = pixels@.len() - 1;
                vstd::arithmetic::div_mod::lemma_fundamental_div_mod_converse(
                    k,
                    tile_h,
                    i - start_x,
                    j - start_y,
                );
                assert forall|k2: int|
                    0 <= k2 < pixels@.len() implies {
                    &&& (#[trigger] pixels@[k2]).x == start_x + k2 / tile_h
                    &&& pixels@[k2].y == height - 1 - (start_y + k2 % tile_h)
                } by {
                    if k2 < k {
                        assert(pixels@[k2] == pixels@.subrange(0, k)[k2]);
                    }
                }
            }
            j = j + 1;
        }
        proof {
            assert((i + 1 - start_x) * tile_h == (i - start_x) * tile_h + tile_h)
                by (nonlinear_arith);
        }
        i = i + 1;
    }
    pixels
}

/// Accumulates `samples_per_pixel` jittered camera rays through one pixel.
/// A sample whose generated ray is degenerate contributes black.
fn sample_pixel(
    camera: &Camera,
    world: &Scene,
    i: u32,
    j: u32,
    width: u32,
    height: u32,
    samples_per_pixel: u32,
    max_depth: u32,
) -> (r: Vec3)
    requires
        camera.wf(),
        world.wf(),
        i < width <= 65536,
        j < height <= 65536,
        2 <= width,
        2 <= height,
        1 <= samples_per_pixel <= 100000,
    ensures
        r@.x >= 0,
        r@.y >= 0,
        r@.z >= 0,
{
    let mut color = Vec3::zero();
    let mut sample: u32 = 0;
    while sample < samples_per_pixel
        invariant
            camera.wf(),
            world.wf(),
            i < width <= 65536,
            j < height <= 65536,
            2 <= width,
            2 <= height,
            sample <= samples_per_pixel <= 100000,
            0 <= color@.x <= (sample as int) * 65536,
            0 <= color@.y <= (sample as int) * 65536,
            0 <= color@.z <= (sample as int) * 65536,
        decreases samples_per_pixel - sample,
    {
        let u = jittered_coordinate(i, width);
        let v = jittered_coordinate(j, height);
        let ray = camera.get_origin_ray(u, v);
        let d2 = ray.direction.length_squared();
        if d2 >= 1 {
            let sample_color = ray_color(&ray, world, max_depth);
            color = color.add(sample_color);
        }
        sample = sample + 1;
    }
    color
}

/// The normalized image coordinate of index `i` out of `extent`, jittered by
/// a sub-pixel random offset: `(i + rand) / (extent - 1)`, always within
/// `[0, 2]`.
fn jittered_coordinate(i: u32, extent: u32) -> (r: i64)
    requires
        i < extent <= 65536,
        2 <= extent,
    ensures
        0 <= r <= 2 * (SCALE as int),
{
    let jitter = crate::vec_three::random_scalar();
    let num: u64 = (i as u64) * 65536 + (jitter as u64);
    let den: u64 = (extent as u64) - 1;
    let q: u64 = num / den;
    proof {
        assert(num as int <= (den as int) * 131071) by (nonlinear_arith)
            requires
                i as int <= den as int,
                den as int >= 1,
                0 <= (jitter as int) < 65536,
                (num as int) == (i as int) * 65536 + (jitter as int),
        ;
        vstd::arithmetic::div_mod::lemma_div_is_ordered(
            num as int,
            (den as int) * 131071,
            den as int,
        );
        vstd::arithmetic::div_mod::lemma_div_multiples_vanish(131071, den as int);
        vstd::arithmetic::div_mod::lemma_div_pos_is_pos(num as int, den as int);
    }
    q as i64
}

} // verus!
