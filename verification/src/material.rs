//! Materials: the scattering policy attached to a surface.
//!
//! A scatter call turns an incoming ray and the hit record at its
//! intersection into an attenuation color and an outgoing ray, or signals
//! absorption with `None`.  The random inputs each policy consumes are drawn
//! once and handed to a deterministic core with an exact contract, so the
//! scattering rules are verified for every possible draw.

use crate::fixed::clamped;
use crate::fixed::fdiv;
use crate::fixed::fix_div;
use crate::fixed::fix_mul;
use crate::fixed::fmul;
use crate::fixed::isqrt;
use crate::fixed::lemma_div_to_zero_bound;
use crate::fixed::lemma_fmul_bound;
use crate::fixed::lemma_fmul_mono;
use crate::fixed::mag;
use crate::fixed::sqrt_floor;
use crate::fixed::SCALE;
use crate::hit_record::HitRecord;
use crate::ray::Ray;
use crate::vec_three::dot3;
use crate::vec_three::vadd;
use crate::vec_three::vreflect;
use crate::vec_three::vrefract;
use crate::vec_three::vscale;
use crate::vec_three::vunit;
use crate::vec_three::Vec3;
use crate::vec_three::MAX_COORD;
use crate::vec_three::WORLD_BOUND;
use crate::vec_three::V3;
use vstd::prelude::*;

verus! {

#[derive(Clone, Copy, Debug)]
pub enum Material {
    Lambert { color: Vec3 },
    Metal { color: Vec3, fuzz: i64 },
    Dielectric { color: Vec3, refraction_index: i64 },
}

/// An RGB color: every channel within `[0, 1]`.
pub open spec fn color_wf(c: V3) -> bool {
    &&& 0 <= c.x <= SCALE as int
    &&& 0 <= c.y <= SCALE as int
    &&& 0 <= c.z <= SCALE as int
}

/// The Schlick reflectance approximation:
/// `r0 + (1 - r0) * (1 - cos)^5` with `r0 = ((1 - ratio) / (1 + ratio))^2`.
pub open spec fn schlick_spec(cosine: int, ratio: int) -> int {
    let s = SCALE as int;
    let r0 = schlick_r0(ratio);
    let p1 = s - cosine;
    let p2 = fmul(p1, p1);
    let p4 = fmul(p2, p2);
    let p5 = fmul(p4, p1);
    r0 + fmul(s - r0, p5)
}

/// The reflectance at normal incidence.
pub open spec fn schlick_r0(ratio: int) -> int {
    let s = SCALE as int;
    let r0a = fdiv(s - ratio, s + ratio);
    fmul(r0a, r0a)
}

/// The direction a dielectric surface sends a ray of unit direction
/// `unit_in`: total internal reflection when Snell's law has no solution,
/// otherwise reflection or refraction by comparing the uniform draw `coin`
/// against the Schlick reflectance.
pub open spec fn dielectric_direction(
    unit_in: V3,
    n: V3,
    front_face: bool,
    refraction_index: int,
    coin: int,
) -> V3 {
    let s = SCALE as int;
    let ratio = if front_face {
        fdiv(s, refraction_index)
    } else {
        refraction_index
    };
    let cos = clamped(-dot3(unit_in, n), -s, s);
    let sin = sqrt_floor(s * s - cos * cos);
    if fmul(ratio, sin) <= s {
        if coin < schlick_spec(cos, ratio) {
            vreflect(unit_in, n)
        } else {
            vrefract(unit_in, n, ratio)
        }
    } else {
        vreflect(unit_in, n)
    }
}

/// `r0` and both partial powers of the Schlick formula stay within scale.
proof fn lemma_schlick_pieces(cosine: int, ratio: int)
    requires
        -(SCALE as int) <= cosine <= SCALE as int,
        0 < ratio <= 8 * (SCALE as int),
    ensures
        0 <= schlick_r0(ratio) <= SCALE as int,
        0 <= schlick_spec(cosine, ratio) <= 33 * (SCALE as int),
        mag(fdiv((SCALE as int) - ratio, (SCALE as int) + ratio)) <= SCALE as int,
{
    let s = SCALE as int;
    assert(s == 65536);
    assert(mag((s - ratio) * s) <= (s + ratio) * s) by (nonlinear_arith)
        requires
            0 < ratio,
            s == 65536,
    ;
    lemma_div_to_zero_bound((s - ratio) * s, s + ratio, s);
    let r0a = fdiv(s - ratio, s + ratio);
    assert(s * s <= s * s) by (nonlinear_arith);
    lemma_fmul_bound(r0a, r0a, s, s, s);
    assert(r0a * r0a >= 0) by (nonlinear_arith);
    crate::fixed::lemma_div_to_zero_mag(r0a * r0a, s);
    assert(fmul(r0a, r0a) >= 0);
    let r0 = schlick_r0(ratio);
    let p1 = s - cosine;
    assert(0 <= p1 <= 2 * s);
    assert((2 * s) * (2 * s) <= s * (4 * s)) by (nonlinear_arith);
    lemma_fmul_bound(p1, p1, 2 * s, 2 * s, 4 * s);
    lemma_fmul_mono(0, p1, 0, p1);
    let p2 = fmul(p1, p1);
    assert((4 * s) * (4 * s) <= s * (16 * s)) by (nonlinear_arith);
    lemma_fmul_bound(p2, p2, 4 * s, 4 * s, 16 * s);
    lemma_fmul_mono(0, p2, 0, p2);
    let p4 = fmul(p2, p2);
    assert((16 * s) * (2 * s) <= s * (32 * s)) by (nonlinear_arith);
    lemma_fmul_bound(p4, p1, 16 * s, 2 * s, 32 * s);
    lemma_fmul_mono(0, p4, 0, p1);
    let p5 = fmul(p4, p1);
    assert(s * (32 * s) <= s * (32 * s)) by (nonlinear_arith);
    lemma_fmul_bound(s - r0, p5, s, 32 * s, 32 * s);
    lemma_fmul_mono(0, s - r0, 0, p5);
}

/// The Schlick reflectance at normal incidence (`cos = 1`) is exactly `r0`.
///
/// With `cos = 1` the factor `(1 - cos)^5` vanishes, so nothing is added to
/// the base reflectance.
pub proof fn lemma_schlick_normal_incidence(ratio: int)
    ensures
        schlick_spec(SCALE as int, ratio) == schlick_r0(ratio),
{
    let s = SCALE as int;
    assert(fmul(0, 0) == 0);
    assert(schlick_r0(ratio) + fmul(s - schlick_r0(ratio), 0) == schlick_r0(ratio)) by {
        assert((s - schlick_r0(ratio)) * 0 == 0) by (nonlinear_arith);
    }
}

/// The Schlick reflectance never decreases as the incidence angle grows,
/// that is as the cosine falls toward grazing.
pub proof fn lemma_schlick_monotone(cos_low: int, cos_high: int, ratio: int)
    requires
        0 <= cos_low <= cos_high <= SCALE as int,
        0 < ratio <= 8 * (SCALE as int),
    ensures
        schlick_spec(cos_high, ratio) <= schlick_spec(cos_low, ratio),
{
    let s = SCALE as int;
    lemma_schlick_pieces(cos_low, ratio);
    lemma_schlick_pieces(cos_high, ratio);
    let r0 = schlick_r0(ratio);
    let ph1 = s - cos_high;
    let pl1 = s - cos_low;
    assert(0 <= ph1 <= pl1);
    lemma_fmul_mono(ph1, pl1, ph1, pl1);
    let ph2 = fmul(ph1, ph1);
    let pl2 = fmul(pl1, pl1);
    lemma_fmul_mono(ph2, pl2, ph2, pl2);
    let ph4 = fmul(ph2, ph2);
    let pl4 = fmul(pl2, pl2);
    lemma_fmul_mono(ph4, pl4, ph1, pl1);
    let ph5 = fmul(ph4, ph1);
    let pl5 = fmul(pl4, pl1);
    lemma_fmul_mono(s - r0, s - r0, ph5, pl5);
}

impl Material {
    /// Validity of the material's parameters: channels within `[0, 1]`,
    /// fuzz within `[0, 1]`, refraction index within `(1, 8]`.
    pub open spec fn wf(self) -> bool {
        match self {
            Material::Lambert { color } => color_wf(color@),
            Material::Metal { color, fuzz } => color_wf(color@) && 0 <= fuzz <= SCALE,
            Material::Dielectric { color, refraction_index } => color_wf(color@) && SCALE
                < refraction_index <= 8 * (SCALE as int),
        }
    }

    /// The attenuation color the material applies on scattering.
    pub open spec fn spec_color(self) -> Vec3 {
        match self {
            Material::Lambert { color } => color,
            Material::Metal { color, fuzz } => color,
            Material::Dielectric { color, refraction_index } => color,
        }
    }

    /// Scatters the incoming ray at a hit.  A diffuse or refractive surface
    /// always continues the ray; a metal absorbs it exactly when the
    /// fuzz-perturbed reflection lands behind the surface.
    pub fn scatter(&self, ray_in: &Ray, hit_record: &HitRecord) -> (r: Option<(Vec3, Ray)>)
        requires
            self.wf(),
            ray_in.direction@.bounded(MAX_COORD as int),
            dot3(ray_in.direction@, ray_in.direction@) >= 1,
            hit_record.normal@.bounded(8 * (SCALE as int)),
            hit_record.point@.bounded(WORLD_BOUND as int),
        ensures
            (*self) is Lambert ==> r is Some,
            (*self) is Dielectric ==> r is Some,
            r is None ==> (*self) is Metal,
            match r {
                Some((attenuation, scattered)) => {
                    &&& attenuation == self.spec_color()
                    &&& scattered.origin == hit_record.point
                    &&& scattered.direction@.bounded(262144 * (SCALE as int))
                    &&& ((*self) is Metal ==> dot3(scattered.direction@, hit_record.normal@) > 0)
                },
                None => true,
            },
    {
        match self {
            Material::Lambert { color } => {
                let ru = Vec3::random_unit_vector();
                Some((*color, Material::scatter_lambertian(hit_record, &ru)))
            },
            Material::Metal { color, fuzz } => {
                let perturb = Vec3::random_in_unit_sphere();
                match Material::scatter_metal(ray_in, hit_record, *fuzz, &perturb) {
                    Some(ray) => Some((*color, ray)),
                    None => None,
                }
            },
            Material::Dielectric { color, refraction_index } => {
                let coin = crate::vec_three::random_scalar();
                Some(
                    (
                        *color,
                        Material::scatter_dielectric(ray_in, hit_record, *refraction_index, coin),
                    ),
                )
            },
        }
    }

    /// Diffuse scattering: the outgoing direction is the surface normal plus
    /// the sampled unit vector `rand_unit`, falling back to the bare normal
    /// when the two cancel.  Never absorbs.
    pub fn scatter_lambertian(hit_record: &HitRecord, rand_unit: &Vec3) -> (r: Ray)
        requires
            hit_record.normal@.bounded(8 * (SCALE as int)),
            rand_unit@.bounded(3 * (SCALE as int)),
        ensures
            r.origin == hit_record.point,
            r.direction@ == (if vadd(hit_record.normal@, rand_unit@) == (V3 { x: 0, y: 0, z: 0 }) {
                hit_record.normal@
            } else {
                vadd(hit_record.normal@, rand_unit@)
            }),
            r.direction@.bounded(11 * (SCALE as int)),
    {
        let mut scattered_ray_direction = hit_record.normal.add(*rand_unit);
        if scattered_ray_direction.near_zero() {
            scattered_ray_direction = hit_record.normal;
        }
        Ray { origin: hit_record.point, direction: scattered_ray_direction }
    }

    /// Specular scattering: the unit incoming direction is mirror-reflected
    /// about the normal and perturbed by `fuzz * perturb`.  The ray is
    /// absorbed (`None`) exactly when that direction does not leave the
    /// surface on the normal's side.
    pub fn scatter_metal(ray_in: &Ray, hit_record: &HitRecord, fuzz: i64, perturb: &Vec3) -> (r:
        Option<Ray>)
        requires
            ray_in.direction@.bounded(MAX_COORD as int),
            dot3(ray_in.direction@, ray_in.direction@) >= 1,
            hit_record.normal@.bounded(8 * (SCALE as int)),
            perturb@.bounded(SCALE as int),
            0 <= fuzz <= SCALE,
        ensures
            ({
                let d = vadd(
                    vreflect(vunit(ray_in.direction@), hit_record.normal@),
                    vscale(perturb@, fuzz as int),
                );
                match r {
                    Some(ray) => {
                        &&& dot3(d, hit_record.normal@) > 0
                        &&& ray.origin == hit_record.point
                        &&& ray.direction@ == d
                        &&& ray.direction@.bounded(4098 * (SCALE as int))
                    },
                    None => dot3(d, hit_record.normal@) <= 0,
                }
            }),
    {
        let ghost s: int = SCALE as int;
        let unit_in = ray_in.direction.unit_vector();
        let reflected = Vec3::reflect(&unit_in, &hit_record.normal);
        proof {
            assert(s == 65536);
            assert((s) * (s) <= s * s) by (nonlinear_arith);
            crate::vec_three::lemma_vscale_bound(perturb@, fuzz as int, s, s, s);
        }
        let fuzzed = perturb.scale(fuzz);
        let direction = reflected.add(fuzzed);
        if Vec3::dot(&direction, &hit_record.normal) > 0 {
            Some(Ray { origin: hit_record.point, direction })
        } else {
            None
        }
    }

    /// Refractive scattering: decides between reflection and refraction from
    /// the refraction ratio, the angle of incidence and the uniform draw
    /// `coin`.  Never absorbs.
    pub fn scatter_dielectric(
        ray_in: &Ray,
        hit_record: &HitRecord,
        refraction_index: i64,
        coin: i64,
    ) -> (r: Ray)
        requires
            ray_in.direction@.bounded(MAX_COORD as int),
            dot3(ray_in.direction@, ray_in.direction@) >= 1,
            hit_record.normal@.bounded(8 * (SCALE as int)),
            SCALE < refraction_index <= 8 * (SCALE as int),
            0 <= coin < SCALE,
        ensures
            r.origin == hit_record.point,
            r.direction@ == dielectric_direction(
                vunit(ray_in.direction@),
                hit_record.normal@,
                hit_record.front_face,
                refraction_index as int,
                coin as int,
            ),
            r.direction@.bounded(262144 * (SCALE as int)),
    {
        let ghost s: int = SCALE as int;
        let ratio = if hit_record.is_front_face() {
            fix_div(SCALE, refraction_index)
        } else {
            refraction_index
        };
        proof {
            assert(s == 65536);
            if hit_record.front_face {
                assert(mag(s * s) <= (refraction_index as int) * (8 * s)) by (nonlinear_arith)
                    requires
                        s == 65536,
                        refraction_index as int > s,
                ;
                crate::fixed::lemma_div_to_zero_bound(s * s, refraction_index as int, 8 * s);
                crate::fixed::lemma_div_to_zero_mag(s * s, refraction_index as int);
            }
            if hit_record.front_face {
                vstd::arithmetic::div_mod::lemma_div_is_ordered(
                    refraction_index as int,
                    s * s,
                    refraction_index as int,
                );
                vstd::arithmetic::div_mod::lemma_div_basics(refraction_index as int);
            }
            assert(1 <= ratio as int <= 8 * s);
        }
        let unit_in = ray_in.direction.unit_vector();
        proof {
            assert(3 * (3 * s) * (8 * s) <= s * (72 * s)) by (nonlinear_arith);
            crate::vec_three::lemma_vdot_bound(unit_in@, hit_record.normal@, 3 * s, 8 * s, 72 * s);
        }
        let d = Vec3::dot(&unit_in, &hit_record.normal);
        let cos_theta = crate::fixed::fix_clamp(-d, -SCALE, SCALE);
        proof {
            assert(0 <= (cos_theta as int) * (cos_theta as int) <= 65536 * 65536)
                by (nonlinear_arith)
                requires
                    mag(cos_theta as int) <= 65536,
            ;
            assert(s * s == 4294967296) by (nonlinear_arith)
                requires
                    s == 65536,
            ;
        }
        let sq: i128 = (cos_theta as i128) * (cos_theta as i128);
        let sin_raw: u128 = (4294967296i128 - sq) as u128;
        let sin_theta_wide = isqrt(sin_raw);
        proof {
            crate::fixed::lemma_sqrt_floor_upper(sin_raw as int, 65536);
            assert(sin_raw as int == s * s - (cos_theta as int) * (cos_theta as int));
        }
        let sin_theta = sin_theta_wide as i64;
        proof {
            assert(s * (8 * s) <= s * (8 * s)) by (nonlinear_arith);
            lemma_fmul_bound(ratio as int, sin_theta as int, 8 * s, s, 8 * s);
            assert((8 * s) * s <= s * (8 * s)) by (nonlinear_arith);
        }
        let can_refract = fix_mul(ratio, sin_theta) <= SCALE;
        let direction = if can_refract {
            let reflect_prob = Material::schlick_reflectance(cos_theta, ratio);
            if coin < reflect_prob {
                Vec3::reflect(&unit_in, &hit_record.normal)
            } else {
                Vec3::refract(&unit_in, &hit_record.normal, ratio)
            }
        } else {
            Vec3::reflect(&unit_in, &hit_record.normal)
        };
        Ray { origin: hit_record.point, direction }
    }

    /// The Schlick approximation of the Fresnel reflectance.
    pub fn schlick_reflectance(cosine: i64, ratio: i64) -> (r: i64)
        requires
            -SCALE <= cosine <= SCALE,
            0 < ratio <= 8 * (SCALE as int),
        ensures
            r as int == schlick_spec(cosine as int, ratio as int),
            0 <= r <= 33 * SCALE,
    {
        let ghost s: int = SCALE as int;
        proof {
            assert(s == 65536);
            assert(mag((s - ratio as int) * s) <= (s + ratio as int) * s) by (nonlinear_arith)
                requires
                    0 < ratio as int,
                    s == 65536,
            ;
            lemma_div_to_zero_bound((s - ratio as int) * s, s + ratio as int, s);
        }
        let r0a = fix_div(SCALE - ratio, SCALE + ratio);
        proof {
            lemma_fmul_bound(r0a as int, r0a as int, s, s, s);
            assert((r0a as int) * (r0a as int) >= 0) by (nonlinear_arith);
            crate::fixed::lemma_div_to_zero_mag((r0a as int) * (r0a as int), s);
        }
        let r0 = fix_mul(r0a, r0a);
        let p1 = SCALE - cosine;
        proof {
            assert((2 * s) * (2 * s) <= s * (4 * s)) by (nonlinear_arith);
            lemma_fmul_bound(p1 as int, p1 as int, 2 * s, 2 * s, 4 * s);
            lemma_fmul_mono(0, p1 as int, 0, p1 as int);
        }
        let p2 = fix_mul(p1, p1);
        proof {
            assert((4 * s) * (4 * s) <= s * (16 * s)) by (nonlinear_arith);
            lemma_fmul_bound(p2 as int, p2 as int, 4 * s, 4 * s, 16 * s);
            lemma_fmul_mono(0, p2 as int, 0, p2 as int);
        }
        let p4 = fix_mul(p2, p2);
        proof {
            assert((16 * s) * (2 * s) <= s * (32 * s)) by (nonlinear_arith);
            lemma_fmul_bound(p4 as int, p1 as int, 16 * s, 2 * s, 32 * s);
            lemma_fmul_mono(0, p4 as int, 0, p1 as int);
        }
        let p5 = fix_mul(p4, p1);
        proof {
            lemma_fmul_bound(s - r0 as int, p5 as int, s, 32 * s, 32 * s);
            lemma_fmul_mono(0, s - r0 as int, 0, p5 as int);
        }
        r0 + fix_mul(SCALE - r0, p5)
    }
}

} // verus!
