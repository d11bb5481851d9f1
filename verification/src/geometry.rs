//! Geometry: the intersectable primitives of a scene.
//!
//! The intersection search solves the ray–sphere quadratic with the half-b
//! optimization.  Every arithmetic step of the executable code is mirrored by
//! the spec functions `sphere_root` and `sphere_hit`, so the reported
//! parameter, point and normal are pinned down exactly.

use crate::fixed::div_i128_wide;
use crate::fixed::fdiv;
use crate::fixed::fix_mul;
use crate::fixed::fmul;
use crate::fixed::isqrt;
use crate::fixed::lemma_fmul_bound;
use crate::fixed::mag;
use crate::fixed::sqrt_floor;
use crate::fixed::SCALE;
use crate::hit_record::oriented_hit;
use crate::hit_record::HitRecord;
use crate::hit_record::HitV;
use crate::material::Material;
use crate::ray::Ray;
use crate::ray::MAX_T;
use crate::vec_three::dot3;
use crate::vec_three::vadd;
use crate::vec_three::vdivk;
use crate::vec_three::vscale;
use crate::vec_three::vsub;
use crate::vec_three::Vec3;
use crate::vec_three::MAX_COORD;
use crate::vec_three::WORLD_BOUND;
use crate::vec_three::V3;
use vstd::prelude::*;

verus! {

#[derive(Clone, Copy, Debug)]
pub enum Geometry {
    Sphere { center: Vec3, radius: i64, material: Material },
}

/// The ray parameter at which a ray from `oc = origin - center` meets the
/// sphere of the given radius, if one of the two quadratic roots lies within
/// `[t_min, t_max]` (the smaller root is preferred).
pub open spec fn sphere_root(oc: V3, dir: V3, radius: int, t_min: int, t_max: int) -> Option<int> {
    let a = dot3(dir, dir);
    let half_b = dot3(dir, oc);
    let c = dot3(oc, oc) - fmul(radius, radius);
    let disc = half_b * half_b - a * c;
    if disc < 0 {
        None
    } else {
        let sq = sqrt_floor(disc);
        let root1 = fdiv(-half_b - sq, a);
        if t_min <= root1 <= t_max {
            Some(root1)
        } else {
            let root2 = fdiv(-half_b + sq, a);
            if t_min <= root2 <= t_max {
                Some(root2)
            } else {
                None
            }
        }
    }
}

/// The full hit of a ray against a sphere: the root within the window, the
/// point reached there, and the oriented unit normal `(point - center) / radius`.
/// A hit whose point or normal leaves the representable coordinate range is
/// treated as a miss; geometrically the point lies on the sphere and the
/// normal near unit length, so admissible scenes never reach those guards.
pub open spec fn sphere_hit(
    orig: V3,
    dir: V3,
    center: V3,
    radius: int,
    t_min: int,
    t_max: int,
) -> Option<HitV> {
    match sphere_root(vsub(orig, center), dir, radius, t_min, t_max) {
        None => None,
        Some(t) => {
            let point = vadd(orig, vscale(dir, t));
            if !point.bounded(WORLD_BOUND as int) {
                None
            } else {
                let outward = vdivk(vsub(point, center), radius);
                if !outward.bounded(8 * (SCALE as int)) {
                    None
                } else {
                    Some(oriented_hit(t, point, outward, dir))
                }
            }
        },
    }
}

/// A ray that starts on a sphere's surface and points outward reports no
/// intersection within a positive window.
///
/// On the surface the constant term of the quadratic is exactly zero, so the
/// discriminant collapses to the square of the half-b term; both roots then
/// lie at or behind the ray origin, and a window starting above zero (the
/// self-intersection guard `t_min`) excludes them.
pub proof fn lemma_no_self_intersection(
    orig: V3,
    dir: V3,
    center: V3,
    radius: int,
    t_min: int,
    t_max: int,
)
    requires
        dot3(vsub(orig, center), vsub(orig, center)) == fmul(radius, radius),
        dot3(dir, vsub(orig, center)) >= 0,
        dot3(dir, dir) >= 1,
        t_min >= 1,
    ensures
        sphere_hit(orig, dir, center, radius, t_min, t_max) is None,
{
    let oc = vsub(orig, center);
    let a = dot3(dir, dir);
    let hb = dot3(dir, oc);
    let c = dot3(oc, oc) - fmul(radius, radius);
    assert(c == 0);
    assert(a * c == 0 && hb * hb >= 0 && hb * hb < (hb + 1) * (hb + 1)) by (nonlinear_arith)
        requires
            c == 0,
            hb >= 0,
    ;
    crate::fixed::lemma_sqrt_floor_unique(hb * hb, hb);
    let sq = sqrt_floor(hb * hb);
    assert((-hb - sq) * (SCALE as int) <= 0 && (-hb + sq) * (SCALE as int) == 0)
        by (nonlinear_arith)
        requires
            sq == hb,
            hb >= 0,
    ;
    crate::fixed::lemma_div_to_zero_nonpos((-hb - sq) * (SCALE as int), a);
    crate::fixed::lemma_div_to_zero_nonpos((-hb + sq) * (SCALE as int), a);
    vstd::arithmetic::div_mod::lemma_div_basics(a);
}

/// Ray-sphere intersection is translation invariant: shifting the ray origin
/// and the sphere center by the same offset leaves the reported parameter
/// unchanged, and when both configurations report a hit, the oriented normal,
/// the front-face flag and the parameter agree (the hit point moves by the
/// offset).
pub proof fn lemma_translation_invariance(
    orig: V3,
    dir: V3,
    center: V3,
    radius: int,
    t_min: int,
    t_max: int,
    shift: V3,
)
    ensures
        sphere_root(vsub(vadd(orig, shift), vadd(center, shift)), dir, radius, t_min, t_max)
            == sphere_root(vsub(orig, center), dir, radius, t_min, t_max),
        ({
            let moved = sphere_hit(vadd(orig, shift), dir, vadd(center, shift), radius, t_min, t_max);
            let fixed_frame = sphere_hit(orig, dir, center, radius, t_min, t_max);
            moved is Some && fixed_frame is Some ==> {
                &&& moved->Some_0.t == fixed_frame->Some_0.t
                &&& moved->Some_0.normal == fixed_frame->Some_0.normal
                &&& moved->Some_0.front_face == fixed_frame->Some_0.front_face
                &&& moved->Some_0.point == vadd(fixed_frame->Some_0.point, shift)
            }
        }),
{
    let oc = vsub(orig, center);
    assert(vsub(vadd(orig, shift), vadd(center, shift)) == oc);
    let rt = sphere_root(oc, dir, radius, t_min, t_max);
    if rt is Some {
        let t = rt->Some_0;
        let point = vadd(orig, vscale(dir, t));
        let moved_point = vadd(vadd(orig, shift), vscale(dir, t));
        assert(moved_point == vadd(point, shift));
        assert(vsub(moved_point, vadd(center, shift)) == vsub(point, center));
    }
}

impl Geometry {
    /// Validity of a scene object: position within the world bound, a
    /// strictly positive radius, and a valid material.
    pub open spec fn wf(self) -> bool {
        match self {
            Geometry::Sphere { center, radius, material } => {
                &&& center@.bounded(WORLD_BOUND as int)
                &&& 0 < radius <= WORLD_BOUND
                &&& material.wf()
            },
        }
    }

    /// The nearest intersection of `ray` with this object within
    /// `[t_min, t_max]`, with the material to scatter by.
    pub fn hit(&self, ray: &Ray, t_min: i64, t_max: i64) -> (r: Option<(HitRecord, Material)>)
        requires
            self.wf(),
            ray.origin@.bounded(WORLD_BOUND as int),
            ray.direction@.bounded(MAX_COORD as int),
            dot3(ray.direction@, ray.direction@) >= 1,
            0 <= t_min <= t_max <= MAX_T,
        ensures
            match *self {
                Geometry::Sphere { center, radius, material } => match r {
                    Some((rec, mat)) => {
                        &&& Some(rec@) == sphere_hit(
                            ray.origin@,
                            ray.direction@,
                            center@,
                            radius as int,
                            t_min as int,
                            t_max as int,
                        )
                        &&& mat == material
                        &&& rec.point@.bounded(WORLD_BOUND as int)
                        &&& rec.normal@.bounded(8 * (SCALE as int))
                        &&& t_min <= rec.t <= t_max
                        &&& dot3(ray.direction@, rec.normal@) <= 0
                    },
                    None => sphere_hit(
                        ray.origin@,
                        ray.direction@,
                        center@,
                        radius as int,
                        t_min as int,
                        t_max as int,
                    ) is None,
                },
            },
    {
        match self {
            Geometry::Sphere { center, radius, material } => {
                match Geometry::hit_sphere(ray, t_min, t_max, center, *radius) {
                    Some(hit_record) => Some((hit_record, *material)),
                    None => None,
                }
            },
        }
    }

    /// The axis-aligned box enclosing this object: for a sphere, the cube
    /// of half-width `radius` around the center.
    pub fn bounding_box(&self) -> (r: Option<crate::aabb::AABB>)
        requires
            self.wf(),
        ensures
            match (r, *self) {
                (Some(bb), Geometry::Sphere { center, radius, material }) => {
                    &&& bb.minimum@ == vsub(center@, (V3 { x: radius as int, y: radius as int, z: radius as int }))
                    &&& bb.maximum@ == vadd(center@, (V3 { x: radius as int, y: radius as int, z: radius as int }))
                },
                (None, _) => false,
            },
    {
        match self {
            Geometry::Sphere { center, radius, material: _ } => {
                let extent = Vec3::new(*radius, *radius, *radius);
                Some(
                    crate::aabb::AABB { minimum: center.sub(extent), maximum: center.add(extent) },
                )
            },
        }
    }

    /// Solves the intersection quadratic
    /// `t^2 (d . d) + 2 t (d . oc) + (oc . oc - r^2) = 0`
    /// and builds the hit record at the chosen root.
    fn hit_sphere(ray: &Ray, t_min: i64, t_max: i64, center: &Vec3, radius: i64) -> (r: Option<
        HitRecord,
    >)
        requires
            ray.origin@.bounded(WORLD_BOUND as int),
            ray.direction@.bounded(MAX_COORD as int),
            dot3(ray.direction@, ray.direction@) >= 1,
            center@.bounded(WORLD_BOUND as int),
            0 < radius <= WORLD_BOUND,
            0 <= t_min <= t_max <= MAX_T,
        ensures
            match r {
                Some(rec) => {
                    &&& Some(rec@) == sphere_hit(
                        ray.origin@,
                        ray.direction@,
                        center@,
                        radius as int,
                        t_min as int,
                        t_max as int,
                    )
                    &&& rec.point@.bounded(WORLD_BOUND as int)
                    &&& rec.normal@.bounded(8 * (SCALE as int))
                    &&& t_min <= rec.t <= t_max
                    &&& dot3(ray.direction@, rec.normal@) <= 0
                },
                None => sphere_hit(
                    ray.origin@,
                    ray.direction@,
                    center@,
                    radius as int,
                    t_min as int,
                    t_max as int,
                ) is None,
            },
    {
        let origin_to_center = ray.origin.sub(*center);
        let a = ray.direction.length_squared();
        let half_b = Vec3::dot(&ray.direction, &origin_to_center);
        let oc_len_sq = origin_to_center.length_squared();
        proof {
            assert(3 * (0x40_0000_0000int) * 0x40_0000_0000 <= (SCALE as int)
                * 0x3000_0000_0000_0000) by (nonlinear_arith)
                requires
                    SCALE as int == 65536,
            ;
            crate::vec_three::lemma_vdot_bound(
                ray.direction@,
                ray.direction@,
                0x40_0000_0000,
                0x40_0000_0000,
                0x3000_0000_0000_0000,
            );
            crate::vec_three::lemma_vdot_bound(
                ray.direction@,
                origin_to_center@,
                0x40_0000_0000,
                0x40_0000_0000,
                0x3000_0000_0000_0000,
            );
            crate::vec_three::lemma_vdot_bound(
                origin_to_center@,
                origin_to_center@,
                0x40_0000_0000,
                0x40_0000_0000,
                0x3000_0000_0000_0000,
            );
            assert((WORLD_BOUND as int) * (WORLD_BOUND as int) <= (SCALE as int)
                * 0x400_0000_0000_0000) by (nonlinear_arith)
                requires
                    WORLD_BOUND as int == 0x20_0000_0000,
                    SCALE as int == 65536,
            ;
            lemma_fmul_bound(
                radius as int,
                radius as int,
                WORLD_BOUND as int,
                WORLD_BOUND as int,
                0x400_0000_0000_0000,
            );
        }
        let r_sq = fix_mul(radius, radius);
        let c_term = oc_len_sq - r_sq;
        let hb_wide: i128 = half_b as i128;
        let a_wide: i128 = a as i128;
        let c_wide: i128 = c_term as i128;
        proof {
            assert(mag(hb_wide as int * hb_wide as int) < 0x4000_0000_0000_0000_0000_0000_0000_0000
                && mag(a_wide as int * c_wide as int)
                < 0x4000_0000_0000_0000_0000_0000_0000_0000) by (nonlinear_arith)
                requires
                    mag(hb_wide as int) <= 0x3000_0000_0000_0000,
                    mag(a_wide as int) <= 0x3000_0000_0000_0000,
                    mag(c_wide as int) <= 0x4000_0000_0000_0000,
            ;
        }
        let discriminant: i128 = hb_wide * hb_wide - a_wide * c_wide;
        if discriminant < 0 {
            return None;
        }
        let sq_wide = isqrt(discriminant as u128);
        proof {
            if sq_wide as int > 0x8000_0000_0000_0000 {
                assert((sq_wide as int) * (sq_wide as int) > 0x8000_0000_0000_0000
                    * 0x8000_0000_0000_0000) by (nonlinear_arith)
                    requires
                        sq_wide as int > 0x8000_0000_0000_0000,
                ;
            }
        }
        let sq: i128 = sq_wide as i128;
        let root1: i128 = div_i128_wide((-hb_wide - sq) * 65536, a_wide);
        let root: i128 = if (t_min as i128) <= root1 && root1 <= (t_max as i128) {
            root1
        } else {
            let root2: i128 = div_i128_wide((-hb_wide + sq) * 65536, a_wide);
            if (t_min as i128) <= root2 && root2 <= (t_max as i128) {
                root2
            } else {
                return None;
            }
        };
        let t = root as i64;
        proof {
            assert(mag(ray.direction@.x * (t as int)) <= i64::MAX * (SCALE as int) && mag(
                ray.direction@.y * (t as int),
            ) <= i64::MAX * (SCALE as int) && mag(ray.direction@.z * (t as int)) <= i64::MAX * (
            SCALE as int)) by (nonlinear_arith)
                requires
                    mag(ray.direction@.x) <= 0x40_0000_0000,
                    mag(ray.direction@.y) <= 0x40_0000_0000,
                    mag(ray.direction@.z) <= 0x40_0000_0000,
                    0 <= t as int <= 0x10_0000_0000,
            ;
            assert(mag(fmul(ray.direction@.x, t as int)) <= 0x4000_0000_0000_0000int && mag(
                fmul(ray.direction@.y, t as int),
            ) <= 0x4000_0000_0000_0000int && mag(fmul(ray.direction@.z, t as int))
                <= 0x4000_0000_0000_0000int) by {
                assert((0x40_0000_0000 as int) * (0x10_0000_0000 as int) <= (SCALE as int)
                    * 0x4000_0000_0000_0000) by (nonlinear_arith)
                    requires
                        SCALE as int == 65536,
                ;
                lemma_fmul_bound(
                    ray.direction@.x,
                    t as int,
                    0x40_0000_0000,
                    0x10_0000_0000,
                    0x4000_0000_0000_0000,
                );
                lemma_fmul_bound(
                    ray.direction@.y,
                    t as int,
                    0x40_0000_0000,
                    0x10_0000_0000,
                    0x4000_0000_0000_0000,
                );
                lemma_fmul_bound(
                    ray.direction@.z,
                    t as int,
                    0x40_0000_0000,
                    0x10_0000_0000,
                    0x4000_0000_0000_0000,
                );
            }
        }
        let point = ray.at(t);
        if !point.in_bounds(WORLD_BOUND) {
            return None;
        }
        let point_to_center = point.sub(*center);
        let outward_normal = point_to_center.div_scale(radius);
        if !outward_normal.in_bounds(8 * SCALE) {
            return None;
        }
        Some(HitRecord::new(t, &point, &outward_normal, ray))
    }
}

} // verus!
