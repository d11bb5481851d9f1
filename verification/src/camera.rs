//! The camera: maps normalized image-plane coordinates to world-space rays,
//! with a finite-aperture lens model for depth of field.
//!
//! The camera is built once from its configuration and is immutable
//! afterwards.  The vertical extent of the viewport is given as the tangent
//! of half the vertical field of view, a plain fixed-point scalar the caller
//! provides.

use crate::fixed::fix_mul;
use crate::fixed::fmul;
use crate::fixed::mag;
use crate::fixed::SCALE;
use crate::ray::Ray;
use crate::vec_three::dot3;
use crate::vec_three::vadd;
use crate::vec_three::vcross;
use crate::vec_three::vscale;
use crate::vec_three::vsub;
use crate::vec_three::vunit;
use crate::vec_three::Vec3;
use crate::vec_three::V3;
use vstd::prelude::*;

verus! {

/// Camera positions stay within this bound.
pub const CAMERA_POS_BOUND: i64 = 0x2_0000_0000;

/// Focus distances stay within this bound (the real value 256).
pub const MAX_FOCUS_DIST: i64 = 0x100_0000;

#[derive(Clone, Copy, Debug)]
pub struct Camera {
    pub origin: Vec3,
    pub horizontal: Vec3,
    pub vertical: Vec3,
    pub lower_left_corner: Vec3,
    pub basis_u: Vec3,
    pub basis_v: Vec3,
    pub lens_radius: i64,
}

/// Everything the camera's configuration must satisfy so that ray
/// generation stays within the representable ranges: positions within the
/// camera bound, a nondegenerate viewing direction, an up vector that is
/// neither tiny nor parallel to it, and moderate viewport parameters.
pub open spec fn camera_config_ok(
    aspect_ratio: int,
    half_height: int,
    look_from: V3,
    look_at: V3,
    vup: V3,
    aperture: int,
    focus_dist: int,
) -> bool {
    let s = SCALE as int;
    let w = vunit(vsub(look_from, look_at));
    let cu = vcross(vup, w);
    &&& look_from.bounded(CAMERA_POS_BOUND as int)
    &&& look_at.bounded(CAMERA_POS_BOUND as int)
    &&& vup.bounded(4 * s)
    &&& dot3(vsub(look_from, look_at), vsub(look_from, look_at)) >= 1
    &&& dot3(cu, cu) >= 1
    &&& 0 < half_height <= 8 * s
    &&& 0 < aspect_ratio <= 8 * s
    &&& 0 <= aperture <= 8 * s
    &&& 0 < focus_dist <= MAX_FOCUS_DIST as int
}

impl Camera {
    /// Bounds on the precomputed vectors that every generated ray relies on.
    pub open spec fn wf(self) -> bool {
        let s = SCALE as int;
        &&& self.origin@.bounded(0x4_0000_0000)
        &&& self.horizontal@.bounded(0x8_0000_0000)
        &&& self.vertical@.bounded(0x8_0000_0000)
        &&& self.lower_left_corner@.bounded(0x10_0000_0000)
        &&& self.basis_u@.bounded(32 * s)
        &&& self.basis_v@.bounded(32 * s)
        &&& 0 <= self.lens_radius <= 8 * s
    }

    /// Builds the camera from its configuration.  `half_height` is the
    /// tangent of half the vertical field of view as a fixed-point scalar.
    #[verifier::rlimit(100)]
    pub fn new(
        aspect_ratio: i64,
        half_height: i64,
        look_from: &Vec3,
        look_at: &Vec3,
        vup: &Vec3,
        aperture: i64,
        focus_dist: i64,
    ) -> (r: Camera)
        requires
            camera_config_ok(
                aspect_ratio as int,
                half_height as int,
                look_from@,
                look_at@,
                vup@,
                aperture as int,
                focus_dist as int,
            ),
        ensures
            r.wf(),
            ({
                let w = vunit(vsub(look_from@, look_at@));
                let u = vunit(vcross(vup@, w));
                let v = vcross(w, u);
                let viewport_width = fmul(2 * half_height, aspect_ratio as int);
                let horizontal = vscale(vscale(u, viewport_width), focus_dist as int);
                let vertical = vscale(vscale(v, 2 * half_height), focus_dist as int);
                &&& r.origin == *look_from
                &&& r.basis_u@ == u
                &&& r.basis_v@ == v
                &&& r.horizontal@ == horizontal
                &&& r.vertical@ == vertical
                &&& r.lower_left_corner@ == vsub(
                    vsub(
                        vsub(look_from@, vscale(horizontal, 32768)),
                        vscale(vertical, 32768),
                    ),
                    vscale(w, focus_dist as int),
                )
                &&& r.lens_radius as int == fmul(aperture as int, 32768)
            }),
    {
        let ghost s: int = SCALE as int;
        let viewport_height = 2 * half_height;
        proof {
            assert(s == 65536);
            assert(mag((viewport_height as int) * (aspect_ratio as int)) <= (SCALE as int) * (128
                * s)) by (nonlinear_arith)
                requires
                    s == 65536,
                    0 < viewport_height as int <= 16 * s,
                    0 < aspect_ratio as int <= 8 * s,
            ;
        }
        let viewport_width = fix_mul(viewport_height, aspect_ratio);
        let direction = look_from.sub(*look_at);
        let w = direction.unit_vector();
        let cross_up = Vec3::cross(vup, &w);
        proof {
            crate::vec_three::lemma_vscale_bound(vup@, 0, 4 * s, 0, 0);
            assert(3 * (4 * s) * (3 * s) <= s * (36 * s)) by (nonlinear_arith);
            crate::vec_three::lemma_vdot_bound(vup@, w@, 4 * s, 3 * s, 36 * s);
            assert((4 * s) * (3 * s) <= s * (12 * s)) by (nonlinear_arith);
            crate::fixed::lemma_fmul_bound(vup@.y, w@.z, 4 * s, 3 * s, 12 * s);
            crate::fixed::lemma_fmul_bound(vup@.z, w@.y, 4 * s, 3 * s, 12 * s);
            crate::fixed::lemma_fmul_bound(vup@.z, w@.x, 4 * s, 3 * s, 12 * s);
            crate::fixed::lemma_fmul_bound(vup@.x, w@.z, 4 * s, 3 * s, 12 * s);
            crate::fixed::lemma_fmul_bound(vup@.x, w@.y, 4 * s, 3 * s, 12 * s);
            crate::fixed::lemma_fmul_bound(vup@.y, w@.x, 4 * s, 3 * s, 12 * s);
        }
        let u = cross_up.unit_vector();
        let v = Vec3::cross(&w, &u);
        proof {
            assert((3 * s) * (3 * s) <= s * (9 * s)) by (nonlinear_arith);
            crate::fixed::lemma_fmul_bound(w@.y, u@.z, 3 * s, 3 * s, 9 * s);
            crate::fixed::lemma_fmul_bound(w@.z, u@.y, 3 * s, 3 * s, 9 * s);
            crate::fixed::lemma_fmul_bound(w@.z, u@.x, 3 * s, 3 * s, 9 * s);
            crate::fixed::lemma_fmul_bound(w@.x, u@.z, 3 * s, 3 * s, 9 * s);
            crate::fixed::lemma_fmul_bound(w@.x, u@.y, 3 * s, 3 * s, 9 * s);
            crate::fixed::lemma_fmul_bound(w@.y, u@.x, 3 * s, 3 * s, 9 * s);
            assert((3 * s) * (128 * s) <= s * (384 * s)) by (nonlinear_arith);
            crate::vec_three::lemma_vscale_bound(u@, viewport_width as int, 3 * s, 128 * s, 384 * s);
            assert((18 * s) * (16 * s) <= s * (288 * s)) by (nonlinear_arith);
            crate::vec_three::lemma_vscale_bound(
                v@,
                viewport_height as int,
                18 * s,
                16 * s,
                288 * s,
            );
        }
        let origin = Vec3::from(look_from);
        let horizontal_unit = u.scale(viewport_width);
        let vertical_unit = v.scale(viewport_height);
        proof {
            assert((384 * s) * (MAX_FOCUS_DIST as int) <= s * (0x8_0000_0000int))
                by (nonlinear_arith)
                requires
                    s == 65536,
            ;
            crate::vec_three::lemma_vscale_bound(
                horizontal_unit@,
                focus_dist as int,
                384 * s,
                MAX_FOCUS_DIST as int,
                0x8_0000_0000,
            );
            assert((288 * s) * (MAX_FOCUS_DIST as int) <= s * (0x8_0000_0000int))
                by (nonlinear_arith)
                requires
                    s == 65536,
            ;
            crate::vec_three::lemma_vscale_bound(
                vertical_unit@,
                focus_dist as int,
                288 * s,
                MAX_FOCUS_DIST as int,
                0x8_0000_0000,
            );
            assert((3 * s) * (MAX_FOCUS_DIST as int) <= s * (0x300_0000int))
                by (nonlinear_arith)
                requires
                    s == 65536,
            ;
            crate::vec_three::lemma_vscale_bound(
                w@,
                focus_dist as int,
                3 * s,
                MAX_FOCUS_DIST as int,
                0x300_0000,
            );
        }
        let horizontal = horizontal_unit.scale(focus_dist);
        let vertical = vertical_unit.scale(focus_dist);
        let w_focus = w.scale(focus_dist);
        proof {
            assert((0x8_0000_0000int) * 32768 <= s * (0x4_0000_0000int)) by (nonlinear_arith)
                requires
                    s == 65536,
            ;
            crate::vec_three::lemma_vscale_bound(
                horizontal@,
                32768,
                0x8_0000_0000,
                32768,
                0x4_0000_0000,
            );
            crate::vec_three::lemma_vscale_bound(
                vertical@,
                32768,
                0x8_0000_0000,
                32768,
                0x4_0000_0000,
            );
        }
        let half_horizontal = horizontal.scale(32768);
        let half_vertical = vertical.scale(32768);
        let lower_left_corner = origin.sub(half_horizontal).sub(half_vertical).sub(w_focus);
        proof {
            assert((8 * s) * 32768 <= s * (4 * s)) by (nonlinear_arith)
                requires
                    s == 65536,
            ;
            crate::fixed::lemma_fmul_bound(aperture as int, 32768, 8 * s, 32768, 4 * s);
        }
        let lens_radius = fix_mul(aperture, 32768);
        proof {
            crate::fixed::lemma_div_to_zero_mag((aperture as int) * 32768, s);
        }
        Camera {
            origin,
            horizontal,
            vertical,
            lower_left_corner,
            basis_u: u,
            basis_v: v,
            lens_radius,
        }
    }

    /// Builds the camera only when the configuration is admissible,
    /// checking every condition at runtime.
    pub fn try_new(
        aspect_ratio: i64,
        half_height: i64,
        look_from: &Vec3,
        look_at: &Vec3,
        vup: &Vec3,
        aperture: i64,
        focus_dist: i64,
    ) -> (r: Option<Camera>)
        ensures
            r is Some <==> camera_config_ok(
                aspect_ratio as int,
                half_height as int,
                look_from@,
                look_at@,
                vup@,
                aperture as int,
                focus_dist as int,
            ),
            r is Some ==> r->Some_0.wf(),
    {
        let ghost s: int = SCALE as int;
        if !(look_from.in_bounds(CAMERA_POS_BOUND) && look_at.in_bounds(CAMERA_POS_BOUND)
            && vup.in_bounds(4 * SCALE) && 0 < half_height && half_height <= 8 * SCALE
            && 0 < aspect_ratio && aspect_ratio <= 8 * SCALE && 0 <= aperture && aperture <= 8
            * SCALE && 0 < focus_dist && focus_dist <= MAX_FOCUS_DIST) {
            return None;
        }
        let direction = look_from.sub(*look_at);
        if direction.length_squared() < 1 {
            return None;
        }
        let w = direction.unit_vector();
        let cross_up = Vec3::cross(vup, &w);
        proof {
            assert((4 * s) * (3 * s) <= s * (12 * s)) by (nonlinear_arith);
            crate::fixed::lemma_fmul_bound(vup@.y, w@.z, 4 * s, 3 * s, 12 * s);
            crate::fixed::lemma_fmul_bound(vup@.z, w@.y, 4 * s, 3 * s, 12 * s);
            crate::fixed::lemma_fmul_bound(vup@.z, w@.x, 4 * s, 3 * s, 12 * s);
            crate::fixed::lemma_fmul_bound(vup@.x, w@.z, 4 * s, 3 * s, 12 * s);
            crate::fixed::lemma_fmul_bound(vup@.x, w@.y, 4 * s, 3 * s, 12 * s);
            crate::fixed::lemma_fmul_bound(vup@.y, w@.x, 4 * s, 3 * s, 12 * s);
        }
        if cross_up.length_squared() < 1 {
            return None;
        }
        Some(
            Camera::new(aspect_ratio, half_height, look_from, look_at, vup, aperture, focus_dist),
        )
    }

    /// The ray through normalized image coordinates `(s_coord, t_coord)`,
    /// with its origin jittered over the lens disk for depth of field.
    pub fn get_origin_ray(&self, s_coord: i64, t_coord: i64) -> (r: Ray)
        requires
            self.wf(),
            -(SCALE as int) <= s_coord <= 2 * (SCALE as int),
            -(SCALE as int) <= t_coord <= 2 * (SCALE as int),
        ensures
            r.origin@.bounded(0x8_0000_0000),
            r.direction@.bounded(0x40_0000_0000),
    {
        let disk = Vec3::random_in_unit_disk();
        self.ray_for(s_coord, t_coord, &disk)
    }

    /// The deterministic part of ray generation, taking the sampled lens
    /// disk point as an argument: the ray starts at the origin offset by the
    /// lens sample projected on the camera basis, and aims at the viewport
    /// point `lower_left + horizontal * s + vertical * t`.
    #[verifier::rlimit(60)]
    pub fn ray_for(&self, s_coord: i64, t_coord: i64, disk: &Vec3) -> (r: Ray)
        requires
            self.wf(),
            -(SCALE as int) <= s_coord <= 2 * (SCALE as int),
            -(SCALE as int) <= t_coord <= 2 * (SCALE as int),
            disk@.bounded(SCALE as int),
        ensures
            ({
                let rd = vscale(disk@, self.lens_radius as int);
                let offset = vadd(
                    vscale(self.basis_u@, rd.x),
                    vscale(self.basis_v@, rd.y),
                );
                let org = vadd(self.origin@, offset);
                &&& r.origin@ == org
                &&& r.direction@ == vsub(
                    vadd(
                        vadd(self.lower_left_corner@, vscale(self.horizontal@, s_coord as int)),
                        vscale(self.vertical@, t_coord as int),
                    ),
                    org,
                )
            }),
            r.origin@.bounded(0x8_0000_0000),
            r.direction@.bounded(0x40_0000_0000),
    {
        let ghost s: int = SCALE as int;
        proof {
            assert(s == 65536);
            assert(s * (8 * s) <= s * (8 * s)) by (nonlinear_arith);
            crate::vec_three::lemma_vscale_bound(
                disk@,
                self.lens_radius as int,
                s,
                8 * s,
                8 * s,
            );
        }
        let rd = disk.scale(self.lens_radius);
        proof {
            assert((32 * s) * (8 * s) <= s * (256 * s)) by (nonlinear_arith);
            crate::vec_three::lemma_vscale_bound(self.basis_u@, rd@.x, 32 * s, 8 * s, 256 * s);
            crate::vec_three::lemma_vscale_bound(self.basis_v@, rd@.y, 32 * s, 8 * s, 256 * s);
        }
        let offset = self.basis_u.scale(rd.x).add(self.basis_v.scale(rd.y));
        let new_origin = self.origin.add(offset);
        proof {
            assert((0x8_0000_0000int) * (2 * s) <= s * (0x10_0000_0000int)) by (nonlinear_arith)
                requires
                    s == 65536,
            ;
            crate::vec_three::lemma_vscale_bound(
                self.horizontal@,
                s_coord as int,
                0x8_0000_0000,
                2 * s,
                0x10_0000_0000,
            );
            crate::vec_three::lemma_vscale_bound(
                self.vertical@,
                t_coord as int,
                0x8_0000_0000,
                2 * s,
                0x10_0000_0000,
            );
        }
        let direction = self
            .lower_left_corner
            .add(self.horizontal.scale(s_coord))
            .add(self.vertical.scale(t_coord))
            .sub(new_origin);
        Ray { origin: new_origin, direction }
    }
}

} // verus!
