//! Rays: an origin plus a direction, parametrized by a fixed-point `t`.

use crate::fixed::mag;
use crate::fixed::SCALE;
use crate::vec_three::vadd;
use crate::vec_three::vscale;
use crate::vec_three::Vec3;
use crate::vec_three::V3;
use vstd::prelude::*;

verus! {

/// Upper bound on the ray parameters the renderer traces: far beyond any
/// admissible scene coordinate, yet small enough that `origin + direction * t`
/// never overflows.
pub const MAX_T: i64 = 0x10_0000_0000;

#[derive(Clone, Copy, Debug)]
pub struct Ray {
    pub origin: Vec3,
    pub direction: Vec3,
}

/// The mathematical model of a ray.
pub struct RayV {
    pub origin: V3,
    pub direction: V3,
}

impl View for Ray {
    type V = RayV;

    open spec fn view(&self) -> RayV {
        RayV { origin: self.origin@, direction: self.direction@ }
    }
}

/// The point reached after travelling `t` along the ray.
pub open spec fn ray_at(r: RayV, t: int) -> V3 {
    vadd(r.origin, vscale(r.direction, t))
}

impl Ray {
    pub fn from(origin: &Vec3, direction: &Vec3) -> (r: Ray)
        ensures
            r.origin == *origin,
            r.direction == *direction,
    {
        Ray { origin: Vec3::from(origin), direction: Vec3::from(direction) }
    }

    /// Evaluation of the ray at parameter `t`.
    pub fn at(&self, t: i64) -> (r: Vec3)
        requires
            mag(self.direction@.x * t) <= i64::MAX * (SCALE as int),
            mag(self.direction@.y * t) <= i64::MAX * (SCALE as int),
            mag(self.direction@.z * t) <= i64::MAX * (SCALE as int),
            vadd(self.origin@, vscale(self.direction@, t as int)).fits(),
        ensures
            r@ == ray_at(self@, t as int),
    {
        self.origin.add(self.direction.scale(t))
    }
}

} // verus!
