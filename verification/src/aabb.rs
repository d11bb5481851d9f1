//! Axis-aligned bounding boxes: the slab intersection test and the union of
//! two boxes.  The box is an unused building block of a future acceleration
//! structure; no traversal is built on it.

use crate::fixed::fdiv;
use crate::fixed::fix_div;
use crate::fixed::mag;
use crate::fixed::SCALE;
use crate::ray::Ray;
use crate::vec_three::Vec3;
use crate::vec_three::WORLD_BOUND;
use crate::vec_three::V3;
use vstd::math::max;
use vstd::math::min;
use vstd::prelude::*;

verus! {

#[derive(Clone, Copy, Debug)]
pub struct AABB {
    pub minimum: Vec3,
    pub maximum: Vec3,
}

/// One axis of the slab test: the entry and exit parameters of the ray
/// through the slab `[lo, hi]`, intersected with the running interval.
pub open spec fn slab_axis(lo: int, hi: int, o: int, d: int, t_lo: int, t_hi: int) -> (int, int)
    recommends
        d != 0,
{
    let e0 = fdiv(lo - o, d);
    let e1 = fdiv(hi - o, d);
    (max(t_lo, min(e0, e1)), min(t_hi, max(e0, e1)))
}

/// The slab test over all three axes: whether the ray meets the box within
/// `[t_min, t_max]`.
pub open spec fn slab_hit(
    minimum: V3,
    maximum: V3,
    orig: V3,
    dir: V3,
    t_min: int,
    t_max: int,
) -> bool
    recommends
        dir.x != 0 && dir.y != 0 && dir.z != 0,
{
    let ix = slab_axis(minimum.x, maximum.x, orig.x, dir.x, t_min, t_max);
    if ix.1 < ix.0 {
        false
    } else {
        let iy = slab_axis(minimum.y, maximum.y, orig.y, dir.y, ix.0, ix.1);
        if iy.1 < iy.0 {
            false
        } else {
            let iz = slab_axis(minimum.z, maximum.z, orig.z, dir.z, iy.0, iy.1);
            !(iz.1 < iz.0)
        }
    }
}

impl AABB {
    /// Whether `ray` meets this box within `[t_min, t_max]`, by narrowing
    /// the parameter interval through each axis slab in turn.  The ray's
    /// direction must not be parallel to any axis.
    pub fn hit(&self, ray: &Ray, t_min: i64, t_max: i64) -> (r: bool)
        requires
            self.minimum@.bounded(WORLD_BOUND as int),
            self.maximum@.bounded(WORLD_BOUND as int),
            ray.origin@.bounded(WORLD_BOUND as int),
            ray.direction.x != 0,
            ray.direction.y != 0,
            ray.direction.z != 0,
        ensures
            r == slab_hit(
                self.minimum@,
                self.maximum@,
                ray.origin@,
                ray.direction@,
                t_min as int,
                t_max as int,
            ),
    {
        proof {
            lemma_axis_div_fits(self.minimum@.x, self.maximum@.x, ray.origin@.x, ray.direction@.x);
            lemma_axis_div_fits(self.minimum@.y, self.maximum@.y, ray.origin@.y, ray.direction@.y);
            lemma_axis_div_fits(self.minimum@.z, self.maximum@.z, ray.origin@.z, ray.direction@.z);
        }
        let mut t_min_found = t_min;
        let mut t_max_found = t_max;
        let ex0 = fix_div(self.minimum.x - ray.origin.x, ray.direction.x);
        let ex1 = fix_div(self.maximum.x - ray.origin.x, ray.direction.x);
        t_min_found = max_i64(t_min_found, min_i64(ex0, ex1));
        t_max_found = min_i64(t_max_found, max_i64(ex0, ex1));
        if t_max_found < t_min_found {
            return false;
        }
        let ey0 = fix_div(self.minimum.y - ray.origin.y, ray.direction.y);
        let ey1 = fix_div(self.maximum.y - ray.origin.y, ray.direction.y);
        t_min_found = max_i64(t_min_found, min_i64(ey0, ey1));
        t_max_found = min_i64(t_max_found, max_i64(ey0, ey1));
        if t_max_found < t_min_found {
            return false;
        }
        let ez0 = fix_div(self.minimum.z - ray.origin.z, ray.direction.z);
        let ez1 = fix_div(self.maximum.z - ray.origin.z, ray.direction.z);
        t_min_found = max_i64(t_min_found, min_i64(ez0, ez1));
        t_max_found = min_i64(t_max_found, max_i64(ez0, ez1));
        !(t_max_found < t_min_found)
    }

    /// The smallest box containing two boxes: the componentwise minimum and
    /// maximum of the corners.
    pub fn surrounding_box(box_0: &AABB, box_1: &AABB) -> (r: AABB)
        ensures
            r.minimum@.x == min(box_0.minimum@.x, box_1.minimum@.x),
            r.minimum@.y == min(box_0.minimum@.y, box_1.minimum@.y),
            r.minimum@.z == min(box_0.minimum@.z, box_1.minimum@.z),
            r.maximum@.x == max(box_0.maximum@.x, box_1.maximum@.x),
            r.maximum@.y == max(box_0.maximum@.y, box_1.maximum@.y),
            r.maximum@.z == max(box_0.maximum@.z, box_1.maximum@.z),
    {
        let minimum = Vec3::new(
            min_i64(box_0.minimum.x, box_1.minimum.x),
            min_i64(box_0.minimum.y, box_1.minimum.y),
            min_i64(box_0.minimum.z, box_1.minimum.z),
        );
        let maximum = Vec3::new(
            max_i64(box_0.maximum.x, box_1.maximum.x),
            max_i64(box_0.maximum.y, box_1.maximum.y),
            max_i64(box_0.maximum.z, box_1.maximum.z),
        );
        AABB { minimum, maximum }
    }
}

/// Every slab division of world-bounded coordinates is admissible for
/// `fix_div`.
proof fn lemma_axis_div_fits(lo: int, hi: int, o: int, d: int)
    requires
        mag(lo) <= WORLD_BOUND as int,
        mag(hi) <= WORLD_BOUND as int,
        mag(o) <= WORLD_BOUND as int,
        d != 0,
    ensures
        mag(lo - o) * (SCALE as int) <= i64::MAX * mag(d),
        mag(hi - o) * (SCALE as int) <= i64::MAX * mag(d),
{
    assert(mag(lo - o) * (SCALE as int) <= i64::MAX && mag(hi - o) * (SCALE as int) <= i64::MAX)
        by (nonlinear_arith)
        requires
            mag(lo - o) <= 2 * (WORLD_BOUND as int),
            mag(hi - o) <= 2 * (WORLD_BOUND as int),
            WORLD_BOUND as int == 0x20_0000_0000,
            SCALE as int == 65536,
    ;
    assert(i64::MAX * 1 <= i64::MAX * mag(d)) by (nonlinear_arith)
        requires
            mag(d) >= 1,
    ;
}

fn min_i64(a: i64, b: i64) -> (r: i64)
    ensures
        r as int == min(a as int, b as int),
{
    if a <= b {
        a
    } else {
        b
    }
}

fn max_i64(a: i64, b: i64) -> (r: i64)
    ensures
        r as int == max(a as int, b as int),
{
    if a >= b {
        a
    } else {
        b
    }
}

} // verus!
