//! Hit records: the result of a ray meeting a surface.
//!
//! The stored normal is always oriented against the incoming ray: the record
//! keeps the outward geometric normal when it already opposes the ray, and its
//! negation otherwise.  The orientation claim `dot(normal, direction) <= 0`
//! is part of the constructor's contract.

use crate::fixed::lemma_div_to_zero_neg;
use crate::fixed::SCALE;
use crate::ray::Ray;
use crate::vec_three::dot3;
use crate::vec_three::vneg;
use crate::vec_three::Vec3;
use crate::vec_three::MAX_COORD;
use crate::vec_three::V3;
use vstd::prelude::*;

verus! {

#[derive(Clone, Copy, Debug)]
pub struct HitRecord {
    pub point: Vec3,
    pub normal: Vec3,
    pub t: i64,
    pub front_face: bool,
}

/// The mathematical model of a hit record.
pub struct HitV {
    pub point: V3,
    pub normal: V3,
    pub t: int,
    pub front_face: bool,
}

impl View for HitRecord {
    type V = HitV;

    open spec fn view(&self) -> HitV {
        HitV { point: self.point@, normal: self.normal@, t: self.t as int, front_face: self.front_face }
    }
}

/// The record built for a hit at parameter `t` with outward normal `outward`:
/// the normal is flipped to oppose the ray direction `dir`.
pub open spec fn oriented_hit(t: int, point: V3, outward: V3, dir: V3) -> HitV {
    if dot3(dir, outward) > 0 {
        HitV { t, point, normal: vneg(outward), front_face: false }
    } else {
        HitV { t, point, normal: outward, front_face: true }
    }
}

/// Negating one dot-product operand negates the dot product.
pub proof fn lemma_dot3_neg(a: V3, b: V3)
    ensures
        dot3(a, vneg(b)) == -dot3(a, b),
{
    assert(a.x * -b.x + a.y * -b.y + a.z * -b.z == -(a.x * b.x + a.y * b.y + a.z * b.z))
        by (nonlinear_arith);
    lemma_div_to_zero_neg(a.x * b.x + a.y * b.y + a.z * b.z, SCALE as int);
}

impl HitRecord {
    /// Builds the record for a hit, orienting the normal against the ray.
    pub fn new(t: i64, point: &Vec3, outward_normal: &Vec3, ray: &Ray) -> (r: HitRecord)
        requires
            ray.direction@.bounded(MAX_COORD as int),
            outward_normal@.bounded(MAX_COORD as int),
        ensures
            r@ == oriented_hit(t as int, point@, outward_normal@, ray.direction@),
            r.t == t,
            r.point == *point,
            r.front_face == (dot3(ray.direction@, outward_normal@) <= 0),
            dot3(ray.direction@, r.normal@) <= 0,
            r.normal@.bounded(MAX_COORD as int),
    {
        proof {
            lemma_dot3_neg(ray.direction@, outward_normal@);
        }
        let mut normal = *outward_normal;
        let front_face: bool;
        if Vec3::dot(&ray.direction, outward_normal) > 0 {
            front_face = false;
            normal = normal.neg();
        } else {
            front_face = true;
        }
        HitRecord { t, point: *point, normal, front_face }
    }

    pub fn is_front_face(&self) -> (r: bool)
        ensures
            r == self.front_face,
    {
        self.front_face
    }
}

} // verus!
