//! Three-component fixed-point vectors.
//!
//! A `Vec3` serves as a point, a direction, or an RGB color whose channels
//! are fixed-point values in `[0, SCALE]`.  Each executable operation returns
//! exactly the value of its spec mirror over the mathematical model `V3`.

use crate::fixed::div_i128_to_zero;
use crate::fixed::div_to_zero;
use crate::fixed::fdiv;
use crate::fixed::fix_div;
use crate::fixed::fix_mul;
use crate::fixed::fix_sqrt;
use crate::fixed::fmul;
use crate::fixed::fsqrt;
use crate::fixed::mag;
use crate::fixed::SCALE;
use vstd::prelude::*;

verus! {

/// Coordinates, directions and radii the renderer works with stay below this
/// magnitude (the real value 2^22), which keeps every intermediate product
/// inside the integer types.
pub const MAX_COORD: i64 = 0x40_0000_0000;

/// Positions (scene centers, ray origins, hit points) stay below this
/// magnitude, half of `MAX_COORD`, so that the difference of two positions is
/// still an admissible dot-product operand.
pub const WORLD_BOUND: i64 = 0x20_0000_0000;

#[derive(Clone, Copy, Debug, PartialEq, Eq, Structural)]
pub struct Vec3 {
    pub x: i64,
    pub y: i64,
    pub z: i64,
}

/// The mathematical model of a vector: three unbounded integers.
pub struct V3 {
    pub x: int,
    pub y: int,
    pub z: int,
}

impl View for Vec3 {
    type V = V3;

    open spec fn view(&self) -> V3 {
        V3 { x: self.x as int, y: self.y as int, z: self.z as int }
    }
}

impl V3 {
    /// Every component has magnitude at most `b`.
    pub open spec fn bounded(self, b: int) -> bool {
        mag(self.x) <= b && mag(self.y) <= b && mag(self.z) <= b
    }

    /// Every component fits in an `i64`.
    pub open spec fn fits(self) -> bool {
        self.bounded(i64::MAX as int)
    }
}

pub open spec fn vadd(a: V3, b: V3) -> V3 {
    V3 { x: a.x + b.x, y: a.y + b.y, z: a.z + b.z }
}

pub open spec fn vsub(a: V3, b: V3) -> V3 {
    V3 { x: a.x - b.x, y: a.y - b.y, z: a.z - b.z }
}

pub open spec fn vneg(a: V3) -> V3 {
    V3 { x: -a.x, y: -a.y, z: -a.z }
}

/// Componentwise product with a scalar.
pub open spec fn vscale(a: V3, k: int) -> V3 {
    V3 { x: fmul(a.x, k), y: fmul(a.y, k), z: fmul(a.z, k) }
}

/// Componentwise product of two vectors (used for color attenuation).
pub open spec fn vmul3(a: V3, b: V3) -> V3 {
    V3 { x: fmul(a.x, b.x), y: fmul(a.y, b.y), z: fmul(a.z, b.z) }
}

/// Componentwise quotient by a scalar.
pub open spec fn vdivk(a: V3, k: int) -> V3
    recommends
        k != 0,
{
    V3 { x: fdiv(a.x, k), y: fdiv(a.y, k), z: fdiv(a.z, k) }
}

/// Dot product of two fixed-point vectors.
pub open spec fn dot3(a: V3, b: V3) -> int {
    div_to_zero(a.x * b.x + a.y * b.y + a.z * b.z, SCALE as int)
}

/// Length of a fixed-point vector.
pub open spec fn vlen(a: V3) -> int {
    fsqrt(dot3(a, a))
}

pub open spec fn vcross(a: V3, b: V3) -> V3 {
    V3 {
        x: fmul(a.y, b.z) - fmul(a.z, b.y),
        y: fmul(a.z, b.x) - fmul(a.x, b.z),
        z: fmul(a.x, b.y) - fmul(a.y, b.x),
    }
}

/// Normalization: each component divided by the length.
pub open spec fn vunit(a: V3) -> V3
    recommends
        vlen(a) != 0,
{
    vdivk(a, vlen(a))
}

/// Mirror reflection: `v - n * (2 * dot(v, n))`.
pub open spec fn vreflect(v: V3, n: V3) -> V3 {
    vsub(v, vscale(n, 2 * dot3(v, n)))
}

/// Snell refraction, split into the components perpendicular and parallel to
/// the normal: `r_perp = ratio * (uv + n * cos)` with `cos = min(1, -dot(uv, n))`,
/// and `r_par = -n * sqrt(|1 - |r_perp|^2|)`.
pub open spec fn vrefract(uv: V3, n: V3, ratio: int) -> V3 {
    let cos = vstd::math::min(SCALE as int, -dot3(uv, n));
    let r_perp = vscale(vadd(uv, vscale(n, cos)), ratio);
    let r_par = vscale(n, -fsqrt(mag((SCALE as int) - dot3(r_perp, r_perp))));
    vadd(r_perp, r_par)
}

/// The sum of componentwise squares is nonnegative and bounded by the
/// componentwise bounds.
pub proof fn lemma_sq_sum_bounds(a: V3, b: V3, ba: int, bb: int)
    requires
        a.bounded(ba),
        b.bounded(bb),
        0 <= ba,
        0 <= bb,
    ensures
        mag(a.x * b.x) <= ba * bb,
        mag(a.y * b.y) <= ba * bb,
        mag(a.z * b.z) <= ba * bb,
        mag(a.x * b.x + a.y * b.y + a.z * b.z) <= 3 * ba * bb,
        a == b ==> a.x * b.x + a.y * b.y + a.z * b.z >= 0,
{
    assert(mag(a.x * b.x) <= ba * bb && mag(a.y * b.y) <= ba * bb && mag(a.z * b.z) <= ba * bb)
        by (nonlinear_arith)
        requires
            mag(a.x) <= ba,
            mag(a.y) <= ba,
            mag(a.z) <= ba,
            mag(b.x) <= bb,
            mag(b.y) <= bb,
            mag(b.z) <= bb,
            0 <= ba,
            0 <= bb,
    ;
    assert(a.x * a.x >= 0 && a.y * a.y >= 0 && a.z * a.z >= 0) by (nonlinear_arith);
    assert(3 * ba * bb == 3 * (ba * bb)) by (nonlinear_arith);
}

/// Bounds for scaling a vector by a scalar: the products are admissible for
/// `fix_mul` and the scaled vector stays within `c`.
pub proof fn lemma_vscale_bound(v: V3, k: int, bv: int, bk: int, c: int)
    requires
        v.bounded(bv),
        mag(k) <= bk,
        0 <= c <= i64::MAX,
        bv * bk <= (SCALE as int) * c,
    ensures
        mag(v.x * k) <= i64::MAX * (SCALE as int),
        mag(v.y * k) <= i64::MAX * (SCALE as int),
        mag(v.z * k) <= i64::MAX * (SCALE as int),
        vscale(v, k).bounded(c),
{
    crate::fixed::lemma_fmul_bound(v.x, k, bv, bk, c);
    crate::fixed::lemma_fmul_bound(v.y, k, bv, bk, c);
    crate::fixed::lemma_fmul_bound(v.z, k, bv, bk, c);
    assert((SCALE as int) * c <= i64::MAX * (SCALE as int)) by (nonlinear_arith)
        requires
            0 <= c <= i64::MAX,
            SCALE as int == 65536,
    ;
}

/// A bound `c` on the dot product from bounds on the factors.
pub proof fn lemma_vdot_bound(a: V3, b: V3, ba: int, bb: int, c: int)
    requires
        a.bounded(ba),
        b.bounded(bb),
        0 <= ba,
        0 <= bb,
        0 <= c,
        3 * ba * bb <= (SCALE as int) * c,
    ensures
        mag(dot3(a, b)) <= c,
{
    lemma_sq_sum_bounds(a, b, ba, bb);
    crate::fixed::lemma_div_to_zero_bound(a.x * b.x + a.y * b.y + a.z * b.z, SCALE as int, c);
}

/// A dot product of vectors within `MAX_COORD` fits in an `i64`.
pub proof fn lemma_dot_in_range(a: V3, b: V3)
    requires
        a.bounded(MAX_COORD as int),
        b.bounded(MAX_COORD as int),
    ensures
        mag(a.x * b.x) <= (MAX_COORD as int) * (MAX_COORD as int),
        mag(a.y * b.y) <= (MAX_COORD as int) * (MAX_COORD as int),
        mag(a.z * b.z) <= (MAX_COORD as int) * (MAX_COORD as int),
        mag(a.x * b.x + a.y * b.y + a.z * b.z) <= 3 * (MAX_COORD as int) * (MAX_COORD as int),
        mag(dot3(a, b)) <= i64::MAX,
        a == b ==> dot3(a, b) >= 0,
{
    lemma_sq_sum_bounds(a, b, MAX_COORD as int, MAX_COORD as int);
    let s = a.x * b.x + a.y * b.y + a.z * b.z;
    assert(mag(s) / (SCALE as int) <= i64::MAX) by {
        vstd::arithmetic::div_mod::lemma_div_is_ordered(
            mag(s),
            3 * (MAX_COORD as int) * (MAX_COORD as int),
            SCALE as int,
        );
    }
}

impl Vec3 {
    /// The vector (1, 1, 1): full white as a color.
    pub fn identity() -> (r: Vec3)
        ensures
            r@ == (V3 { x: SCALE as int, y: SCALE as int, z: SCALE as int }),
    {
        Vec3 { x: SCALE, y: SCALE, z: SCALE }
    }

    pub fn zero() -> (r: Vec3)
        ensures
            r@ == (V3 { x: 0, y: 0, z: 0 }),
    {
        Vec3 { x: 0, y: 0, z: 0 }
    }

    pub fn new(x: i64, y: i64, z: i64) -> (r: Vec3)
        ensures
            r@ == (V3 { x: x as int, y: y as int, z: z as int }),
    {
        Vec3 { x, y, z }
    }

    pub fn from(vec: &Vec3) -> (r: Vec3)
        ensures
            r == *vec,
    {
        Vec3 { x: vec.x, y: vec.y, z: vec.z }
    }

    pub fn add(self, o: Vec3) -> (r: Vec3)
        requires
            vadd(self@, o@).fits(),
        ensures
            r@ == vadd(self@, o@),
    {
        Vec3 { x: self.x + o.x, y: self.y + o.y, z: self.z + o.z }
    }

    pub fn sub(self, o: Vec3) -> (r: Vec3)
        requires
            vsub(self@, o@).fits(),
        ensures
            r@ == vsub(self@, o@),
    {
        Vec3 { x: self.x - o.x, y: self.y - o.y, z: self.z - o.z }
    }

    pub fn neg(self) -> (r: Vec3)
        requires
            vneg(self@).fits(),
        ensures
            r@ == vneg(self@),
    {
        Vec3 { x: -self.x, y: -self.y, z: -self.z }
    }

    /// Scaling by a fixed-point scalar.
    pub fn scale(self, k: i64) -> (r: Vec3)
        requires
            mag(self@.x * k) <= i64::MAX * (SCALE as int),
            mag(self@.y * k) <= i64::MAX * (SCALE as int),
            mag(self@.z * k) <= i64::MAX * (SCALE as int),
        ensures
            r@ == vscale(self@, k as int),
    {
        Vec3 { x: fix_mul(self.x, k), y: fix_mul(self.y, k), z: fix_mul(self.z, k) }
    }

    /// Componentwise product, as used for color attenuation.
    pub fn mul_vec(self, o: Vec3) -> (r: Vec3)
        requires
            mag(self@.x * o@.x) <= i64::MAX * (SCALE as int),
            mag(self@.y * o@.y) <= i64::MAX * (SCALE as int),
            mag(self@.z * o@.z) <= i64::MAX * (SCALE as int),
        ensures
            r@ == vmul3(self@, o@),
    {
        Vec3 { x: fix_mul(self.x, o.x), y: fix_mul(self.y, o.y), z: fix_mul(self.z, o.z) }
    }

    /// Division by a fixed-point scalar.
    pub fn div_scale(self, k: i64) -> (r: Vec3)
        requires
            k != 0,
            mag(self@.x) * (SCALE as int) <= i64::MAX * mag(k as int),
            mag(self@.y) * (SCALE as int) <= i64::MAX * mag(k as int),
            mag(self@.z) * (SCALE as int) <= i64::MAX * mag(k as int),
        ensures
            r@ == vdivk(self@, k as int),
    {
        Vec3 { x: fix_div(self.x, k), y: fix_div(self.y, k), z: fix_div(self.z, k) }
    }

    pub fn dot(vec1: &Vec3, vec2: &Vec3) -> (r: i64)
        requires
            vec1@.bounded(MAX_COORD as int),
            vec2@.bounded(MAX_COORD as int),
        ensures
            r as int == dot3(vec1@, vec2@),
    {
        proof {
            lemma_dot_in_range(vec1@, vec2@);
        }
        let px: i128 = (vec1.x as i128) * (vec2.x as i128);
        let py: i128 = (vec1.y as i128) * (vec2.y as i128);
        let pz: i128 = (vec1.z as i128) * (vec2.z as i128);
        div_i128_to_zero(px + py + pz, 65536i128)
    }

    pub fn length_squared(self) -> (r: i64)
        requires
            self@.bounded(MAX_COORD as int),
        ensures
            r as int == dot3(self@, self@),
            r >= 0,
    {
        proof {
            lemma_dot_in_range(self@, self@);
        }
        Vec3::dot(&self, &self)
    }

    pub fn length(self) -> (r: i64)
        requires
            self@.bounded(MAX_COORD as int),
        ensures
            r as int == vlen(self@),
            r >= 0,
    {
        proof {
            lemma_dot_in_range(self@, self@);
        }
        fix_sqrt(self.length_squared())
    }

    /// Normalization.  The input must not be degenerate: its squared length
    /// has to be at least one ulp.  The result's components carry at most two
    /// units of scale (normalization of a short vector can overshoot 1.0 by
    /// the rounding of the length).
    pub fn unit_vector(self) -> (r: Vec3)
        requires
            self@.bounded(MAX_COORD as int),
            dot3(self@, self@) >= 1,
        ensures
            r@ == vunit(self@),
            r@.bounded(2 * (SCALE as int) + 256),
    {
        proof {
            lemma_unit_bounds(self@);
        }
        let length = self.length();
        self.div_scale(length)
    }

    /// True exactly when every component is zero: the fixed-point rendering
    /// of a sub-epsilon vector, since one ulp is already far above the
    /// threshold the renderer cares about.
    pub fn near_zero(&self) -> (r: bool)
        ensures
            r == (self.x == 0 && self.y == 0 && self.z == 0),
    {
        self.x == 0 && self.y == 0 && self.z == 0
    }

    /// Mirror reflection of `vec1` about the plane normal to `normal`.
    pub fn reflect(vec1: &Vec3, normal: &Vec3) -> (r: Vec3)
        requires
            vec1@.bounded(8 * (SCALE as int)),
            normal@.bounded(8 * (SCALE as int)),
        ensures
            r@ == vreflect(vec1@, normal@),
            r@.bounded(4096 * (SCALE as int)),
    {
        proof {
            lemma_reflect_bounds(vec1@, normal@);
        }
        let d = Vec3::dot(vec1, normal);
        let scaled = normal.scale(2 * d);
        vec1.sub(scaled)
    }

    /// Runtime check of the componentwise magnitude bound `b`.
    pub fn in_bounds(&self, b: i64) -> (r: bool)
        requires
            b >= 0,
        ensures
            r == self@.bounded(b as int),
    {
        -b <= self.x && self.x <= b && -b <= self.y && self.y <= b && -b <= self.z && self.z <= b
    }

    pub fn cross(vec1: &Vec3, vec2: &Vec3) -> (r: Vec3)
        requires
            vec1@.bounded(MAX_COORD as int),
            vec2@.bounded(MAX_COORD as int),
        ensures
            r@ == vcross(vec1@, vec2@),
    {
        proof {
            lemma_cross_products_fit(vec1@, vec2@);
        }
        Vec3 {
            x: fix_mul(vec1.y, vec2.z) - fix_mul(vec1.z, vec2.y),
            y: fix_mul(vec1.z, vec2.x) - fix_mul(vec1.x, vec2.z),
            z: fix_mul(vec1.x, vec2.y) - fix_mul(vec1.y, vec2.x),
        }
    }

    /// Snell refraction of the unit direction `uv` at a surface with normal
    /// `normal` and relative refraction ratio `ratio`.
    pub fn refract(uv: &Vec3, normal: &Vec3, ratio: i64) -> (r: Vec3)
        requires
            uv@.bounded(8 * (SCALE as int)),
            normal@.bounded(8 * (SCALE as int)),
            0 <= ratio <= 8 * (SCALE as int),
        ensures
            r@ == vrefract(uv@, normal@, ratio as int),
            r@.bounded(262144 * (SCALE as int)),
    {
        let ghost s: int = SCALE as int;
        proof {
            assert(s == 65536);
            assert(3 * (8 * s) * (8 * s) <= s * (192 * s)) by (nonlinear_arith);
            lemma_vdot_bound(uv@, normal@, 8 * s, 8 * s, 192 * s);
        }
        let d = Vec3::dot(uv, normal);
        let cos = if -d > SCALE {
            SCALE
        } else {
            -d
        };
        proof {
            assert(cos as int == vstd::math::min(s, -dot3(uv@, normal@)));
            assert((8 * s) * (192 * s) <= s * (1536 * s)) by (nonlinear_arith);
            lemma_vscale_bound(normal@, cos as int, 8 * s, 192 * s, 1536 * s);
        }
        let ncos = normal.scale(cos);
        let perp_sum = uv.add(ncos);
        proof {
            assert(perp_sum@.bounded(1544 * s));
            assert((1544 * s) * (8 * s) <= s * (12352 * s)) by (nonlinear_arith);
            lemma_vscale_bound(perp_sum@, ratio as int, 1544 * s, 8 * s, 12352 * s);
        }
        let r_perp = perp_sum.scale(ratio);
        proof {
            assert(3 * (12352 * s) * (12352 * s) <= s * (457715712 * s)) by (nonlinear_arith);
            lemma_vdot_bound(r_perp@, r_perp@, 12352 * s, 12352 * s, 457715712 * s);
            lemma_dot_in_range(r_perp@, r_perp@);
        }
        let lp = r_perp.length_squared();
        let inner = if lp <= SCALE {
            SCALE - lp
        } else {
            lp - SCALE
        };
        proof {
            assert(inner as int == mag(s - lp as int));
            assert(inner as int <= 457715712 * s);
        }
        let spar = fix_sqrt(inner);
        proof {
            assert((inner as int) * (SCALE as int) <= (457715712 * s) * s) by (nonlinear_arith)
                requires
                    0 <= inner as int <= 457715712 * s,
                    s == SCALE as int,
                    s == 65536,
            ;
            assert((457715712 * s) * s < (21396 * s + 1) * (21396 * s + 1)) by (nonlinear_arith)
                requires
                    s == 65536,
            ;
            crate::fixed::lemma_sqrt_floor_upper((inner as int) * (SCALE as int), 21396 * s);
            assert(mag(spar as int) <= 21396 * s);
            assert((8 * s) * (21396 * s) <= s * (171168 * s)) by (nonlinear_arith);
            lemma_vscale_bound(normal@, -(spar as int), 8 * s, 21396 * s, 171168 * s);
        }
        let r_par = normal.scale(-spar);
        proof {
            assert(vadd(r_perp@, r_par@).fits());
        }
        r_perp.add(r_par)
    }

    /// A componentwise uniform sample in the inclusive range `[min, max]`.
    pub fn random_vec3(min: i64, max: i64) -> (r: Vec3)
        requires
            min <= max,
        ensures
            min <= r@.x <= max,
            min <= r@.y <= max,
            min <= r@.z <= max,
    {
        Vec3 {
            x: draw_in_range(min, max),
            y: draw_in_range(min, max),
            z: draw_in_range(min, max),
        }
    }

    /// Rejection-samples a point of the open unit ball whose squared length
    /// is at least one ulp.  A bounded number of draws is attempted; if every
    /// draw is rejected, a fixed interior point is returned so that the
    /// function terminates unconditionally.
    pub fn random_in_unit_sphere() -> (r: Vec3)
        ensures
            1 <= dot3(r@, r@) < (SCALE as int),
            r@.bounded(SCALE as int),
    {
        let mut attempts: u8 = 64;
        while attempts > 0
            decreases attempts,
        {
            attempts = attempts - 1;
            let p = Vec3::random_vec3(-SCALE, SCALE);
            let lsq = p.length_squared();
            if 1 <= lsq && lsq < SCALE {
                return p;
            }
        }
        let fallback = Vec3 { x: 0, y: 0, z: 32768 };
        proof {
            assert(SCALE as int == 65536);
            assert(1073741824int / 65536int == 16384);
            assert(dot3(fallback@, fallback@) == 16384);
        }
        fallback
    }

    /// A point of the unit ball, normalized.
    pub fn random_unit_vector() -> (r: Vec3)
        ensures
            r@.bounded(2 * (SCALE as int) + 256),
    {
        Vec3::random_in_unit_sphere().unit_vector()
    }

    /// Rejection-samples a point of the open unit disk in the z = 0 plane,
    /// with the same bounded-attempt strategy as the ball sampler.
    pub fn random_in_unit_disk() -> (r: Vec3)
        ensures
            r@.z == 0,
            0 <= dot3(r@, r@) < (SCALE as int),
            r@.bounded(SCALE as int),
    {
        let mut attempts: u8 = 64;
        while attempts > 0
            decreases attempts,
        {
            attempts = attempts - 1;
            let x = draw_in_range(-SCALE, SCALE);
            let y = draw_in_range(-SCALE, SCALE);
            let p = Vec3 { x, y, z: 0 };
            let lsq = p.length_squared();
            if lsq < SCALE {
                proof {
                    lemma_dot_in_range(p@, p@);
                }
                return p;
            }
        }
        let origin = Vec3 { x: 0, y: 0, z: 0 };
        proof {
            assert(dot3(origin@, origin@) == 0);
        }
        origin
    }
}

/// A uniform fixed-point draw from `[0, 1)`.
pub fn random_scalar() -> (r: i64)
    ensures
        0 <= r < SCALE,
{
    draw_in_range(0, SCALE - 1)
}

/// Relies on `rand::RngExt::random_range` over `rand::rng()` with an inclusive
/// `i64` range: the draw lies within the bounds.  An empty range would make
/// the call panic and is excluded by `requires`.
#[verifier::external_body]
fn draw_in_range(lo: i64, hi: i64) -> (r: i64)
    requires
        lo <= hi,
    ensures
        lo <= r <= hi,
{
    <rand::rngs::ThreadRng as rand::RngExt>::random_range(&mut rand::rng(), lo..=hi)
}

/// A nonzero vector's length is at least 256 (the square root of one ulp),
/// and each normalized component stays within two units of scale.
pub proof fn lemma_unit_bounds(v: V3)
    requires
        v.bounded(MAX_COORD as int),
        dot3(v, v) >= 1,
    ensures
        256 <= vlen(v) <= i64::MAX,
        vunit(v).bounded(2 * (SCALE as int) + 256),
{
    assert(SCALE as int == 65536);
    assert(MAX_COORD as int == 0x40_0000_0000);
    let sum = v.x * v.x + v.y * v.y + v.z * v.z;
    let lsq = dot3(v, v);
    let len = vlen(v);
    lemma_dot_in_range(v, v);
    assert(v.x * v.x >= 0 && v.y * v.y >= 0 && v.z * v.z >= 0) by (nonlinear_arith);
    assert(lsq == sum / (SCALE as int));
    let n = lsq * (SCALE as int);
    vstd::arithmetic::div_mod::lemma_fundamental_div_mod(sum, SCALE as int);
    vstd::arithmetic::div_mod::lemma_mod_division_less_than_divisor(sum, SCALE as int);
    crate::fixed::lemma_sqrt_floor_bounds(n);
    assert(len * len <= n && n < (len + 1) * (len + 1));
    // len >= 256 because n >= SCALE = 256 * 256
    if len < 256 {
        assert((len + 1) * (len + 1) <= 256 * 256) by (nonlinear_arith)
            requires
                0 <= len + 1 <= 256,
        ;
    }
    // len <= i64::MAX because n is modest
    assert(n <= 3 * (MAX_COORD as int) * (MAX_COORD as int)) by (nonlinear_arith)
        requires
            0 <= lsq,
            lsq * (SCALE as int) == n,
            (SCALE as int) * lsq <= mag(sum),
            mag(sum) <= 3 * (MAX_COORD as int) * (MAX_COORD as int),
    ;
    if len > i64::MAX {
        assert(len * len > 3 * (MAX_COORD as int) * (MAX_COORD as int)) by (nonlinear_arith)
            requires
                len > i64::MAX,
        ;
    }
    // the sum of squares lies below (len + 1)^2 + SCALE
    assert(sum < n + (SCALE as int));
    lemma_unit_component(v.x, sum, len);
    lemma_unit_component(v.y, sum, len);
    lemma_unit_component(v.z, sum, len);
}

/// One component of a normalized vector: from `x^2 <= sum < (len+1)^2 + SCALE`
/// and `len >= 256` it follows that `|x * SCALE / len| <= 2 * SCALE + 256`.
proof fn lemma_unit_component(x: int, sum: int, len: int)
    requires
        x * x <= sum,
        sum < (len + 1) * (len + 1) + (SCALE as int),
        256 <= len,
    ensures
        mag(fdiv(x, len)) <= 2 * (SCALE as int) + 256,
{
    assert(SCALE as int == 65536);
    let bigx = mag(x);
    assert(bigx * bigx == x * x) by (nonlinear_arith)
        requires
            bigx == x || bigx == -x,
    ;
    if bigx > len + 257 {
        assert(bigx * bigx >= (len + 258) * (len + 258)) by (nonlinear_arith)
            requires
                bigx >= len + 258,
                len >= 0,
        ;
        assert((len + 258) * (len + 258) > (len + 1) * (len + 1) + (SCALE as int))
            by (nonlinear_arith)
            requires
                len >= 0,
        ;
    }
    assert(bigx <= len + 257);
    // fdiv(x, len) carries magnitude (|x| * SCALE) / len
    vstd::arithmetic::div_mod::lemma_div_pos_is_pos(bigx * (SCALE as int), len);
    assert(mag(fdiv(x, len)) == bigx * (SCALE as int) / len);
    assert(bigx * (SCALE as int) <= (len + 257) * (SCALE as int)) by (nonlinear_arith)
        requires
            bigx <= len + 257,
    ;
    vstd::arithmetic::div_mod::lemma_div_is_ordered(
        bigx * (SCALE as int),
        (len + 257) * (SCALE as int),
        len,
    );
    vstd::arithmetic::div_mod::lemma_hoist_over_denominator(
        257 * (SCALE as int),
        SCALE as int,
        len as nat,
    );
    assert((len + 257) * (SCALE as int) == 257 * (SCALE as int) + (SCALE as int) * len)
        by (nonlinear_arith);
    vstd::arithmetic::div_mod::lemma_div_is_ordered_by_denominator(257 * (SCALE as int), 256, len);
}

/// Reflection of unit-scale vectors stays far inside the integer range.
proof fn lemma_reflect_bounds(a: V3, n: V3)
    requires
        a.bounded(8 * (SCALE as int)),
        n.bounded(8 * (SCALE as int)),
    ensures
        mag(dot3(a, n)) <= 192 * (SCALE as int),
        mag(2 * dot3(a, n)) <= 384 * (SCALE as int),
        mag(n.x * (2 * dot3(a, n))) <= i64::MAX * (SCALE as int),
        mag(n.y * (2 * dot3(a, n))) <= i64::MAX * (SCALE as int),
        mag(n.z * (2 * dot3(a, n))) <= i64::MAX * (SCALE as int),
        vreflect(a, n).bounded(4096 * (SCALE as int)),
{
    let s = SCALE as int;
    assert(s == 65536);
    let sum = a.x * n.x + a.y * n.y + a.z * n.z;
    lemma_sq_sum_bounds(a, n, 8 * s, 8 * s);
    assert(3 * (8 * s) * (8 * s) == s * (192 * s)) by (nonlinear_arith);
    crate::fixed::lemma_div_to_zero_bound(sum, s, 192 * s);
    let k = 2 * dot3(a, n);
    assert(mag(k) <= 384 * s);
    assert(mag(n.x * k) <= (8 * s) * (384 * s) && mag(n.y * k) <= (8 * s) * (384 * s) && mag(
        n.z * k,
    ) <= (8 * s) * (384 * s)) by (nonlinear_arith)
        requires
            mag(n.x) <= 8 * s,
            mag(n.y) <= 8 * s,
            mag(n.z) <= 8 * s,
            mag(k) <= 384 * s,
            s == SCALE as int,
    ;
    assert((8 * s) * (384 * s) <= s * (3072 * s)) by (nonlinear_arith);
    crate::fixed::lemma_fmul_bound(n.x, k, 8 * s, 384 * s, 3072 * s);
    crate::fixed::lemma_fmul_bound(n.y, k, 8 * s, 384 * s, 3072 * s);
    crate::fixed::lemma_fmul_bound(n.z, k, 8 * s, 384 * s, 3072 * s);
    assert(3072 * s <= i64::MAX && i64::MAX * s >= s * (3072 * s)) by (nonlinear_arith)
        requires
            s == 65536,
    ;
}

/// Every pairwise product of components within `MAX_COORD` is small enough
/// for `fix_mul`, and the differences of the truncated products fit.
proof fn lemma_cross_products_fit(a: V3, b: V3)
    requires
        a.bounded(MAX_COORD as int),
        b.bounded(MAX_COORD as int),
    ensures
        mag(a.y * b.z) <= i64::MAX * (SCALE as int),
        mag(a.z * b.y) <= i64::MAX * (SCALE as int),
        mag(a.z * b.x) <= i64::MAX * (SCALE as int),
        mag(a.x * b.z) <= i64::MAX * (SCALE as int),
        mag(a.x * b.y) <= i64::MAX * (SCALE as int),
        mag(a.y * b.x) <= i64::MAX * (SCALE as int),
        mag(fmul(a.y, b.z)) + mag(fmul(a.z, b.y)) <= i64::MAX,
        mag(fmul(a.z, b.x)) + mag(fmul(a.x, b.z)) <= i64::MAX,
        mag(fmul(a.x, b.y)) + mag(fmul(a.y, b.x)) <= i64::MAX,
{
    lemma_cross_pair(a.y, b.z, a.z, b.y);
    lemma_cross_pair(a.z, b.x, a.x, b.z);
    lemma_cross_pair(a.x, b.y, a.y, b.x);
}

/// One cross-product component: both products are admissible for `fix_mul`
/// and their truncated difference fits.
proof fn lemma_cross_pair(p: int, q: int, r: int, s: int)
    requires
        mag(p) <= MAX_COORD as int,
        mag(q) <= MAX_COORD as int,
        mag(r) <= MAX_COORD as int,
        mag(s) <= MAX_COORD as int,
    ensures
        mag(p * q) <= i64::MAX * (SCALE as int),
        mag(r * s) <= i64::MAX * (SCALE as int),
        mag(fmul(p, q)) + mag(fmul(r, s)) <= i64::MAX,
{
    let m = MAX_COORD as int;
    assert(m == 0x40_0000_0000);
    assert(m * m <= (SCALE as int) * 0x1000_0000_0000_0000) by (nonlinear_arith)
        requires
            m == 0x40_0000_0000,
            SCALE as int == 65536,
    ;
    crate::fixed::lemma_fmul_bound(p, q, m, m, 0x1000_0000_0000_0000);
    crate::fixed::lemma_fmul_bound(r, s, m, m, 0x1000_0000_0000_0000);
}

} // verus!
