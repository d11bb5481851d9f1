//! Fixed-point scalar arithmetic.
//!
//! A scalar holds the real value times `SCALE` in an `i64`.  Multiplication
//! and division truncate toward zero, mirroring the rounding of a hardware
//! divide; every executable routine returns exactly the value of its spec
//! mirror (`fmul`, `fdiv`, `fsqrt`), so callers reason about pure integers.

use vstd::arithmetic::div_mod::lemma_div_basics;
use vstd::arithmetic::div_mod::lemma_div_is_ordered;
use vstd::arithmetic::div_mod::lemma_div_is_ordered_by_denominator;
use vstd::arithmetic::div_mod::lemma_div_multiples_vanish;
use vstd::arithmetic::mul::lemma_mul_inequality;
use vstd::prelude::*;

verus! {

/// One whole unit: the real value 1.0.
pub const SCALE: i64 = 65536;

/// Magnitude of an integer, as an `int`.
pub open spec fn mag(a: int) -> int {
    if a >= 0 {
        a
    } else {
        -a
    }
}

/// Integer division rounding toward zero, the rounding of Rust's `/`.
pub open spec fn div_to_zero(a: int, b: int) -> int
    recommends
        b != 0,
{
    if (a >= 0) == (b >= 0) {
        mag(a) / mag(b)
    } else {
        -(mag(a) / mag(b))
    }
}

/// Product of two fixed-point scalars.
pub open spec fn fmul(a: int, b: int) -> int {
    div_to_zero(a * b, SCALE as int)
}

/// Quotient of two fixed-point scalars.
pub open spec fn fdiv(a: int, b: int) -> int
    recommends
        b != 0,
{
    div_to_zero(a * (SCALE as int), b)
}

/// Largest `r` with `r * r <= n` (0 for negative `n`).
pub open spec fn sqrt_floor(n: int) -> int
    decreases n,
{
    if n <= 0 {
        0
    } else {
        let r = sqrt_floor(n - 1);
        if (r + 1) * (r + 1) <= n {
            r + 1
        } else {
            r
        }
    }
}

/// Square root of a fixed-point scalar: `sqrt(n / SCALE) * SCALE` rounded down.
pub open spec fn fsqrt(a: int) -> int {
    sqrt_floor(a * (SCALE as int))
}

/// Clamping into an interval.
pub open spec fn clamped(a: int, lo: int, hi: int) -> int {
    if a < lo {
        lo
    } else if a > hi {
        hi
    } else {
        a
    }
}

pub proof fn lemma_sqrt_floor_bounds(n: int)
    requires
        n >= 0,
    ensures
        0 <= sqrt_floor(n),
        sqrt_floor(n) * sqrt_floor(n) <= n,
        n < (sqrt_floor(n) + 1) * (sqrt_floor(n) + 1),
    decreases n,
{
    if n == 0 {
    } else {
        lemma_sqrt_floor_bounds(n - 1);
        let r = sqrt_floor(n - 1);
        if (r + 1) * (r + 1) <= n {
            assert(n <= (r + 1) * (r + 1)) by {
                assert(n - 1 < (r + 1) * (r + 1));
            }
            assert((r + 1) * (r + 1) < (r + 2) * (r + 2)) by (nonlinear_arith)
                requires
                    r >= 0,
            ;
        }
    }
}

pub proof fn lemma_sqrt_floor_unique(n: int, r: int)
    requires
        n >= 0,
        r >= 0,
        r * r <= n,
        n < (r + 1) * (r + 1),
    ensures
        r == sqrt_floor(n),
{
    lemma_sqrt_floor_bounds(n);
    let s = sqrt_floor(n);
    if r < s {
        assert((r + 1) * (r + 1) <= s * s) by (nonlinear_arith)
            requires
                0 <= r,
                r + 1 <= s,
        ;
    } else if s < r {
        assert((s + 1) * (s + 1) <= r * r) by (nonlinear_arith)
            requires
                0 <= s,
                s + 1 <= r,
        ;
    }
}

/// The floor square root of anything below `(b + 1)^2` is at most `b`.
pub proof fn lemma_sqrt_floor_upper(n: int, b: int)
    requires
        0 <= n,
        0 <= b,
        n < (b + 1) * (b + 1),
    ensures
        sqrt_floor(n) <= b,
{
    lemma_sqrt_floor_bounds(n);
    let s = sqrt_floor(n);
    if s > b {
        assert((b + 1) * (b + 1) <= s * s) by (nonlinear_arith)
            requires
                0 <= b,
                b + 1 <= s,
        ;
    }
}

/// The magnitude of a truncated product is bounded by any `c` whose scaled
/// value covers the product of the factor bounds.
pub proof fn lemma_fmul_bound(a: int, b: int, ba: int, bb: int, c: int)
    requires
        mag(a) <= ba,
        mag(b) <= bb,
        0 <= c <= i64::MAX,
        ba * bb <= (SCALE as int) * c,
    ensures
        mag(fmul(a, b)) <= c,
        mag(a * b) <= (SCALE as int) * c,
        mag(a * b) <= i64::MAX * (SCALE as int),
{
    assert((SCALE as int) * c <= i64::MAX * (SCALE as int)) by (nonlinear_arith)
        requires
            0 <= c <= i64::MAX,
            SCALE as int == 65536,
    ;
    assert(mag(a * b) == mag(a) * mag(b)) by (nonlinear_arith);
    assert(mag(a) * mag(b) <= ba * bb) by (nonlinear_arith)
        requires
            0 <= mag(a) <= ba,
            0 <= mag(b) <= bb,
    ;
    lemma_div_to_zero_bound(a * b, SCALE as int, c);
}

/// Truncated products of nonnegative scalars grow with either factor.
pub proof fn lemma_fmul_mono(a1: int, a2: int, b1: int, b2: int)
    requires
        0 <= a1 <= a2,
        0 <= b1 <= b2,
    ensures
        0 <= fmul(a1, b1) <= fmul(a2, b2),
{
    assert(0 <= a1 * b1 <= a2 * b2) by (nonlinear_arith)
        requires
            0 <= a1 <= a2,
            0 <= b1 <= b2,
    ;
    lemma_div_is_ordered(a1 * b1, a2 * b2, SCALE as int);
}

/// Negating either factor negates the truncated product.
pub proof fn lemma_fmul_neg(a: int, b: int)
    ensures
        fmul(-a, b) == -fmul(a, b),
        fmul(a, -b) == -fmul(a, b),
{
    assert(-a * b == -(a * b)) by (nonlinear_arith);
    assert(a * -b == -(a * b)) by (nonlinear_arith);
}

/// Division toward zero carries the magnitude of the floor quotient of the
/// magnitudes.
pub proof fn lemma_div_to_zero_mag(a: int, b: int)
    requires
        b > 0,
    ensures
        mag(div_to_zero(a, b)) == mag(a) / b,
        0 <= mag(a) / b,
{
    vstd::arithmetic::div_mod::lemma_div_pos_is_pos(mag(a), b);
}

/// A bound on the dividend scaled by the divisor bounds the quotient.
pub proof fn lemma_div_to_zero_bound(a: int, b: int, c: int)
    requires
        b > 0,
        0 <= c,
        mag(a) <= b * c,
    ensures
        mag(div_to_zero(a, b)) <= c,
        0 <= mag(div_to_zero(a, b)),
{
    lemma_div_to_zero_mag(a, b);
    lemma_div_is_ordered(mag(a), b * c, b);
    lemma_div_multiples_vanish(c, b);
}

/// Division toward zero keeps the dividend's sign.
pub proof fn lemma_div_to_zero_nonpos(a: int, b: int)
    requires
        a <= 0,
        b > 0,
    ensures
        div_to_zero(a, b) <= 0,
{
    lemma_div_to_zero_mag(a, b);
}

/// Division toward zero by a positive divisor negates with its dividend.
pub proof fn lemma_div_to_zero_neg(a: int, b: int)
    requires
        b > 0,
    ensures
        div_to_zero(-a, b) == -div_to_zero(a, b),
{
}

/// One is the unit of the truncated product.
pub proof fn lemma_fmul_unit(a: int)
    ensures
        fmul(a, SCALE as int) == a,
        fmul(SCALE as int, a) == a,
{
    assert(mag(a * (SCALE as int)) == mag(a) * (SCALE as int) && mag((SCALE as int) * a) == mag(a)
        * (SCALE as int) && ((a * (SCALE as int) >= 0) == (a >= 0)) && (((SCALE as int) * a >= 0)
        == (a >= 0))) by (nonlinear_arith)
        requires
            SCALE as int == 65536,
    ;
    lemma_div_multiples_vanish(mag(a), SCALE as int);
    assert(mag(a) * (SCALE as int) == (SCALE as int) * mag(a)) by (nonlinear_arith);
}

/// Exact product of two scalars, divided by `SCALE`, truncated toward zero.
pub fn fix_mul(a: i64, b: i64) -> (r: i64)
    requires
        mag(a as int * b as int) <= i64::MAX * (SCALE as int),
    ensures
        r as int == fmul(a as int, b as int),
{
    let p: i128 = (a as i128) * (b as i128);
    proof {
        assert(mag(p as int) / mag(SCALE as int) <= i64::MAX) by {
            lemma_div_is_ordered(mag(p as int), i64::MAX * (SCALE as int), SCALE as int);
            lemma_div_multiples_vanish(i64::MAX as int, SCALE as int);
            assert(i64::MAX * (SCALE as int) == (SCALE as int) * i64::MAX) by (nonlinear_arith);
        }
    }
    div_i128_to_zero(p, SCALE as i128)
}

/// Exact quotient `a / b` of two scalars, truncated toward zero.
pub fn fix_div(a: i64, b: i64) -> (r: i64)
    requires
        b != 0,
        mag(a as int) * (SCALE as int) <= i64::MAX * mag(b as int),
    ensures
        r as int == fdiv(a as int, b as int),
{
    let p: i128 = (a as i128) * 65536i128;
    proof {
        assert(mag(p as int) == mag(a as int) * (SCALE as int) && p as int > i128::MIN)
            by (nonlinear_arith)
            requires
                p as int == (a as int) * (SCALE as int),
                mag(a as int) <= 0x8000_0000_0000_0000,
        ;
        assert(mag(p as int) / mag(b as int) <= i64::MAX) by {
            assert(mag(a as int * (SCALE as int)) == mag(a as int) * (SCALE as int))
                by (nonlinear_arith);
            lemma_div_is_ordered(mag(p as int), i64::MAX * mag(b as int), mag(b as int));
            lemma_div_multiples_vanish(i64::MAX as int, mag(b as int));
            assert(i64::MAX * mag(b as int) == mag(b as int) * i64::MAX) by (nonlinear_arith);
        }
    }
    div_i128_to_zero(p, b as i128)
}

/// Division of an `i128` toward zero, through unsigned magnitudes.
pub(crate) fn div_i128_to_zero(a: i128, b: i128) -> (r: i64)
    requires
        b != 0,
        a > i128::MIN,
        b > i128::MIN,
        mag(a as int) / mag(b as int) <= i64::MAX,
    ensures
        r as int == div_to_zero(a as int, b as int),
{
    let neg: bool = (a < 0) != (b < 0);
    let ma: u128 = if a < 0 {
        (-a) as u128
    } else {
        a as u128
    };
    let mb: u128 = if b < 0 {
        (-b) as u128
    } else {
        b as u128
    };
    let q: u128 = ma / mb;
    if neg {
        -(q as i64)
    } else {
        q as i64
    }
}

/// Division of an `i128` toward zero with an `i128` quotient.
pub(crate) fn div_i128_wide(a: i128, b: i128) -> (r: i128)
    requires
        b != 0,
        a > i128::MIN,
        b > i128::MIN,
    ensures
        r as int == div_to_zero(a as int, b as int),
{
    let neg: bool = (a < 0) != (b < 0);
    let ma: u128 = if a < 0 {
        (-a) as u128
    } else {
        a as u128
    };
    let mb: u128 = if b < 0 {
        (-b) as u128
    } else {
        b as u128
    };
    let q: u128 = ma / mb;
    proof {
        lemma_div_is_ordered_by_denominator(ma as int, 1, mb as int);
        lemma_div_basics(ma as int);
    }
    if neg {
        -(q as i128)
    } else {
        q as i128
    }
}

/// Largest `r` with `r * r <= n`, by bisection.
pub fn isqrt(n: u128) -> (r: u128)
    ensures
        r as int == sqrt_floor(n as int),
        r * r <= n,
        r <= u64::MAX,
{
    let mut lo: u128 = 0;
    let mut hi: u128 = 0x1_0000_0000_0000_0000;
    proof {
        assert((hi as int) * (hi as int) > n as int) by (nonlinear_arith)
            requires
                hi == 0x1_0000_0000_0000_0000,
                n <= u128::MAX,
        ;
    }
    while lo + 1 < hi
        invariant
            0 <= lo < hi <= 0x1_0000_0000_0000_0000,
            (lo as int) * (lo as int) <= n as int,
            (n as int) < (hi as int) * (hi as int),
        decreases hi - lo,
    {
        let mid: u128 = lo + (hi - lo) / 2;
        proof {
            assert((mid as int) * (mid as int) < 0x1_0000_0000_0000_0000_0000_0000_0000_0000)
                by (nonlinear_arith)
                requires
                    mid < 0x1_0000_0000_0000_0000,
            ;
        }
        if mid * mid <= n {
            lo = mid;
        } else {
            hi = mid;
        }
    }
    proof {
        lemma_sqrt_floor_unique(n as int, lo as int);
        assert(lo * lo <= n) by (nonlinear_arith)
            requires
                (lo as int) * (lo as int) <= n as int,
        ;
    }
    lo
}

/// Square root of a nonnegative fixed-point scalar.
pub fn fix_sqrt(a: i64) -> (r: i64)
    requires
        a >= 0,
    ensures
        r as int == fsqrt(a as int),
        0 <= r <= 0x100_0000_0000,
{
    let n: u128 = (a as u128) * 65536u128;
    let s: u128 = isqrt(n);
    proof {
        assert(n as int <= i64::MAX * (SCALE as int)) by (nonlinear_arith)
            requires
                n as int == (a as int) * (SCALE as int),
                0 <= a as int <= i64::MAX,
        ;
        if s > 0x100_0000_0000 {
            lemma_mul_inequality(0x100_0000_0001, s as int, s as int);
            lemma_mul_inequality(0x100_0000_0001, s as int, 0x100_0000_0001);
            assert(0x100_0000_0001 * (s as int) == (s as int) * 0x100_0000_0001)
                by (nonlinear_arith);
            assert(false);
        }
    }
    s as i64
}

/// Clamping into `[lo, hi]`.
pub fn fix_clamp(a: i64, lo: i64, hi: i64) -> (r: i64)
    requires
        lo <= hi,
    ensures
        r as int == clamped(a as int, lo as int, hi as int),
        lo <= r <= hi,
{
    if a < lo {
        lo
    } else if a > hi {
        hi
    } else {
        a
    }
}

} // verus!
