//! Tone mapping: turning an accumulated color into 8-bit channel values.
//!
//! Each channel is averaged over the sample count, gamma-corrected by a
//! square root, clamped to `[0, 0.999]` and scaled by `255.99`.  The clamp
//! and the floor guarantee that a full-strength channel maps to exactly 255
//! and that no channel can overflow its byte.

use crate::fixed::clamped;
use crate::fixed::div_to_zero;
use crate::fixed::fix_clamp;
use crate::fixed::fix_sqrt;
use crate::fixed::fsqrt;
use crate::vec_three::Vec3;
use vstd::prelude::*;

verus! {

/// The fixed-point rendering of the clamp ceiling 0.999.
pub const CLAMP_MAX: i64 = 65470;

/// One channel through the gamma + clamp + scale pipeline:
/// `floor(255.99 * clamp(sqrt(c / samples), 0, 0.999))`.
pub open spec fn tone_map_channel(c: int, samples: int) -> int {
    let avg = div_to_zero(c, samples);
    let gamma = fsqrt(avg);
    let cl = clamped(gamma, 0, CLAMP_MAX as int);
    (cl * 25599) / 6553600
}

/// A channel accumulated at full strength (`1.0` on every sample) maps to
/// exactly 255, never 256: averaging gives exactly one, the square root
/// keeps it, and the clamp at 0.999 meets the 255.99 floor below 256.
pub proof fn lemma_full_channel_rounds_to_255(samples: int)
    requires
        samples >= 1,
    ensures
        tone_map_channel(samples * (crate::fixed::SCALE as int), samples) == 255,
{
    let s = crate::fixed::SCALE as int;
    assert(s == 65536);
    assert(samples * s == samples * s && samples * s > 0) by (nonlinear_arith)
        requires
            samples >= 1,
            s == 65536,
    ;
    vstd::arithmetic::div_mod::lemma_div_multiples_vanish(s, samples);
    assert(div_to_zero(samples * s, samples) == s);
    assert(s * s < (s + 1) * (s + 1)) by (nonlinear_arith)
        requires
            s == 65536,
    ;
    crate::fixed::lemma_sqrt_floor_unique(s * s, s);
}

/// Averages, gamma-corrects, clamps and scales one channel to a byte.
pub fn channel_to_byte(c: i64, samples_per_pixel: u32) -> (r: u8)
    requires
        c >= 0,
        samples_per_pixel >= 1,
    ensures
        r as int == tone_map_channel(c as int, samples_per_pixel as int),
{
    let samples: i64 = samples_per_pixel as i64;
    let avg: i64 = ((c as u64) / (samples as u64)) as i64;
    proof {
        vstd::arithmetic::div_mod::lemma_div_pos_is_pos(c as int, samples as int);
        vstd::arithmetic::div_mod::lemma_div_is_ordered(c as int, i64::MAX as int, samples as int);
        vstd::arithmetic::div_mod::lemma_div_is_ordered_by_denominator(
            i64::MAX as int,
            1,
            samples as int,
        );
        vstd::arithmetic::div_mod::lemma_div_basics(i64::MAX as int);
    }
    let gamma = fix_sqrt(avg);
    let cl = fix_clamp(gamma, 0, CLAMP_MAX);
    let scaled: u64 = ((cl as u64) * 25599) / 6553600;
    proof {
        vstd::arithmetic::div_mod::lemma_div_is_ordered(
            (cl as int) * 25599,
            65470 * 25599int,
            6553600,
        );
    }
    scaled as u8
}

/// The full tone-mapped pixel: an RGB byte triple.
pub fn color_to_rgb8(color: &Vec3, samples_per_pixel: u32) -> (r: (u8, u8, u8))
    requires
        color@.x >= 0,
        color@.y >= 0,
        color@.z >= 0,
        samples_per_pixel >= 1,
    ensures
        r.0 as int == tone_map_channel(color@.x, samples_per_pixel as int),
        r.1 as int == tone_map_channel(color@.y, samples_per_pixel as int),
        r.2 as int == tone_map_channel(color@.z, samples_per_pixel as int),
{
    (
        channel_to_byte(color.x, samples_per_pixel),
        channel_to_byte(color.y, samples_per_pixel),
        channel_to_byte(color.z, samples_per_pixel),
    )
}

} // verus!
