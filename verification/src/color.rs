//! Colors and the linear-to-display mapping.
//!
//! A color is a [`Vec3`] whose components are channel intensities in
//! linear space, with [`crate::fixed::SCALE`] standing for full
//! intensity. The integrator works in linear space throughout; the
//! gamma mapping and the clamp are applied once, at the pixel-write
//! boundary.

use vstd::prelude::*;

verus! {

use crate::fixed::SCALE;
use crate::fixed::clamp;
use crate::fixed::clamp_v;
use crate::fixed::sqrt_v;
use crate::fixed::sqrt_fx;
use crate::fixed::fmul_v;
use crate::vec3::Vec3;
use vstd::arithmetic::div_mod::lemma_div_by_multiple;
use vstd::arithmetic::div_mod::lemma_div_is_ordered;
use vstd::arithmetic::div_mod::lemma_div_pos_is_pos;
use vstd::arithmetic::mul::lemma_mul_inequality;
use vstd::arithmetic::mul::lemma_mul_is_commutative;

/// A color: red, green and blue intensities.
pub type Color = Vec3;

/// Highest representable channel value after clamping, just below full
/// intensity, so that the byte mapping never reaches 256.
pub const CLAMP_MAX: i64 = 65470;

/// The gamma mapping of one channel: the square root of the linear
/// intensity, with negative intensities darkened to zero.
pub open spec fn gamma_v(c: int) -> int {
    if c > 0 {
        sqrt_v(c * (SCALE as int))
    } else {
        0
    }
}

/// The display byte of one channel: its gamma-mapped value, clamped,
/// scaled into the byte range.
pub open spec fn rgb_byte_v(c: int) -> int {
    clamp_v(gamma_v(c), 0, CLAMP_MAX as int) / 256
}

/// Law: attenuating a channel keeps it in range. Multiplying an
/// intensity by an attenuation in the unit range neither darkens it
/// below zero nor brightens it.
pub proof fn lemma_attenuate_unit(a: int, c: int)
    requires
        0 <= a <= SCALE as int,
        0 <= c,
    ensures
        0 <= fmul_v(a, c) <= c,
{
    lemma_mul_inequality(a, SCALE as int, c);
    lemma_mul_is_commutative(SCALE as int, c);
    lemma_mul_is_commutative(a, c);
    lemma_div_is_ordered(a * c, (SCALE as int) * c, SCALE as int);
    lemma_div_by_multiple(c, SCALE as int);
    assert(0 <= a * c) by (nonlinear_arith)
        requires
            0 <= a,
            0 <= c,
    ;
    lemma_div_pos_is_pos(a * c, SCALE as int);
}

/// The gamma mapping of one channel (gamma two: a square root).
pub fn linear_to_gamma(linear_component: i64) -> (r: i64)
    ensures
        r as int == gamma_v(linear_component as int),
        r >= 0,
{
    if linear_component > 0 {
        sqrt_fx(linear_component)
    } else {
        0
    }
}

/// One channel's display byte.
pub fn to_rgb_byte(c: i64) -> (r: u8)
    ensures
        r as int == rgb_byte_v(c as int),
{
    let g = linear_to_gamma(c);
    let clamped = clamp(g, 0, CLAMP_MAX);
    ((clamped as u64) / 256) as u8
}

/// The display bytes of a color, channel by channel.
pub fn to_rgb(c: &Color) -> (r: (u8, u8, u8))
    ensures
        r.0 as int == rgb_byte_v(c@.x),
        r.1 as int == rgb_byte_v(c@.y),
        r.2 as int == rgb_byte_v(c@.z),
{
    (to_rgb_byte(c.x), to_rgb_byte(c.y), to_rgb_byte(c.z))
}

} // verus!
