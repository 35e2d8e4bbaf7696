//! Color values and quantization.
//!
//! A [`Color`] holds three channels in fixed-point per-mille units: a channel
//! value of 1000 stands for full intensity (1.0), 0 for none. Channels are
//! not clamped at construction; quantization clamps them. [`color_to_rgb`]
//! converts a color to an 8-bit [`Rgb`] pixel by clamping each channel to
//! [0, 1000], scaling by 255/1000 and rounding half-up.

use vstd::prelude::*;
use vstd::arithmetic::div_mod::lemma_div_is_ordered;
use vstd::arithmetic::div_mod::lemma_fundamental_div_mod;

verus! {

/// A flat fill color: red, green and blue channels in per-mille units
/// (0 = none, 1000 = full intensity). Not clamped at construction.
#[derive(Debug, Clone, Copy, PartialEq, Eq, Structural)]
pub struct Color(pub i32, pub i32, pub i32);

/// One pixel: red, green and blue, 8 bits per channel.
#[derive(Debug, Clone, Copy, PartialEq, Eq, Structural)]
pub struct Rgb(pub u8, pub u8, pub u8);

/// The 8-bit value of one per-mille channel: clamp to [0, 1000], scale by
/// 255/1000, round to nearest with ties away from zero.
pub open spec fn quantize_channel(c: int) -> int {
    let v = if c < 0 {
        0
    } else if c > 1000 {
        1000
    } else {
        c
    };
    (v * 255 + 500) / 1000
}

/// The quantized 8-bit pixel of a per-mille color.
pub open spec fn rgb_of_color(c: Color) -> Rgb {
    Rgb(
        quantize_channel(c.0 as int) as u8,
        quantize_channel(c.1 as int) as u8,
        quantize_channel(c.2 as int) as u8,
    )
}

/// The per-mille channel value that stands for the 8-bit value `k`:
/// `k / 255` rounded to the nearest per-mille unit.
pub open spec fn channel_of_byte(k: int) -> int {
    (1000 * k + 128) / 255
}

proof fn lemma_quantize_channel_bounds(c: int)
    ensures
        0 <= quantize_channel(c) <= 255,
{
    let v = if c < 0 {
        0int
    } else if c > 1000 {
        1000int
    } else {
        c
    };
    lemma_div_is_ordered(0, v * 255 + 500, 1000);
    lemma_div_is_ordered(v * 255 + 500, 255500, 1000);
}

fn quantize_channel_exec(c: i32) -> (q: u8)
    ensures
        q as int == quantize_channel(c as int),
{
    let v: i32 = if c < 0 {
        0
    } else if c > 1000 {
        1000
    } else {
        c
    };
    proof {
        lemma_quantize_channel_bounds(c as int);
    }
    ((v * 255 + 500) / 1000) as u8
}

/// Quantizes a per-mille color to an 8-bit pixel, channel by channel.
pub fn color_to_rgb(color: Color) -> (r: Rgb)
    ensures
        r == rgb_of_color(color),
{
    Rgb(
        quantize_channel_exec(color.0),
        quantize_channel_exec(color.1),
        quantize_channel_exec(color.2),
    )
}

/// Converts an 8-bit pixel back to the per-mille color that stands for it.
/// Quantizing the result gives the same pixel back (see
/// [`lemma_quantize_idempotent`]).
pub fn rgb_to_color(p: Rgb) -> (c: Color)
    ensures
        c.0 as int == channel_of_byte(p.0 as int),
        c.1 as int == channel_of_byte(p.1 as int),
        c.2 as int == channel_of_byte(p.2 as int),
{
    Color(
        (1000 * (p.0 as i32) + 128) / 255,
        (1000 * (p.1 as i32) + 128) / 255,
        (1000 * (p.2 as i32) + 128) / 255,
    )
}

/// Law: quantization is monotonic. Increasing a channel's input value never
/// decreases its quantized 8-bit value.
pub proof fn lemma_quantize_monotonic(a: int, b: int)
    requires
        a <= b,
    ensures
        quantize_channel(a) <= quantize_channel(b),
{
    let va = if a < 0 {
        0int
    } else if a > 1000 {
        1000int
    } else {
        a
    };
    let vb = if b < 0 {
        0int
    } else if b > 1000 {
        1000int
    } else {
        b
    };
    lemma_div_is_ordered(va * 255 + 500, vb * 255 + 500, 1000);
}

/// Law: quantization is idempotent on channel values that already stand for
/// an 8-bit value. The per-mille representative of any byte `k` quantizes
/// back to `k` exactly.
pub proof fn lemma_quantize_idempotent(k: int)
    requires
        0 <= k <= 255,
    ensures
        quantize_channel(channel_of_byte(k)) == k,
{
    let m = (1000 * k + 128) / 255;
    lemma_fundamental_div_mod(1000 * k + 128, 255);
    let r = (1000 * k + 128) % 255;
    assert(255 * m == 1000 * k + 128 - r);
    lemma_div_is_ordered(0, 1000 * k + 128, 255);
    lemma_div_is_ordered(1000 * k + 128, 255128, 255);
    assert(0 <= m <= 1000);
    assert(m * 255 + 500 == 1000 * k + (628 - r)) by {
        assert(m * 255 == 255 * m) by (nonlinear_arith);
    }
    assert(0 <= 628 - r < 1000);
    lemma_fundamental_div_mod((1000 * k + (628 - r)), 1000);
    vstd::arithmetic::div_mod::lemma_fundamental_div_mod_converse_div(
        1000 * k + (628 - r),
        1000,
        k,
        628 - r,
    );
    assert(k * 1000 + (628 - r) == 1000 * k + (628 - r)) by (nonlinear_arith);
}

} // verus!
