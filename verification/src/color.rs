//! Linear-space RGB colors.
//!
//! A color is a `Vector3` whose components are nonnegative fixed-point
//! scalars (`FX_ONE` is 1.0). Products and sums saturate at `COL_LIM`, so
//! the color algebra is closed; every operation is specified exactly.

use vstd::prelude::*;
use crate::fx::{fx_mul, fx_mul_spec, saturate, FX_ONE};
use crate::vector::Vector3;

verus! {

#[verifier::external_type_specification]
#[verifier::external_body]
#[verifier::reject_recursive_types(T)]
pub struct ExRgb<T>(image::Rgb<T>);

#[verifier::external_type_specification]
#[verifier::external_body]
#[verifier::reject_recursive_types(T)]
pub struct ExRgba<T>(image::Rgba<T>);


/// Largest representable color component (2048.0 in fixed point).
pub const COL_LIM: i64 = 0x800_0000;

pub type Color = Vector3;

/// Colors the shading arithmetic accepts: nonnegative components up to the
/// saturation cap.
pub open spec fn color_wf(c: Color) -> bool {
    &&& 0 <= c.x <= COL_LIM
    &&& 0 <= c.y <= COL_LIM
    &&& 0 <= c.z <= COL_LIM
}

/// One channel of the saturating fixed-point product.
pub open spec fn mul_channel(a: int, b: int) -> int {
    let p = fx_mul_spec(a, b);
    if p > COL_LIM as int { COL_LIM as int } else { p }
}

/// Componentwise saturating fixed-point product of two colors.
pub open spec fn color_mul_spec(a: Color, b: Color) -> Color {
    Vector3 {
        x: mul_channel(a.x as int, b.x as int) as i64,
        y: mul_channel(a.y as int, b.y as int) as i64,
        z: mul_channel(a.z as int, b.z as int) as i64,
    }
}

/// One channel of the saturating sum.
pub open spec fn add_channel(a: int, b: int) -> int {
    if a + b > COL_LIM as int { COL_LIM as int } else { a + b }
}

/// Componentwise saturating sum of two colors.
pub open spec fn color_add_spec(a: Color, b: Color) -> Color {
    Vector3 {
        x: add_channel(a.x as int, b.x as int) as i64,
        y: add_channel(a.y as int, b.y as int) as i64,
        z: add_channel(a.z as int, b.z as int) as i64,
    }
}

/// Filter the color `a` by the color `b`, componentwise.
pub fn color_mul(a: &Color, b: &Color) -> (r: Color)
    requires
        color_wf(*a),
        color_wf(*b),
    ensures
        r == color_mul_spec(*a, *b),
        color_wf(r),
{
    let x = fx_mul(a.x, b.x);
    let y = fx_mul(a.y, b.y);
    let z = fx_mul(a.z, b.z);
    Vector3 {
        x: if x > COL_LIM { COL_LIM } else { x },
        y: if y > COL_LIM { COL_LIM } else { y },
        z: if z > COL_LIM { COL_LIM } else { z },
    }
}

/// Componentwise saturating sum of two colors.
pub fn color_add(a: &Color, b: &Color) -> (r: Color)
    requires
        color_wf(*a),
        color_wf(*b),
    ensures
        r == color_add_spec(*a, *b),
        color_wf(r),
{
    let x = a.x + b.x;
    let y = a.y + b.y;
    let z = a.z + b.z;
    Vector3 {
        x: if x > COL_LIM { COL_LIM } else { x },
        y: if y > COL_LIM { COL_LIM } else { y },
        z: if z > COL_LIM { COL_LIM } else { z },
    }
}

/// Divide each component by a positive count, rounding down: the average
/// step of a sample accumulator.
pub fn color_scale_down(a: &Color, n: u32) -> (r: Color)
    requires
        color_wf(*a),
        n > 0,
    ensures
        r.x == a.x as int / n as int,
        r.y == a.y as int / n as int,
        r.z == a.z as int / n as int,
        color_wf(r),
{
    proof {
        vstd::arithmetic::div_mod::lemma_div_is_ordered_by_denominator(a.x as int, 1, n as int);
        vstd::arithmetic::div_mod::lemma_div_is_ordered_by_denominator(a.y as int, 1, n as int);
        vstd::arithmetic::div_mod::lemma_div_is_ordered_by_denominator(a.z as int, 1, n as int);
    }
    Vector3 {
        x: ((a.x as u64) / (n as u64)) as i64,
        y: ((a.y as u64) / (n as u64)) as i64,
        z: ((a.z as u64) / (n as u64)) as i64,
    }
}

/// One gamma-space byte per channel: `255 * saturate(c)` rounded down.
pub open spec fn byte_of_channel(c: int) -> int {
    let s = if c < 0 { 0int } else if c > FX_ONE { FX_ONE as int } else { c };
    (255 * s) / (FX_ONE as int)
}

/// Quantize a linear color to three bytes, the exact integer part of
/// `255 * saturate(channel)`.
pub fn color_to_bytes(color: &Color) -> (r: (u8, u8, u8))
    ensures
        r.0 == byte_of_channel(color.x as int),
        r.1 == byte_of_channel(color.y as int),
        r.2 == byte_of_channel(color.z as int),
{
    let sx = saturate(color.x);
    let sy = saturate(color.y);
    let sz = saturate(color.z);
    (
        ((255u64 * (sx as u64)) / (FX_ONE as u64)) as u8,
        ((255u64 * (sy as u64)) / (FX_ONE as u64)) as u8,
        ((255u64 * (sz as u64)) / (FX_ONE as u64)) as u8,
    )
}

/// Map three channel bytes back to a linear color: `byte * FX_ONE / 255`.
pub fn bytes_to_color(r: u8, g: u8, b: u8) -> (c: Color)
    ensures
        c.x == (r as int * FX_ONE as int) / 255,
        c.y == (g as int * FX_ONE as int) / 255,
        c.z == (b as int * FX_ONE as int) / 255,
        color_wf(c),
{
    Vector3 {
        x: ((r as u64 * (FX_ONE as u64)) / 255) as i64,
        y: ((g as u64 * (FX_ONE as u64)) / 255) as i64,
        z: ((b as u64 * (FX_ONE as u64)) / 255) as i64,
    }
}

/// Relies on `image::Rgb`'s tuple constructor: packs three channel bytes
/// into a pixel value, nothing more.
#[verifier::external_body]
fn rgb_from_components(r: u8, g: u8, b: u8) -> image::Rgb<u8> {
    image::Rgb([r, g, b])
}

/// Relies on `image::Rgba`'s public channel array: hands the four channel
/// bytes back out, nothing more.
#[verifier::external_body]
fn rgba_components(c: &image::Rgba<u8>) -> (u8, u8, u8, u8) {
    (c.0[0], c.0[1], c.0[2], c.0[3])
}

/// Quantize a linear color to an image pixel; the verified channel math is
/// `color_to_bytes`.
pub fn color_to_rgb(color: Color) -> image::Rgb<u8> {
    let (r, g, b) = color_to_bytes(&color);
    rgb_from_components(r, g, b)
}

/// Read an image pixel back as a linear color; the verified channel math
/// is `bytes_to_color`.
pub fn rgba_to_color(color: image::Rgba<u8>) -> (c: Color)
    ensures
        color_wf(c),
{
    let (r, g, b, _a) = rgba_components(&color);
    bytes_to_color(r, g, b)
}

} // verus!
