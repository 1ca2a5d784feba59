//! Scattering rules for the supported surface types.
//!
//! Directions handed to this module are pre-scaled so that their length is
//! close to `FX_ONE` (see `normalize_fx`); every routine is specified by
//! the exact fixed-point formula it computes. Sampling needs no
//! trigonometry: hemisphere and half-vector directions come from rejection
//! sampling of the unit disk and from square roots of rational functions
//! of the random numbers.

use vstd::prelude::*;
use crate::fx::{fx_mul, fx_mul_spec, fx_div, saturate, isqrt, floor_div_i128, FX_ONE};
use crate::rng::{Rng, rng_next_state, rng_output};
use crate::scene::{sqrt_floor, is_sqrt_floor};
use crate::vector::{Vector3, vec_bounded, dot_spec, cross_x_spec, cross_y_spec, cross_z_spec};

verus! {

/// Magnitude bound of a normalized direction: `normalize_fx` may overshoot
/// the unit length by one rounding step, never by a factor of two.
pub const UNIT_LIM: i64 = 131072;

/// Square of a fixed-point scalar, rounded toward minus infinity.
pub open spec fn fx_sq_spec(x: int) -> int {
    (x * x) / (FX_ONE as int)
}

/// Square a possibly negative fixed-point scalar.
pub fn fx_sq(x: i64) -> (r: i64)
    requires
        -UNIT_LIM * 4 <= x <= UNIT_LIM * 4,
    ensures
        r == fx_sq_spec(x as int),
        0 <= r <= 4194304,
{
    proof {
        crate::fx::lemma_mul_bounds(x as int, x as int, 524288, 524288);
        crate::fx::lemma_square_nonneg(x as int);
        vstd::arithmetic::div_mod::lemma_div_is_ordered(0, x as int * x as int, 65536);
    }
    let p: i128 = (x as i128) * (x as i128);
    ((p as u128) / 65536) as i64
}

/// Floor square root of a nonnegative fixed-point scalar:
/// `sqrt_floor(x * FX_ONE)`, so that squaring it lands back near `x`.
pub fn fx_sqrt(x: i64) -> (r: i64)
    requires
        0 <= x <= 0x40_0000_0000,
    ensures
        r == sqrt_floor(x as int * FX_ONE as int),
        0 <= r <= 0x800_0000,
        r as int * r as int <= x as int * FX_ONE as int,
{
    proof {
        assert((1u128 << 120) == 1329227995784915872903807060280344576) by (bit_vector);
        crate::fx::lemma_mul_bounds(x as int, FX_ONE as int, 0x40_0000_0000, 65536);
    }
    let n: u128 = (x as u128) * (FX_ONE as u128);
    let s = isqrt(n);
    proof {
        assert(is_sqrt_floor(x as int * FX_ONE as int, s as int));
        crate::scene::lemma_sqrt_floor_bound(s as int, x as int * FX_ONE as int, 0x800_0001int);
        crate::scene::lemma_sqrt_floor_agrees(x as int * FX_ONE as int, s as int);
    }
    s as i64
}

/// Mirror reflection of `d` about `n`, scaled by `n . n` to stay on the
/// integer grid: `(n.n) d - 2 (d.n) n`.
pub open spec fn reflect_spec(d: Vector3, n: Vector3) -> Vector3 {
    let nn = dot_spec(n, n);
    let dn = dot_spec(d, n);
    Vector3 {
        x: (nn * d.x - 2 * (dn * n.x)) as i64,
        y: (nn * d.y - 2 * (dn * n.y)) as i64,
        z: (nn * d.z - 2 * (dn * n.z)) as i64,
    }
}

/// The reflected direction makes the opposite angle with the normal:
/// `reflect(d, n) . n == -(d . n) (n . n)`.
pub proof fn lemma_reflect_mirror(
    dx: int, dy: int, dz: int,
    nx: int, ny: int, nz: int,
    nn: int, dn: int,
)
    requires
        nn == nx * nx + ny * ny + nz * nz,
        dn == dx * nx + dy * ny + dz * nz,
    ensures
        (nn * dx - 2 * (dn * nx)) * nx
            + (nn * dy - 2 * (dn * ny)) * ny
            + (nn * dz - 2 * (dn * nz)) * nz
            == -(dn * nn),
{
    lemma_reflect_expand(dx, nx, nn, dn);
    lemma_reflect_expand(dy, ny, nn, dn);
    lemma_reflect_expand(dz, nz, nn, dn);
    lemma_reflect_collect(dx, dy, dz, nx, ny, nz, nn, dn);
}

/// One coordinate of the mirror expansion.
proof fn lemma_reflect_expand(d: int, n: int, nn: int, dn: int) by (nonlinear_arith)
    ensures
        (nn * d - 2 * (dn * n)) * n == nn * (d * n) - 2 * (dn * (n * n)),
{
}

/// Collect the three expanded coordinates back into the two dot products.
proof fn lemma_reflect_collect(
    dx: int, dy: int, dz: int,
    nx: int, ny: int, nz: int,
    nn: int, dn: int,
) by (nonlinear_arith)
    requires
        nn == nx * nx + ny * ny + nz * nz,
        dn == dx * nx + dy * ny + dz * nz,
    ensures
        nn * (dx * nx) - 2 * (dn * (nx * nx))
            + (nn * (dy * ny) - 2 * (dn * (ny * ny)))
            + (nn * (dz * nz) - 2 * (dn * (nz * nz)))
            == -(dn * nn),
{
}

/// Reflect the direction `d` about the normal `n` (both on the normalized
/// grid scale).
pub fn reflect(d: &Vector3, n: &Vector3) -> (r: Vector3)
    requires
        vec_bounded(*d, 4 * UNIT_LIM as int),
        vec_bounded(*n, 4 * UNIT_LIM as int),
    ensures
        r == reflect_spec(*d, *n),
        dot_spec(r, *n) == -(dot_spec(*d, *n) * dot_spec(*n, *n)),
        vec_bounded(r, 0x4000_0000_0000_0000),
{
    proof {
        crate::fx::lemma_mul_bounds(n.x as int, n.x as int, 524288, 524288);
        crate::fx::lemma_mul_bounds(n.y as int, n.y as int, 524288, 524288);
        crate::fx::lemma_mul_bounds(n.z as int, n.z as int, 524288, 524288);
        crate::fx::lemma_mul_bounds(d.x as int, n.x as int, 524288, 524288);
        crate::fx::lemma_mul_bounds(d.y as int, n.y as int, 524288, 524288);
        crate::fx::lemma_mul_bounds(d.z as int, n.z as int, 524288, 524288);
    }
    let nn: i64 = n.x * n.x + n.y * n.y + n.z * n.z;
    let dn: i64 = d.x * n.x + d.y * n.y + d.z * n.z;
    proof {
        crate::fx::lemma_mul_bounds(nn as int, d.x as int, 824633720832, 524288);
        crate::fx::lemma_mul_bounds(nn as int, d.y as int, 824633720832, 524288);
        crate::fx::lemma_mul_bounds(nn as int, d.z as int, 824633720832, 524288);
        crate::fx::lemma_mul_bounds(dn as int, n.x as int, 824633720832, 524288);
        crate::fx::lemma_mul_bounds(dn as int, n.y as int, 824633720832, 524288);
        crate::fx::lemma_mul_bounds(dn as int, n.z as int, 824633720832, 524288);
    }
    let mx: i128 = (nn as i128) * (d.x as i128);
    let my: i128 = (nn as i128) * (d.y as i128);
    let mz: i128 = (nn as i128) * (d.z as i128);
    let kx: i128 = (dn as i128) * (n.x as i128);
    let ky: i128 = (dn as i128) * (n.y as i128);
    let kz: i128 = (dn as i128) * (n.z as i128);
    let r = Vector3 {
        x: (mx - 2 * kx) as i64,
        y: (my - 2 * ky) as i64,
        z: (mz - 2 * kz) as i64,
    };
    proof {
        lemma_reflect_mirror(
            d.x as int, d.y as int, d.z as int,
            n.x as int, n.y as int, n.z as int,
            nn as int, dn as int,
        );
    }
    r
}

/// Fifth power of a unit-interval fixed-point scalar.
pub open spec fn fx_pow5_spec(x: int) -> int {
    fx_mul_spec(fx_mul_spec(fx_mul_spec(fx_mul_spec(x, x), x), x), x)
}

/// Schlick's approximation of the Fresnel reflectance:
/// `f0 + (1 - f0) * (1 - cos)^5`, everything in the unit interval.
pub open spec fn f_schlick_spec(cos: int, f0: int) -> int {
    f0 + fx_mul_spec(FX_ONE as int - f0, fx_pow5_spec(FX_ONE as int - cos))
}

/// Fixed-point products of unit-interval scalars stay in the unit interval.
pub proof fn lemma_unit_mul(a: int, b: int)
    requires
        0 <= a <= FX_ONE as int,
        0 <= b <= FX_ONE as int,
    ensures
        0 <= fx_mul_spec(a, b) <= FX_ONE as int,
        fx_mul_spec(a, b) <= a,
{
    crate::fx::lemma_mul_bounds(a, b, a, 65536);
    crate::fx::lemma_square_nonneg_pair(a, b);
    vstd::arithmetic::div_mod::lemma_div_is_ordered(0, a * b, 65536);
    vstd::arithmetic::div_mod::lemma_div_is_ordered(a * b, a * 65536, 65536);
    vstd::arithmetic::div_mod::lemma_div_by_multiple(a, 65536);
}

/// Schlick Fresnel term.
pub fn f_schlick(cos: i64, f0: i64) -> (r: i64)
    requires
        0 <= cos <= FX_ONE,
        0 <= f0 <= FX_ONE,
    ensures
        r == f_schlick_spec(cos as int, f0 as int),
        0 <= r <= FX_ONE,
{
    let one_minus = FX_ONE - cos;
    proof {
        lemma_unit_mul(one_minus as int, one_minus as int);
        lemma_unit_mul(fx_mul_spec(one_minus as int, one_minus as int), one_minus as int);
        lemma_unit_mul(
            fx_mul_spec(fx_mul_spec(one_minus as int, one_minus as int), one_minus as int),
            one_minus as int);
        lemma_unit_mul(
            fx_mul_spec(
                fx_mul_spec(fx_mul_spec(one_minus as int, one_minus as int), one_minus as int),
                one_minus as int),
            one_minus as int);
    }
    let p2 = fx_mul(one_minus, one_minus);
    let p3 = fx_mul(p2, one_minus);
    let p4 = fx_mul(p3, one_minus);
    let p5 = fx_mul(p4, one_minus);
    proof {
        lemma_unit_mul(FX_ONE as int - f0, p5 as int);
    }
    f0 + fx_mul(FX_ONE - f0, p5)
}

/// Normal-incidence reflectance of a dielectric boundary:
/// `((ior - 1) / (ior + 1))^2`, clamped to the unit interval.
pub open spec fn fresnel_f0_spec(ior: int) -> int {
    let diff = if ior >= FX_ONE as int { ior - FX_ONE as int } else { FX_ONE as int - ior };
    let ratio_raw = (diff * FX_ONE as int) / (ior + FX_ONE as int);
    let ratio = if ratio_raw > FX_ONE as int { FX_ONE as int } else { ratio_raw };
    fx_mul_spec(ratio, ratio)
}

pub fn fresnel_f0(refractive_index: i64) -> (r: i64)
    requires
        FX_ONE / 2 <= refractive_index <= 8 * FX_ONE,
    ensures
        r == fresnel_f0_spec(refractive_index as int),
        0 <= r <= FX_ONE,
{
    let diff = if refractive_index >= FX_ONE {
        refractive_index - FX_ONE
    } else {
        FX_ONE - refractive_index
    };
    let ratio_raw = fx_div(diff, refractive_index + FX_ONE);
    let ratio = if ratio_raw > FX_ONE { FX_ONE } else { ratio_raw };
    proof {
        lemma_unit_mul(ratio as int, ratio as int);
    }
    fx_mul(ratio, ratio)
}

/// Map a surface roughness to the squared GGX slope parameter:
/// `alpha = roughness^2`, `alpha2 = alpha^2`.
pub fn roughness_to_alpha2(roughness: i64) -> (r: i64)
    requires
        0 <= roughness <= FX_ONE,
    ensures
        r == alpha2_spec(roughness as int),
        0 <= r <= FX_ONE,
{
    proof {
        lemma_unit_mul(roughness as int, roughness as int);
        lemma_unit_mul(
            fx_mul_spec(roughness as int, roughness as int),
            fx_mul_spec(roughness as int, roughness as int));
    }
    let alpha = fx_mul(roughness, roughness);
    fx_mul(alpha, alpha)
}

/// Smith joint masking-shadowing term in the slope-space approximation:
/// `0.5 / lerp(2 nl nv, nl + nv, alpha)`, clamped to the unit interval;
/// a vanishing denominator floors to the smallest positive step.
pub open spec fn g_smith_joint_spec(nl: int, nv: int, alpha: int) -> int {
    let lerp = fx_mul_spec(FX_ONE as int - alpha, 2 * fx_mul_spec(nl, nv))
        + fx_mul_spec(alpha, nl + nv);
    let den = if lerp < 1 { 1int } else { lerp };
    let g = (FX_ONE as int * FX_ONE as int) / (2 * den);
    if g > FX_ONE as int { FX_ONE as int } else { g }
}

pub fn g_smith_joint(nl: i64, nv: i64, alpha: i64) -> (r: i64)
    requires
        0 <= nl <= FX_ONE,
        0 <= nv <= FX_ONE,
        0 <= alpha <= FX_ONE,
    ensures
        r == g_smith_joint_spec(nl as int, nv as int, alpha as int),
        0 <= r <= FX_ONE,
{
    proof {
        lemma_unit_mul(nl as int, nv as int);
        crate::fx::lemma_mul_bounds(FX_ONE as int - alpha, 2 * fx_mul_spec(nl as int, nv as int),
            65536, 131072);
        crate::fx::lemma_mul_bounds(alpha as int, nl as int + nv as int, 65536, 131072);
    }
    let two_nlnv = 2 * fx_mul(nl, nv);
    let lerp = fx_mul(FX_ONE - alpha, two_nlnv) + fx_mul(alpha, nl + nv);
    let den: i64 = if lerp < 1 { 1 } else { lerp };
    proof {
        vstd::arithmetic::div_mod::lemma_div_is_ordered_by_denominator(
            FX_ONE as int * FX_ONE as int, 2, 2 * den as int);
    }
    let g: i64 = ((FX_ONE as u64 * FX_ONE as u64) / (2 * den as u64)) as i64;
    if g > FX_ONE {
        FX_ONE
    } else {
        g
    }
}

/// The importance-sampling weight of a GGX half-vector sample:
/// `f * saturate(g * vh / max(hn * vn, eps))`, with all dot products
/// already clamped to the unit interval.
pub open spec fn ggx_weight_spec(f: int, g: int, vh: int, hn: int, vn: int) -> int {
    let den_raw = fx_mul_spec(hn, vn);
    let den = if den_raw < 16 { 16int } else { den_raw };
    let quot = (fx_mul_spec(g, vh) * FX_ONE as int) / den;
    let sat = if quot > FX_ONE as int { FX_ONE as int } else { quot };
    fx_mul_spec(f, sat)
}

pub fn ggx_weight(f: i64, g: i64, vh: i64, hn: i64, vn: i64) -> (r: i64)
    requires
        0 <= f <= FX_ONE,
        0 <= g <= FX_ONE,
        0 <= vh <= FX_ONE,
        0 <= hn <= FX_ONE,
        0 <= vn <= FX_ONE,
    ensures
        r == ggx_weight_spec(f as int, g as int, vh as int, hn as int, vn as int),
        0 <= r <= FX_ONE,
{
    proof {
        lemma_unit_mul(hn as int, vn as int);
        lemma_unit_mul(g as int, vh as int);
    }
    let den_raw = fx_mul(hn, vn);
    let den: i64 = if den_raw < 16 { 16 } else { den_raw };
    let num = fx_mul(g, vh);
    let quot: i64 = ((num as u64 * FX_ONE as u64) / (den as u64)) as i64;
    let sat: i64 = if quot > FX_ONE { FX_ONE } else { quot };
    proof {
        lemma_unit_mul(f as int, sat as int);
    }
    fx_mul(f, sat)
}

/// Clamp an intermediate direction component to eight unit lengths.
pub open spec fn clamp_dir(v: int) -> int {
    if v < -8 * FX_ONE as int { -8 * FX_ONE as int }
    else if v > 8 * FX_ONE as int { 8 * FX_ONE as int }
    else { v }
}

/// Exec mirror of `clamp_dir`.
fn clamp_dir_exec(v: i128) -> (r: i64)
    ensures
        r == clamp_dir(v as int),
        -8 * FX_ONE <= r <= 8 * FX_ONE,
{
    let lim: i128 = 8 * (FX_ONE as i128);
    if v < -lim {
        -8 * FX_ONE
    } else if v > lim {
        8 * FX_ONE
    } else {
        v as i64
    }
}

/// A direction rescaled to roughly unit length: each component is
/// `floor(v_i * FX_ONE / l)` for `l = floor(sqrt(v . v))`, clamped.
pub open spec fn normalize_spec(v: Vector3) -> Vector3 {
    let l = sqrt_floor(dot_spec(v, v));
    Vector3 {
        x: clamp_dir((v.x * FX_ONE as int) / l) as i64,
        y: clamp_dir((v.y * FX_ONE as int) / l) as i64,
        z: clamp_dir((v.z * FX_ONE as int) / l) as i64,
    }
}

/// Rescale a nonzero direction to roughly unit length.
pub fn normalize_fx(v: &Vector3) -> (r: Vector3)
    requires
        vec_bounded(*v, 0x80_0000_0000_0000),
        !(v.x == 0 && v.y == 0 && v.z == 0),
    ensures
        r == normalize_spec(*v),
        vec_bounded(r, 8 * FX_ONE as int),
{
    proof {
        crate::fx::lemma_mul_bounds(v.x as int, v.x as int, 36028797018963968, 36028797018963968);
        crate::fx::lemma_mul_bounds(v.y as int, v.y as int, 36028797018963968, 36028797018963968);
        crate::fx::lemma_mul_bounds(v.z as int, v.z as int, 36028797018963968, 36028797018963968);
        crate::fx::lemma_square_nonneg(v.x as int);
        crate::fx::lemma_square_nonneg(v.y as int);
        crate::fx::lemma_square_nonneg(v.z as int);
        if v.x != 0 {
            crate::scene::lemma_square_pos_pub(v.x as int);
        } else if v.y != 0 {
            crate::scene::lemma_square_pos_pub(v.y as int);
        } else {
            crate::scene::lemma_square_pos_pub(v.z as int);
        }
        assert((1u128 << 120) == 1329227995784915872903807060280344576) by (bit_vector);
    }
    let xx: i128 = (v.x as i128) * (v.x as i128);
    let yy: i128 = (v.y as i128) * (v.y as i128);
    let zz: i128 = (v.z as i128) * (v.z as i128);
    let nn: u128 = (xx as u128) + (yy as u128) + (zz as u128);
    let l_raw = isqrt(nn);
    proof {
        assert(is_sqrt_floor(nn as int, l_raw as int));
        crate::scene::lemma_sqrt_floor_agrees(nn as int, l_raw as int);
        crate::scene::lemma_sqrt_floor_bound(l_raw as int, nn as int, 144115188075855873int);
        assert(l_raw as int >= 1) by (nonlinear_arith)
            requires
                (nn as int) < (l_raw as int + 1) * (l_raw as int + 1),
                nn as int >= 1,
                l_raw as int >= 0,
        ;
        crate::fx::lemma_mul_bounds(v.x as int, FX_ONE as int, 36028797018963968, 65536);
        crate::fx::lemma_mul_bounds(v.y as int, FX_ONE as int, 36028797018963968, 65536);
        crate::fx::lemma_mul_bounds(v.z as int, FX_ONE as int, 36028797018963968, 65536);
    }
    let l: i128 = l_raw as i128;
    Vector3 {
        x: clamp_dir_exec(floor_div_i128((v.x as i128) * (FX_ONE as i128), l)),
        y: clamp_dir_exec(floor_div_i128((v.y as i128) * (FX_ONE as i128), l)),
        z: clamp_dir_exec(floor_div_i128((v.z as i128) * (FX_ONE as i128), l)),
    }
}

/// Cosine of the incidence angle against the oriented normal, on unit-scale
/// vectors: `saturate(-(d . n) / FX_ONE)`.
pub open spec fn refr_cos_spec(d: Vector3, n_or: Vector3) -> int {
    let c = (-dot_spec(d, n_or)) / (FX_ONE as int);
    if c < 0 { 0int } else if c > FX_ONE as int { FX_ONE as int } else { c }
}

/// Ratio of refractive indices along the travel direction.
pub open spec fn refr_eta_spec(into: bool, ior: int) -> int {
    if into { (FX_ONE as int * FX_ONE as int) / ior } else { ior }
}

/// Discriminant of Snell's law: negative means total internal reflection.
pub open spec fn refr_k_spec(eta: int, cos: int) -> int {
    FX_ONE as int - fx_mul_spec(fx_mul_spec(eta, eta), FX_ONE as int - fx_mul_spec(cos, cos))
}

/// The refracted direction `eta d + (eta cos - sqrt(k)) n`, componentwise
/// in fixed point, clamped.
pub open spec fn refr_dir_spec(d: Vector3, n_or: Vector3, eta: int, cos: int, k: int) -> Vector3 {
    let coef = fx_mul_spec(eta, cos) - sqrt_floor(k * FX_ONE as int);
    Vector3 {
        x: clamp_dir((eta * d.x) / (FX_ONE as int) + (coef * n_or.x) / (FX_ONE as int)) as i64,
        y: clamp_dir((eta * d.y) / (FX_ONE as int) + (coef * n_or.y) / (FX_ONE as int)) as i64,
        z: clamp_dir((eta * d.z) / (FX_ONE as int) + (coef * n_or.z) / (FX_ONE as int)) as i64,
    }
}

/// The whole dielectric sample as one value: the Fresnel-selected branch
/// and the direction it produces.
pub open spec fn refraction_sample_spec(random: i64, d: Vector3, n: Vector3, ior: i64)
    -> (Vector3, bool) {
    let into = dot_spec(d, n) < 0;
    let n_or = if into { n } else {
        Vector3 { x: (-n.x) as i64, y: (-n.y) as i64, z: (-n.z) as i64 }
    };
    let cos = refr_cos_spec(d, n_or);
    let f = f_schlick_spec(cos, fresnel_f0_spec(ior as int));
    let eta = refr_eta_spec(into, ior as int);
    let k = refr_k_spec(eta, cos);
    if random < f || k < 0 {
        (reflect_spec(d, n_or), true)
    } else {
        (refr_dir_spec(d, n_or, eta, cos, k), false)
    }
}

/// The squared GGX slope parameter of a roughness value:
/// `alpha2 = (roughness^2)^2`.
pub open spec fn alpha2_spec(roughness: int) -> int {
    fx_mul_spec(fx_mul_spec(roughness, roughness), fx_mul_spec(roughness, roughness))
}

/// Dielectric scattering: the Fresnel term of the incidence angle selects
/// reflection with probability `F` (the random number is the selector);
/// otherwise Snell's law refracts the ray, falling back to reflection when
/// the discriminant turns negative (total internal reflection). The second
/// result reports which branch was taken.
pub fn sample_refraction(
    random: i64,
    direction: &Vector3,
    normal: &Vector3,
    refractive_index: i64,
) -> (r: (Vector3, bool))
    requires
        vec_bounded(*direction, 8 * FX_ONE as int),
        vec_bounded(*normal, 8 * FX_ONE as int),
        0 <= random < FX_ONE,
        FX_ONE / 2 <= refractive_index <= 8 * FX_ONE,
    ensures
        ({
            let into = dot_spec(*direction, *normal) < 0;
            let n_or = if into { *normal } else {
                Vector3 { x: (-normal.x) as i64, y: (-normal.y) as i64, z: (-normal.z) as i64 }
            };
            let cos = refr_cos_spec(*direction, n_or);
            let f = f_schlick_spec(cos, fresnel_f0_spec(refractive_index as int));
            let eta = refr_eta_spec(into, refractive_index as int);
            let k = refr_k_spec(eta, cos);
            &&& r.1 == (random < f || k < 0)
            &&& (random < f || k < 0) ==> r.0 == reflect_spec(*direction, n_or)
            &&& !(random < f || k < 0) ==> r.0 == refr_dir_spec(*direction, n_or, eta, cos, k)
        }),
        r == refraction_sample_spec(random, *direction, *normal, refractive_index),
        vec_bounded(r.0, 0x4000_0000_0000_0000),
{
    proof {
        crate::fx::lemma_mul_bounds(direction.x as int, normal.x as int, 524288, 524288);
        crate::fx::lemma_mul_bounds(direction.y as int, normal.y as int, 524288, 524288);
        crate::fx::lemma_mul_bounds(direction.z as int, normal.z as int, 524288, 524288);
    }
    let dn0: i64 = direction.x * normal.x + direction.y * normal.y + direction.z * normal.z;
    let into = dn0 < 0;
    let n_or = if into {
        *normal
    } else {
        Vector3 { x: -normal.x, y: -normal.y, z: -normal.z }
    };
    proof {
        crate::fx::lemma_mul_bounds(direction.x as int, n_or.x as int, 524288, 524288);
        crate::fx::lemma_mul_bounds(direction.y as int, n_or.y as int, 524288, 524288);
        crate::fx::lemma_mul_bounds(direction.z as int, n_or.z as int, 524288, 524288);
    }
    let dn: i64 = direction.x * n_or.x + direction.y * n_or.y + direction.z * n_or.z;
    let cos_raw = floor_div_i128(-(dn as i128), FX_ONE as i128);
    let cos = saturate(cos_raw as i64);
    let f0 = fresnel_f0(refractive_index);
    let f = f_schlick(cos, f0);

    let eta: i64 = if into {
        ((FX_ONE as u64 * FX_ONE as u64) / (refractive_index as u64)) as i64
    } else {
        refractive_index
    };
    proof {
        vstd::arithmetic::div_mod::lemma_div_is_ordered_by_denominator(
            FX_ONE as int * FX_ONE as int, 32768, refractive_index as int);
    }
    proof {
        lemma_unit_mul(cos as int, cos as int);
        crate::fx::lemma_mul_bounds(eta as int, eta as int, 524288, 524288);
        crate::fx::lemma_mul_bounds(eta as int, cos as int, 524288, 65536);
    }
    let eta2 = fx_mul(eta, eta);
    let sin2 = FX_ONE - fx_mul(cos, cos);
    proof {
        crate::fx::lemma_mul_bounds(eta2 as int, sin2 as int, 17179869184, 65536);
        crate::fx::lemma_square_nonneg_pair(eta2 as int, sin2 as int);
        vstd::arithmetic::div_mod::lemma_div_is_ordered(0, eta2 as int * sin2 as int, 65536);
    }
    let k = FX_ONE - fx_mul(eta2, sin2);

    if random < f || k < 0 {
        let refl = reflect(direction, &n_or);
        proof {
            crate::fx::lemma_mul_bounds(n_or.x as int, n_or.x as int, 524288, 524288);
            crate::fx::lemma_mul_bounds(n_or.y as int, n_or.y as int, 524288, 524288);
            crate::fx::lemma_mul_bounds(n_or.z as int, n_or.z as int, 524288, 524288);
            crate::fx::lemma_mul_bounds(
                dot_spec(n_or, n_or), direction.x as int, 824633720832, 524288);
            crate::fx::lemma_mul_bounds(
                dot_spec(n_or, n_or), direction.y as int, 824633720832, 524288);
            crate::fx::lemma_mul_bounds(
                dot_spec(n_or, n_or), direction.z as int, 824633720832, 524288);
            crate::fx::lemma_mul_bounds(
                dot_spec(*direction, n_or), n_or.x as int, 824633720832, 524288);
            crate::fx::lemma_mul_bounds(
                dot_spec(*direction, n_or), n_or.y as int, 824633720832, 524288);
            crate::fx::lemma_mul_bounds(
                dot_spec(*direction, n_or), n_or.z as int, 824633720832, 524288);
        }
        (refl, true)
    } else {
        let sqrt_k = fx_sqrt(k);
        let coef: i64 = fx_mul(eta, cos) - sqrt_k;
        proof {
            crate::fx::lemma_mul_bounds(eta as int, direction.x as int, 524288, 524288);
            crate::fx::lemma_mul_bounds(eta as int, direction.y as int, 524288, 524288);
            crate::fx::lemma_mul_bounds(eta as int, direction.z as int, 524288, 524288);
            crate::fx::lemma_mul_bounds(coef as int, n_or.x as int, 134742016, 524288);
            crate::fx::lemma_mul_bounds(coef as int, n_or.y as int, 134742016, 524288);
            crate::fx::lemma_mul_bounds(coef as int, n_or.z as int, 134742016, 524288);
            crate::fx::lemma_square_nonneg_pair(eta as int, cos as int);
            vstd::arithmetic::div_mod::lemma_div_is_ordered(0, eta as int * cos as int, 65536);
        }
        let tx = clamp_dir_exec(
            floor_div_i128((eta as i128) * (direction.x as i128), FX_ONE as i128)
            + floor_div_i128((coef as i128) * (n_or.x as i128), FX_ONE as i128));
        let ty = clamp_dir_exec(
            floor_div_i128((eta as i128) * (direction.y as i128), FX_ONE as i128)
            + floor_div_i128((coef as i128) * (n_or.y as i128), FX_ONE as i128));
        let tz = clamp_dir_exec(
            floor_div_i128((eta as i128) * (direction.z as i128), FX_ONE as i128)
            + floor_div_i128((coef as i128) * (n_or.z as i128), FX_ONE as i128));
        (Vector3 { x: tx, y: ty, z: tz }, false)
    }
}

/// One fixed-point component combination `(a*x + b*y + c*z) / FX_ONE`,
/// clamped: the workhorse of frame-to-world direction assembly.
fn comb3(a: i64, x: i64, b: i64, y: i64, c: i64, z: i64) -> (r: i64)
    requires
        -131072 <= a <= 131072,
        -131072 <= b <= 131072,
        -131072 <= c <= 131072,
        -8 * FX_ONE <= x <= 8 * FX_ONE,
        -8 * FX_ONE <= y <= 8 * FX_ONE,
        -8 * FX_ONE <= z <= 8 * FX_ONE,
    ensures
        r == clamp_dir(
            (a as int * x as int) / (FX_ONE as int)
            + (b as int * y as int) / (FX_ONE as int)
            + (c as int * z as int) / (FX_ONE as int)),
        -8 * FX_ONE <= r <= 8 * FX_ONE,
{
    proof {
        crate::fx::lemma_mul_bounds(a as int, x as int, 131072, 524288);
        crate::fx::lemma_mul_bounds(b as int, y as int, 131072, 524288);
        crate::fx::lemma_mul_bounds(c as int, z as int, 131072, 524288);
    }
    let s1 = floor_div_i128((a as i128) * (x as i128), FX_ONE as i128);
    let s2 = floor_div_i128((b as i128) * (y as i128), FX_ONE as i128);
    let s3 = floor_div_i128((c as i128) * (z as i128), FX_ONE as i128);
    clamp_dir_exec(s1 + s2 + s3)
}

/// The frame `basis_spec` computes: the cross product of the normal with
/// the less-aligned coordinate axis, renormalized, and the cross product
/// of normal and first tangent, renormalized; a degenerate
/// (rounded-to-zero) cross product falls back to a fixed direction.
pub open spec fn basis_spec(n: Vector3) -> (Vector3, Vector3) {
    let axis = if -32768 < n.x && n.x < 32768 {
        Vector3 { x: FX_ONE, y: 0i64, z: 0i64 }
    } else {
        Vector3 { x: 0i64, y: FX_ONE, z: 0i64 }
    };
    let c1 = Vector3 {
        x: cross_x_spec(n, axis) as i64,
        y: cross_y_spec(n, axis) as i64,
        z: cross_z_spec(n, axis) as i64,
    };
    let t1 = if c1.x == 0 && c1.y == 0 && c1.z == 0 {
        Vector3 { x: 0i64, y: FX_ONE, z: 0i64 }
    } else {
        normalize_spec(c1)
    };
    let c2 = Vector3 {
        x: cross_x_spec(n, t1) as i64,
        y: cross_y_spec(n, t1) as i64,
        z: cross_z_spec(n, t1) as i64,
    };
    let t2 = if c2.x == 0 && c2.y == 0 && c2.z == 0 {
        Vector3 { x: 0i64, y: 0i64, z: FX_ONE }
    } else {
        normalize_spec(c2)
    };
    (t1, t2)
}

/// Two tangent directions spanning the plane orthogonal to the unit-scale
/// normal, exactly as `basis_spec` lays them out.
pub fn orthonormal_basis(unit_normal: &Vector3) -> (r: (Vector3, Vector3))
    requires
        vec_bounded(*unit_normal, 8 * FX_ONE as int),
    ensures
        vec_bounded(r.0, 8 * FX_ONE as int),
        vec_bounded(r.1, 8 * FX_ONE as int),
        r.0 == basis_spec(*unit_normal).0,
        r.1 == basis_spec(*unit_normal).1,
{
    let n = *unit_normal;
    let axis = if -32768 < n.x && n.x < 32768 {
        Vector3 { x: FX_ONE, y: 0, z: 0 }
    } else {
        Vector3 { x: 0, y: FX_ONE, z: 0 }
    };
    let c1 = n.cross(&axis);
    proof {
        crate::fx::lemma_mul_bounds(n.x as int, axis.x as int, 524288, 65536);
        crate::fx::lemma_mul_bounds(n.y as int, axis.y as int, 524288, 65536);
        crate::fx::lemma_mul_bounds(n.z as int, axis.z as int, 524288, 65536);
        crate::fx::lemma_mul_bounds(n.x as int, axis.y as int, 524288, 65536);
        crate::fx::lemma_mul_bounds(n.y as int, axis.z as int, 524288, 65536);
        crate::fx::lemma_mul_bounds(n.z as int, axis.x as int, 524288, 65536);
        crate::fx::lemma_mul_bounds(n.x as int, axis.z as int, 524288, 65536);
        crate::fx::lemma_mul_bounds(n.y as int, axis.x as int, 524288, 65536);
        crate::fx::lemma_mul_bounds(n.z as int, axis.y as int, 524288, 65536);
    }
    let t1 = if c1.x == 0 && c1.y == 0 && c1.z == 0 {
        Vector3 { x: 0, y: FX_ONE, z: 0 }
    } else {
        normalize_fx(&c1)
    };
    let c2 = n.cross(&t1);
    proof {
        crate::fx::lemma_mul_bounds(n.x as int, t1.x as int, 524288, 524288);
        crate::fx::lemma_mul_bounds(n.y as int, t1.y as int, 524288, 524288);
        crate::fx::lemma_mul_bounds(n.z as int, t1.z as int, 524288, 524288);
        crate::fx::lemma_mul_bounds(n.x as int, t1.y as int, 524288, 524288);
        crate::fx::lemma_mul_bounds(n.y as int, t1.z as int, 524288, 524288);
        crate::fx::lemma_mul_bounds(n.z as int, t1.x as int, 524288, 524288);
        crate::fx::lemma_mul_bounds(n.x as int, t1.z as int, 524288, 524288);
        crate::fx::lemma_mul_bounds(n.y as int, t1.x as int, 524288, 524288);
        crate::fx::lemma_mul_bounds(n.z as int, t1.y as int, 524288, 524288);
    }
    let t2 = if c2.x == 0 && c2.y == 0 && c2.z == 0 {
        Vector3 { x: 0, y: 0, z: FX_ONE }
    } else {
        normalize_fx(&c2)
    };
    (t1, t2)
}

/// The point of the unit disk that rejection sampling from the enclosing
/// square finds in at most `fuel` tries, with the stream state it leaves
/// behind; the disk center stands in when every try rejects.
pub open spec fn disk_point(state: u64, fuel: nat) -> (i64, i64, u64)
    decreases fuel,
{
    if fuel == 0 {
        (0i64, 0i64, state)
    } else {
        let s1 = rng_next_state(state);
        let u1 = (rng_output(state) >> 48) as i64;
        let s2 = rng_next_state(s1);
        let u2 = (rng_output(s1) >> 48) as i64;
        let x = (2 * u1 - FX_ONE) as i64;
        let y = (2 * u2 - FX_ONE) as i64;
        if fx_sq_spec(x as int) + fx_sq_spec(y as int) <= FX_ONE as int {
            (x, y, s2)
        } else {
            disk_point(s2, (fuel - 1) as nat)
        }
    }
}

/// A point of the unit disk (or the disk center after too many tries),
/// found by rejection from the enclosing square: exactly `disk_point` of
/// the incoming stream state.
fn sample_disk(rng: &mut Rng) -> (r: (i64, i64))
    ensures
        -FX_ONE <= r.0 <= FX_ONE,
        -FX_ONE <= r.1 <= FX_ONE,
        fx_sq_spec(r.0 as int) + fx_sq_spec(r.1 as int) <= FX_ONE as int,
        r.0 == disk_point(old(rng).state, 64).0,
        r.1 == disk_point(old(rng).state, 64).1,
        final(rng).state == disk_point(old(rng).state, 64).2,
{
    let ghost orig_state = rng.state;
    let mut tries: u32 = 0;
    while tries < 64
        invariant
            orig_state == old(rng).state,
            0 <= tries <= 64,
            disk_point(orig_state, 64) == disk_point(rng.state, (64 - tries) as nat),
        decreases 64 - tries,
    {
        let u1 = rng.next_unit();
        let u2 = rng.next_unit();
        let x = 2 * u1 - FX_ONE;
        let y = 2 * u2 - FX_ONE;
        let d2 = fx_sq(x) + fx_sq(y);
        if d2 <= FX_ONE {
            return (x, y);
        }
        tries += 1;
    }
    proof {
        assert(fx_sq_spec(0) == 0) by {
            assert(0int * 0int == 0) by (nonlinear_arith);
        }
    }
    (0, 0)
}

/// Clamp a long intermediate direction into the normalizer's input range.
pub open spec fn shrink_spec(v: Vector3) -> Vector3 {
    Vector3 {
        x: if v.x < -0x80_0000_0000_0000i64 { -0x80_0000_0000_0000i64 }
            else if v.x > 0x80_0000_0000_0000i64 { 0x80_0000_0000_0000i64 } else { v.x },
        y: if v.y < -0x80_0000_0000_0000i64 { -0x80_0000_0000_0000i64 }
            else if v.y > 0x80_0000_0000_0000i64 { 0x80_0000_0000_0000i64 } else { v.y },
        z: if v.z < -0x80_0000_0000_0000i64 { -0x80_0000_0000_0000i64 }
            else if v.z > 0x80_0000_0000_0000i64 { 0x80_0000_0000_0000i64 } else { v.z },
    }
}

/// The unit-scale half vector: the normalized sample, or the shading
/// normal when the sample rounded to zero.
pub open spec fn half_unit_spec(half: Vector3, unit_n: Vector3) -> Vector3 {
    if half.x == 0 && half.y == 0 && half.z == 0 {
        unit_n
    } else {
        normalize_spec(half)
    }
}

/// Clamp to the unit interval, the spec side of `saturate`.
pub open spec fn sat_unit(v: int) -> int {
    if v < 0 { 0int } else if v > FX_ONE as int { FX_ONE as int } else { v }
}

/// The cosine-weighted hemisphere sample drawn from the given stream
/// state: the disk point is lifted by `z = sqrt(1 - x^2 - y^2)` and laid
/// into the frame about the normalized normal.
#[verifier::opaque]
pub open spec fn diffuse_sample_spec(state: u64, normal: Vector3) -> Vector3 {
    let unit_n = normalize_spec(normal);
    let t1 = basis_spec(unit_n).0;
    let t2 = basis_spec(unit_n).1;
    let x = disk_point(state, 64).0;
    let y = disk_point(state, 64).1;
    let d2 = fx_sq_spec(x as int) + fx_sq_spec(y as int);
    let rest = if d2 > FX_ONE as int { 0int } else { FX_ONE as int - d2 };
    let z = sat_unit(sqrt_floor(rest * FX_ONE as int));
    Vector3 {
        x: clamp_dir(
            (x * t1.x) / (FX_ONE as int) + (y * t2.x) / (FX_ONE as int)
                + (z * unit_n.x) / (FX_ONE as int)) as i64,
        y: clamp_dir(
            (x * t1.y) / (FX_ONE as int) + (y * t2.y) / (FX_ONE as int)
                + (z * unit_n.y) / (FX_ONE as int)) as i64,
        z: clamp_dir(
            (x * t1.z) / (FX_ONE as int) + (y * t2.z) / (FX_ONE as int)
                + (z * unit_n.z) / (FX_ONE as int)) as i64,
    }
}

/// Cosine-weighted hemisphere sample about the normal: a rejection-sampled
/// point of the unit disk is lifted to the hemisphere
/// (`z = sqrt(1 - x^2 - y^2)`), which weights directions by the cosine
/// against the normal without any trigonometry. The result is exactly
/// `diffuse_sample_spec` of the incoming stream state.
pub fn importance_sample_diffuse(rng: &mut Rng, normal: &Vector3) -> (r: Vector3)
    requires
        vec_bounded(*normal, 0x80_0000_0000_0000),
        !(normal.x == 0 && normal.y == 0 && normal.z == 0),
    ensures
        vec_bounded(r, 8 * FX_ONE as int),
        r == diffuse_sample_spec(old(rng).state, *normal),
        final(rng).state == disk_point(old(rng).state, 64).2,
{
    proof {
        reveal(diffuse_sample_spec);
    }
    let unit_n = normalize_fx(normal);
    let (t1, t2) = orthonormal_basis(&unit_n);
    let (x, y) = sample_disk(rng);
    let d2 = fx_sq(x) + fx_sq(y);
    let rest = if d2 > FX_ONE { 0 } else { FX_ONE - d2 };
    let z = saturate(fx_sqrt(rest));
    Vector3 {
        x: comb3(x, t1.x, y, t2.x, z, unit_n.x),
        y: comb3(x, t1.y, y, t2.y, z, unit_n.y),
        z: comb3(x, t1.z, y, t2.z, z, unit_n.z),
    }
}

/// The GGX-distributed half-vector drawn from the given stream state: the
/// polar cosine is `sqrt((1 - u) / (1 + (alpha2 - 1) u))` for the first
/// uniform draw, the azimuth direction comes from the disk point of the
/// remaining stream, and the frame about the normalized normal assembles
/// the vector.
#[verifier::opaque]
pub open spec fn ggx_sample_spec(state: u64, normal: Vector3, alpha2: i64) -> Vector3 {
    let unit_n = normalize_spec(normal);
    let t1 = basis_spec(unit_n).0;
    let t2 = basis_spec(unit_n).1;
    let u = (rng_output(state) >> 48) as i64;
    let s1 = rng_next_state(state);
    let den = FX_ONE as int - u + fx_mul_spec(alpha2 as int, u as int);
    let den_pos = if den < 1 { 1int } else { den };
    let ratio = sat_unit(((FX_ONE as int - u) * FX_ONE as int) / den_pos);
    let cos_sat = sat_unit(sqrt_floor(ratio * FX_ONE as int));
    let sin = sat_unit(sqrt_floor(
        (FX_ONE as int - fx_mul_spec(cos_sat, cos_sat)) * FX_ONE as int));
    let dx0 = disk_point(s1, 64).0;
    let dy0 = disk_point(s1, 64).1;
    let cphi = if dx0 == 0 && dy0 == 0 {
        FX_ONE as int
    } else {
        let circ = normalize_spec(Vector3 { x: dx0, y: dy0, z: 0i64 });
        if circ.x < -2 * FX_ONE { -2 * FX_ONE as int }
        else if circ.x > 2 * FX_ONE { 2 * FX_ONE as int }
        else { circ.x as int }
    };
    let sphi = if dx0 == 0 && dy0 == 0 {
        0int
    } else {
        let circ = normalize_spec(Vector3 { x: dx0, y: dy0, z: 0i64 });
        if circ.y < -2 * FX_ONE { -2 * FX_ONE as int }
        else if circ.y > 2 * FX_ONE { 2 * FX_ONE as int }
        else { circ.y as int }
    };
    let sc = (sin * cphi) / (FX_ONE as int);
    let ss = (sin * sphi) / (FX_ONE as int);
    Vector3 {
        x: clamp_dir(
            (sc * t1.x) / (FX_ONE as int) + (ss * t2.x) / (FX_ONE as int)
                + (cos_sat * unit_n.x) / (FX_ONE as int)) as i64,
        y: clamp_dir(
            (sc * t1.y) / (FX_ONE as int) + (ss * t2.y) / (FX_ONE as int)
                + (cos_sat * unit_n.y) / (FX_ONE as int)) as i64,
        z: clamp_dir(
            (sc * t1.z) / (FX_ONE as int) + (ss * t2.z) / (FX_ONE as int)
                + (cos_sat * unit_n.z) / (FX_ONE as int)) as i64,
    }
}

/// GGX-distributed microfacet half-vector about the normal, for
/// `alpha2 = roughness^4`: the polar cosine is
/// `sqrt((1 - u) / (1 + (alpha2 - 1) u))` for a uniform `u`, and the
/// azimuth comes from a rejection-sampled direction on the unit circle.
/// The result is exactly `ggx_sample_spec` of the incoming stream state.
pub fn importance_sample_ggx(rng: &mut Rng, normal: &Vector3, alpha2: i64) -> (r: Vector3)
    requires
        vec_bounded(*normal, 0x80_0000_0000_0000),
        !(normal.x == 0 && normal.y == 0 && normal.z == 0),
        0 <= alpha2 <= FX_ONE,
    ensures
        vec_bounded(r, 8 * FX_ONE as int),
        r == ggx_sample_spec(old(rng).state, *normal, alpha2),
        final(rng).state == disk_point(rng_next_state(old(rng).state), 64).2,
{
    proof {
        reveal(ggx_sample_spec);
    }
    let unit_n = normalize_fx(normal);
    let (t1, t2) = orthonormal_basis(&unit_n);
    let u = rng.next_unit();
    // cos^2 = (1 - u) / (1 + (alpha2 - 1) u), kept in the unit interval.
    proof {
        lemma_unit_mul(alpha2 as int, u as int);
    }
    let den: i64 = FX_ONE - u + fx_mul(alpha2, u);
    let den_pos: i64 = if den < 1 { 1 } else { den };
    proof {
        assert(den_pos as int * 0x7FFF_0000 >= 0x7FFF_0000) by (nonlinear_arith)
            requires den_pos as int >= 1;
    }
    let ratio_raw = fx_div(FX_ONE - u, den_pos);
    let ratio = saturate(ratio_raw);
    let cos = fx_sqrt(ratio);
    let cos_sat = saturate(cos);
    proof {
        lemma_unit_mul(cos_sat as int, cos_sat as int);
    }
    let sin = saturate(fx_sqrt(FX_ONE - fx_mul(cos_sat, cos_sat)));

    // Azimuth: a point of the unit circle from disk rejection.
    let (dx0, dy0) = sample_disk(rng);
    let (cphi, sphi) = if dx0 == 0 && dy0 == 0 {
        (FX_ONE, 0)
    } else {
        let circ = normalize_fx(&Vector3 { x: dx0, y: dy0, z: 0 });
        let cx = if circ.x < -2 * FX_ONE { -2 * FX_ONE }
            else if circ.x > 2 * FX_ONE { 2 * FX_ONE } else { circ.x };
        let cy = if circ.y < -2 * FX_ONE { -2 * FX_ONE }
            else if circ.y > 2 * FX_ONE { 2 * FX_ONE } else { circ.y };
        (cx, cy)
    };

    let sc = fx_mul_signed(sin, cphi);
    let ss = fx_mul_signed(sin, sphi);
    Vector3 {
        x: comb3(sc, t1.x, ss, t2.x, cos_sat, unit_n.x),
        y: comb3(sc, t1.y, ss, t2.y, cos_sat, unit_n.y),
        z: comb3(sc, t1.z, ss, t2.z, cos_sat, unit_n.z),
    }
}

/// Fixed-point product with a possibly negative second factor.
fn fx_mul_signed(a: i64, b: i64) -> (r: i64)
    requires
        0 <= a <= FX_ONE,
        -2 * FX_ONE <= b <= 2 * FX_ONE,
    ensures
        r == (a as int * b as int) / (FX_ONE as int),
        -2 * FX_ONE <= r <= 2 * FX_ONE,
{
    proof {
        crate::fx::lemma_mul_bounds(a as int, b as int, 65536, 131072);
        vstd::arithmetic::div_mod::lemma_div_is_ordered(
            a as int * b as int, 8589934592int, 65536);
        vstd::arithmetic::div_mod::lemma_div_is_ordered(
            -8589934592int, a as int * b as int, 65536);
    }
    floor_div_i128((a as i128) * (b as i128), FX_ONE as i128) as i64
}

} // verus!
