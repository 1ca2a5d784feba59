//! Fixed-point scalar arithmetic.
//!
//! Quantities such as colors, reflectances and random numbers are carried as
//! `i64` values scaled by `FX_ONE`: the value `x` stands for the real number
//! `x / FX_ONE`. All operations round toward negative infinity and are
//! specified exactly over the integers.

use vstd::prelude::*;

verus! {

/// Number of fixed-point units in 1.0.
pub const FX_ONE: i64 = 65536;

/// Largest magnitude accepted by the fixed-point multiplier and divider;
/// keeps every intermediate product inside `u128` and every result inside
/// `i64`.
pub const FX_BIG: i64 = 0x40_0000_0000;

/// The real value that a fixed-point scalar stands for, as a scaled integer.
pub open spec fn fx_mul_spec(a: int, b: int) -> int {
    (a * b) / (FX_ONE as int)
}

/// Fixed-point product of two nonnegative scalars, rounded toward zero
/// (equal to rounding toward negative infinity on nonnegative input).
pub fn fx_mul(a: i64, b: i64) -> (r: i64)
    requires
        0 <= a <= FX_BIG,
        0 <= b <= FX_BIG,
    ensures
        r == fx_mul_spec(a as int, b as int),
        0 <= r <= (a as int * b as int) / (FX_ONE as int),
{
    proof {
        assert(a as u128 * b as u128 <= 0x40_0000_0000u128 * 0x40_0000_0000u128)
            by (nonlinear_arith)
            requires
                0 <= a as u128 <= 0x40_0000_0000u128,
                0 <= b as u128 <= 0x40_0000_0000u128,
        ;
    }
    let p: u128 = (a as u128) * (b as u128);
    let q: u128 = p / (FX_ONE as u128);
    q as i64
}

/// Fixed-point quotient `a / b`, rounded toward zero on nonnegative input.
pub fn fx_div(a: i64, b: i64) -> (r: i64)
    requires
        0 <= a <= FX_BIG,
        0 < b,
        a <= b * 0x7FFF_0000,
    ensures
        r == (a as int * FX_ONE as int) / (b as int),
{
    let p: u128 = (a as u128) * (FX_ONE as u128);
    let q: u128 = p / (b as u128);
    proof {
        assert(p / (b as u128) <= 0x7FFF_0000u128 * 65536) by (nonlinear_arith)
            requires
                p == a as u128 * 65536,
                b as u128 > 0,
                a as u128 <= b as u128 * 0x7FFF_0000u128,
        ;
    }
    q as i64
}

/// Clamp a scalar to the unit interval `[0, FX_ONE]`.
pub fn saturate(a: i64) -> (r: i64)
    ensures
        r == if a < 0 { 0int } else if a > FX_ONE { FX_ONE as int } else { a as int },
{
    if a < 0 {
        0
    } else if a > FX_ONE {
        FX_ONE
    } else {
        a
    }
}

/// Floor division of a (possibly negative) numerator by a positive
/// denominator, matching mathematical integer division exactly.
pub fn floor_div_i128(a: i128, b: i128) -> (r: i128)
    requires
        0 < b < 1152921504606846976i128,
        -1267650600228229401496703205376i128 < a < 1267650600228229401496703205376i128,
    ensures
        r == a as int / b as int,
{
    if a >= 0 {
        let q: u128 = (a as u128) / (b as u128);
        q as i128
    } else {
        let neg: u128 = (-a) as u128;
        let c: u128 = (neg + (b as u128) - 1) / (b as u128);
        proof {
            let ai = a as int;
            let bi = b as int;
            let q = ai / bi;
            let rm = ai % bi;
            vstd::arithmetic::div_mod::lemma_fundamental_div_mod(ai, bi);
            assert(ai == bi * q + rm);
            assert(-(bi * q) == bi * (-q)) by (nonlinear_arith);
            assert(-ai + bi - 1 == bi * (-q) + (bi - 1 - rm));
            assert(q <= 0 && -q < 1267650600228229401496703205376) by {
                assert(q <= 0) by (nonlinear_arith)
                    requires bi * q + rm == ai, 0 <= rm < bi, ai < 0,
                ;
                assert(-q < 1267650600228229401496703205376) by (nonlinear_arith)
                    requires bi * q + rm == ai, 0 <= rm < bi, 0 < bi, -1267650600228229401496703205376 < ai,
                ;
            }
            vstd::arithmetic::div_mod::lemma_fundamental_div_mod_converse(
                -ai + bi - 1, bi, -q, bi - 1 - rm);
            assert((-ai + bi - 1) / bi == -q);
        }
        -(c as i128)
    }
}

/// Exact strict comparison of two fractions with positive denominators:
/// `an / ad < bn / bd`.
pub fn frac_lt(an: i128, ad: i128, bn: i128, bd: i128) -> (r: bool)
    requires
        -1152921504606846976i128 < an < 1152921504606846976i128,
        -1152921504606846976i128 < bn < 1152921504606846976i128,
        0 < ad < 1152921504606846976i128,
        0 < bd < 1152921504606846976i128,
    ensures
        r == ((an as int) * (bd as int) < (bn as int) * (ad as int)),
{
    proof {
        lemma_i128_product_bound(an as int, bd as int, 1152921504606846976);
        lemma_i128_product_bound(bn as int, ad as int, 1152921504606846976);
    }
    an * bd < bn * ad
}

/// Strict comparison of fractions with positive denominators is
/// transitive, in cross-multiplied form.
pub proof fn lemma_frac_lt_trans(an: int, ad: int, bn: int, bd: int, cn: int, cd: int)
    by (nonlinear_arith)
    requires
        ad > 0,
        bd > 0,
        cd > 0,
        an * bd < bn * ad,
        bn * cd < cn * bd,
    ensures
        an * cd < cn * ad,
{
}

/// Squares are nonnegative.
pub proof fn lemma_square_nonneg(x: int) by (nonlinear_arith)
    ensures
        0 <= x * x,
{
}

/// Products of nonnegative factors are nonnegative.
pub proof fn lemma_square_nonneg_pair(a: int, b: int) by (nonlinear_arith)
    requires
        0 <= a,
        0 <= b,
    ensures
        0 <= a * b,
{
}

/// `|a| <= ba` and `|b| <= bb` bound `|a * b|` by `ba * bb`.
pub proof fn lemma_mul_bounds(a: int, b: int, ba: int, bb: int) by (nonlinear_arith)
    requires
        -ba <= a <= ba,
        -bb <= b <= bb,
        0 <= ba,
        0 <= bb,
    ensures
        -(ba * bb) <= a * b <= ba * bb,
{
}

/// `|a| < b` and `|c| < b` bound `|a * c|` by `b * b`.
pub proof fn lemma_i128_product_bound(a: int, c: int, b: int) by (nonlinear_arith)
    requires
        -b < a < b,
        -b < c < b,
        0 < b,
    ensures
        -(b * b) < a * c < b * b,
{
}

/// Integer square root: the greatest `r` with `r * r <= n`.
pub fn isqrt(n: u128) -> (r: u128)
    requires
        n < 1u128 << 120,
    ensures
        r * r <= n,
        n < (r + 1) * (r + 1),
{
    if n == 0 {
        return 0;
    }
    let mut lo: u128 = 0;
    let mut hi: u128 = 1u128 << 60;
    proof {
        assert((1u128 << 60) * (1u128 << 60) == 1u128 << 120) by (bit_vector);
    }
    while lo + 1 < hi
        invariant
            lo < hi,
            hi <= 1u128 << 60,
            lo * lo <= n,
            n < hi * hi,
        decreases hi - lo,
    {
        let mid: u128 = lo + (hi - lo) / 2;
        proof {
            assert(mid * mid <= (1u128 << 60) * (1u128 << 60)) by (nonlinear_arith)
                requires
                    mid <= 1u128 << 60,
            ;
            assert((1u128 << 60) * (1u128 << 60) == 1u128 << 120) by (bit_vector);
        }
        if mid * mid <= n {
            lo = mid;
        } else {
            hi = mid;
        }
    }
    lo
}

} // verus!
