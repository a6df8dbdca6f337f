//! Fixed-point scalar arithmetic.
//!
//! Every real quantity of the tracer (coordinate, direction component,
//! color channel, ray parameter) is carried as an `i64` counting quanta of
//! `1 / SCALE` of a unit.  The arithmetic is exact integer arithmetic with
//! floor rounding, saturated to the symmetric range `[-FX_MAX, FX_MAX]`;
//! a value that would leave that range is a numerical artifact of the same
//! kind as an overflowing float, and saturating keeps every operation total.

use vstd::arithmetic::div_mod::{
    lemma_fundamental_div_mod, lemma_fundamental_div_mod_converse_div,
};
use vstd::prelude::*;

verus! {

/// Number of quanta in one unit: values are interpreted divided by `SCALE`.
pub const SCALE: i64 = 1_000_000;

/// Saturation bound of every fixed-point result (one trillion units).
pub const FX_MAX: i64 = 1_000_000_000_000_000_000;

/// Half of one unit, the factor that halves a fixed-point value.
pub const HALF: i64 = 500_000;

/// Saturation of an unbounded intermediate value into the fixed-point range.
pub open spec fn spec_clamp(v: int) -> int {
    if v > FX_MAX {
        FX_MAX as int
    } else if v < -(FX_MAX as int) {
        -(FX_MAX as int)
    } else {
        v
    }
}

/// A value already inside the saturation range.
pub open spec fn fx_ok(v: int) -> bool {
    -(FX_MAX as int) <= v <= FX_MAX as int
}

/// Product of two fixed-point values: `(a * b) / SCALE`, floored, saturated.
pub open spec fn spec_mul_fx(a: int, b: int) -> int {
    spec_clamp((a * b) / (SCALE as int))
}

/// Quotient of two fixed-point values: `(a * SCALE) / b`, floored, saturated.
/// A divisor that is not positive is degenerate; the result is then zero,
/// the role a silent NaN plays in floating-point renderers.
pub open spec fn spec_div_fx(a: int, b: int) -> int {
    if b <= 0 {
        0
    } else {
        spec_clamp((a * (SCALE as int)) / b)
    }
}

/// Division by a positive divisor rounded toward zero.  Unlike flooring,
/// this rounding commutes with negation, which keeps sign-symmetric laws
/// (such as the cross product's antisymmetry) exact.
pub open spec fn spec_div_trunc(a: int, b: int) -> int {
    if a >= 0 {
        a / b
    } else {
        -((-a) / b)
    }
}

/// Truncating division commutes with negation.
pub proof fn lemma_div_trunc_neg(x: int, b: int)
    requires
        b > 0,
    ensures
        spec_div_trunc(-x, b) == -spec_div_trunc(x, b),
{
    if x == 0 {
        vstd::arithmetic::div_mod::lemma_div_multiples_vanish(0, b);
        assert(b * 0 == 0) by (nonlinear_arith);
    }
}

/// Saturation commutes with negation (the range is symmetric), and is
/// idempotent.
pub proof fn lemma_clamp_neg(v: int)
    ensures
        spec_clamp(-v) == -spec_clamp(v),
        spec_clamp(spec_clamp(v)) == spec_clamp(v),
{
}

/// `r` is the integer square root (floored) of `x`.
pub open spec fn is_sqrt_floor(x: int, r: int) -> bool {
    0 <= r && r * r <= x && x < (r + 1) * (r + 1)
}

/// The integer square root, floored; meaningful for `x >= 0`.
pub open spec fn sqrt_floor(x: int) -> int {
    choose|r: int| is_sqrt_floor(x, r)
}

/// Square root of a fixed-point value: `sqrt(v / SCALE) * SCALE == sqrt(v * SCALE)`.
/// A negative operand is degenerate and yields zero.
pub open spec fn spec_sqrt_fx(v: int) -> int {
    if v < 0 {
        0
    } else {
        sqrt_floor(v * (SCALE as int))
    }
}

/// The floored square root exists for every nonnegative integer.
pub proof fn lemma_sqrt_floor_exists(x: int)
    requires
        x >= 0,
    ensures
        is_sqrt_floor(x, sqrt_floor(x)),
    decreases x,
{
    if x == 0 {
        assert(is_sqrt_floor(0, 0)) by (nonlinear_arith);
    } else {
        lemma_sqrt_floor_exists(x - 1);
        let r = sqrt_floor(x - 1);
        if (r + 1) * (r + 1) <= x {
            assert(is_sqrt_floor(x, r + 1)) by (nonlinear_arith)
                requires
                    is_sqrt_floor(x - 1, r) && (r + 1) * (r + 1) <= x,
            ;
        } else {
            assert(is_sqrt_floor(x, r));
        }
    }
    assert(exists|r: int| is_sqrt_floor(x, r));
}

/// The floored square root is unique.
pub proof fn lemma_sqrt_floor_unique(x: int, r: int)
    requires
        is_sqrt_floor(x, r),
    ensures
        r == sqrt_floor(x),
{
    lemma_sqrt_floor_exists(x);
    let s = sqrt_floor(x);
    assert(r == s) by (nonlinear_arith)
        requires
            is_sqrt_floor(x, r) && is_sqrt_floor(x, s),
    ;
}

/// Saturate an `i128` intermediate into the fixed-point `i64` range.
pub fn clamp_fx(v: i128) -> (r: i64)
    ensures
        r == spec_clamp(v as int),
        fx_ok(r as int),
{
    let hi: i128 = FX_MAX as i128;
    if v > hi {
        FX_MAX
    } else if v < -hi {
        -FX_MAX
    } else {
        v as i64
    }
}

/// Floored (Euclidean) division of an `i128` by a positive divisor.
pub fn div_floor(a: i128, b: i128) -> (r: i128)
    requires
        b > 0,
        a > i128::MIN,
    ensures
        r == a as int / b as int,
{
    if a >= 0 {
        let q = (a as u128) / (b as u128);
        proof {
            lemma_fundamental_div_mod(a as u128 as int, b as u128 as int);
            lemma_fundamental_div_mod_converse_div(
                a as int,
                b as int,
                a as u128 as int / b as u128 as int,
                a as u128 as int % b as u128 as int,
            );
        }
        q as i128
    } else {
        let n = (-a) as u128;
        let bu = b as u128;
        let q = n / bu;
        let m = n % bu;
        proof {
            lemma_fundamental_div_mod(n as int, bu as int);
        }
        if m == 0 {
            proof {
                assert(a as int == (-(q as int)) * (b as int) + 0) by (nonlinear_arith)
                    requires
                        n as int == (bu as int) * (q as int) + (m as int) && m == 0
                            && a as int == -(n as int) && b as int == bu as int,
                ;
                lemma_fundamental_div_mod_converse_div(a as int, b as int, -(q as int), 0);
            }
            -(q as i128)
        } else {
            proof {
                assert(a as int == (-(q as int) - 1) * (b as int) + ((b as int) - (m as int)))
                    by (nonlinear_arith)
                    requires
                        n as int == (bu as int) * (q as int) + (m as int)
                            && a as int == -(n as int) && b as int == bu as int,
                ;
                lemma_fundamental_div_mod_converse_div(
                    a as int,
                    b as int,
                    -(q as int) - 1,
                    (b as int) - (m as int),
                );
            }
            -(q as i128) - 1
        }
    }
}

/// Division of an `i128` by a positive divisor, rounded toward zero.
pub fn div_trunc(a: i128, b: i128) -> (r: i128)
    requires
        b > 0,
        a > i128::MIN,
    ensures
        r == spec_div_trunc(a as int, b as int),
{
    if a >= 0 {
        div_floor(a, b)
    } else {
        -div_floor(-a, b)
    }
}

/// Fixed-point product, floored and saturated.
pub fn mul_fx(a: i64, b: i64) -> (r: i64)
    ensures
        r == spec_mul_fx(a as int, b as int),
        fx_ok(r as int),
{
    proof {
        assert((a as int) * (b as int) <= i128::MAX && (a as int) * (b as int) > i128::MIN)
            by (nonlinear_arith)
            requires
                i64::MIN <= a <= i64::MAX && i64::MIN <= b <= i64::MAX,
        ;
    }
    let p = (a as i128) * (b as i128);
    let q = div_floor(p, SCALE as i128);
    clamp_fx(q)
}

/// Fixed-point quotient, floored and saturated; zero for a non-positive divisor.
pub fn div_fx(a: i64, b: i64) -> (r: i64)
    ensures
        r == spec_div_fx(a as int, b as int),
        fx_ok(r as int),
{
    if b <= 0 {
        0
    } else {
        proof {
            assert((a as int) * (SCALE as int) <= i128::MAX && (a as int) * (SCALE as int)
                > i128::MIN) by (nonlinear_arith)
                requires
                    i64::MIN <= a <= i64::MAX,
            ;
        }
        let p = (a as i128) * (SCALE as i128);
        let q = div_floor(p, b as i128);
        clamp_fx(q)
    }
}

/// Floored square root of an unsigned 128-bit integer, by bisection.
pub fn sqrt_u128(x: u128) -> (r: u128)
    ensures
        r as int == sqrt_floor(x as int),
        is_sqrt_floor(x as int, r as int),
{
    let two64: u128 = 0x1_0000_0000_0000_0000;
    let mut lo: u128 = 0;
    let mut hi: u128 = two64;
    proof {
        assert((x as int) < (two64 as int) * (two64 as int)) by (nonlinear_arith)
            requires
                x <= u128::MAX && two64 as int == 0x1_0000_0000_0000_0000,
        ;
    }
    while lo + 1 < hi
        invariant
            (lo as int) * (lo as int) <= x as int,
            (x as int) < (hi as int) * (hi as int),
            lo < hi <= two64,
            two64 == 0x1_0000_0000_0000_0000u128,
        decreases hi - lo,
    {
        let mid = lo + (hi - lo) / 2;
        proof {
            assert((mid as int) * (mid as int) <= u128::MAX) by (nonlinear_arith)
                requires
                    mid < 0x1_0000_0000_0000_0000u128,
            ;
        }
        let sq = mid * mid;
        if sq <= x {
            lo = mid;
        } else {
            hi = mid;
        }
    }
    proof {
        assert(hi == lo + 1);
        lemma_sqrt_floor_unique(x as int, lo as int);
    }
    lo
}

/// Fixed-point square root, floored; zero for a negative operand.
pub fn sqrt_fx(v: i64) -> (r: i64)
    ensures
        r == spec_sqrt_fx(v as int),
        0 <= r <= 4_000_000_000_000,
{
    if v < 0 {
        0
    } else {
        proof {
            assert((v as int) * (SCALE as int) <= u128::MAX) by (nonlinear_arith)
                requires
                    0 <= v <= i64::MAX && SCALE == 1_000_000,
            ;
        }
        let p = (v as u128) * (SCALE as u128);
        let r = sqrt_u128(p);
        proof {
            assert(r as int <= 4_000_000_000_000) by (nonlinear_arith)
                requires
                    is_sqrt_floor(p as int, r as int) && p as int <= 0x7fff_ffff_ffff_ffffi64
                        as int * 1_000_000,
            ;
        }
        r as i64
    }
}

} // verus!
