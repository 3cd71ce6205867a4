//! Scaled-integer arithmetic used throughout the meter.
//!
//! Sample values, filter state and filter coefficients are carried as
//! two's-complement integers with 30 fractional bits ("Q30"), so a value of
//! `1 << 30` stands for 1.0.  Block energies are mean squares of Q30 values
//! and therefore carry 60 fractional bits ("Q60").  All rounding is toward
//! zero, mirroring a division after a widening multiplication.

use vstd::prelude::*;

verus! {

/// 1.0 in Q30.
pub const Q30: i64 = 1073741824;

/// Largest magnitude the per-channel filter memory may hold.
pub const V_CLAMP: i64 = 36028797018963968;

/// Largest magnitude a weighted sample written to the ring buffer may hold.
pub const OUT_CLAMP: i64 = 274877906944;

/// Largest magnitude of a combined filter coefficient (Q30).
pub const COEF_LIMIT: i64 = 17179869184;

/// Division rounding toward zero, for a positive divisor.
pub open spec fn spec_tdiv(n: int, d: int) -> int
    recommends
        d > 0,
{
    if n >= 0 {
        n / d
    } else {
        -((-n) / d)
    }
}

/// Product of two Q30 values, rescaled back to Q30.
pub open spec fn spec_mul_q30(a: int, b: int) -> int {
    spec_tdiv(a * b, Q30 as int)
}

/// Quotient of two Q30 values, rescaled back to Q30.
pub open spec fn spec_div_q30(n: int, d: int) -> int
    recommends
        d > 0,
{
    spec_tdiv(n * (Q30 as int), d)
}

/// Clamp to the symmetric interval `[-limit, limit]`.
pub open spec fn spec_clamp(x: int, limit: int) -> int {
    if x > limit {
        limit
    } else if x < -limit {
        -limit
    } else {
        x
    }
}

pub proof fn lemma_div_le_num(n: int, d: int)
    requires
        n >= 0,
        d >= 1,
    ensures
        0 <= n / d <= n,
{
    vstd::arithmetic::div_mod::lemma_div_pos_is_pos(n, d);
    vstd::arithmetic::div_mod::lemma_div_nonincreasing(n, d);
}

/// Magnitude of a truncating quotient never exceeds that of the numerator
/// scaled down by the divisor bound.
pub proof fn lemma_tdiv_bound(n: int, d: int, bound: int)
    requires
        d >= 1,
        -(bound * d) <= n <= bound * d,
        bound >= 0,
    ensures
        -bound <= spec_tdiv(n, d) <= bound,
{
    vstd::arithmetic::div_mod::lemma_div_multiples_vanish(bound, d);
    assert(d * bound == bound * d) by (nonlinear_arith);
    if n >= 0 {
        lemma_div_le_num(n, d);
        vstd::arithmetic::div_mod::lemma_div_is_ordered(n, bound * d, d);
    } else {
        assert(-n <= bound * d);
        lemma_div_le_num(-n, d);
        vstd::arithmetic::div_mod::lemma_div_is_ordered(-n, bound * d, d);
    }
}

/// Truncating division of a product by `Q30`, computed exactly in 128 bits.
pub fn tdiv_q30_i128(n: i128) -> (r: i128)
    requires
        -0x1000000000000000000000000000000 <= n <= 0x1000000000000000000000000000000,
    ensures
        r == spec_tdiv(n as int, Q30 as int),
{
    proof {
        lemma_tdiv_bound(n as int, Q30 as int, 0x1000000000000000000000000000000);
    }
    if n >= 0 {
        ((n as u128) / (Q30 as u128)) as i128
    } else {
        proof {
            lemma_div_le_num(-(n as int), Q30 as int);
        }
        -((((-n) as u128) / (Q30 as u128)) as i128)
    }
}

/// Clamp a 128-bit value into `[-limit, limit]` and narrow it to 64 bits.
pub fn clamp_i128(x: i128, limit: i64) -> (r: i64)
    requires
        limit >= 0,
    ensures
        r == spec_clamp(x as int, limit as int),
        -limit <= r <= limit,
{
    if x > limit as i128 {
        limit
    } else if x < -(limit as i128) {
        -limit
    } else {
        x as i64
    }
}

/// Q30 product of two moderate Q30 values.
pub fn mul_q30(a: i64, b: i64) -> (r: i64)
    requires
        -0x10000000000 <= a <= 0x10000000000,
        -0x10000000000 <= b <= 0x10000000000,
    ensures
        r == spec_mul_q30(a as int, b as int),
        -0x4000000000000 <= r <= 0x4000000000000,
{
    proof {
        assert(-(0x4000000000000 * (Q30 as int)) <= a as int * b as int <= 0x4000000000000 * (
        Q30 as int)) by (nonlinear_arith)
            requires
                -0x10000000000 <= a <= 0x10000000000,
                -0x10000000000 <= b <= 0x10000000000,
        ;
        lemma_tdiv_bound(a as int * b as int, Q30 as int, 0x4000000000000);
    }
    let p: i128 = (a as i128) * (b as i128);
    tdiv_q30_i128(p) as i64
}

/// Q30 quotient of two moderate Q30 values; the divisor must be at least 1.0.
pub fn div_q30(n: i64, d: i64) -> (r: i64)
    requires
        -0x10000000000 <= n <= 0x10000000000,
        d >= Q30,
        d <= 0x10000000000,
    ensures
        r == spec_div_q30(n as int, d as int),
        -0x10000000000 <= r <= 0x10000000000,
{
    proof {
        assert(n as int * (Q30 as int) <= 0x10000000000 * (d as int) && -0x10000000000 * (d as int)
            <= n as int * (Q30 as int)) by (nonlinear_arith)
            requires
                -0x10000000000 <= n <= 0x10000000000,
                d >= Q30,
        ;
        lemma_tdiv_bound(n as int * (Q30 as int), d as int, 0x10000000000);
    }
    let p: i128 = (n as i128) * (Q30 as i128);
    let r: i128 = if p >= 0 {
        proof {
            lemma_div_le_num(p as int, d as int);
        }
        ((p as u128) / (d as u128)) as i128
    } else {
        proof {
            lemma_div_le_num(-(p as int), d as int);
        }
        -((((-p) as u128) / (d as u128)) as i128)
    };
    r as i64
}

} // verus!
