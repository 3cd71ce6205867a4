//! Derivation of the K-weighting filter coefficients from the sample rate.
//!
//! The filter is a cascade of a high-frequency shelf (about 1682 Hz, +4 dB)
//! and a low-frequency roll-off (about 38 Hz).  Both second-order sections
//! come from a bilinear transform of fixed analog prototypes and are
//! combined into a single 4th-order transfer function.  All arithmetic is
//! Q30 fixed point; the tangent in the bilinear transform is evaluated by an
//! odd polynomial whose argument is clamped to 1.0, which is accurate for
//! every common audio rate.

use vstd::prelude::*;
use crate::fixedpoint::{Q30, COEF_LIMIT, spec_tdiv, spec_mul_q30, spec_div_q30, spec_clamp,
    mul_q30, div_q30, lemma_tdiv_bound, lemma_div_le_num};
use crate::model::coef_seq_ok;

verus! {

/// `pi * 1681.974450955533` in Q30: the shelf prototype frequency.
pub const SHELF_FREQ_PI_Q30: i64 = 5673736171196;

/// `pi * 38.13547087602444` in Q30: the high-pass prototype frequency.
pub const HIGHPASS_FREQ_PI_Q30: i64 = 128640836602;

/// `1 / 0.7071752369554196` in Q30: reciprocal Q of the shelf stage.
pub const SHELF_RECIP_Q_Q30: i64 = 1518353257;

/// `1 / 0.5003270373238773` in Q30: reciprocal Q of the high-pass stage.
pub const HIGHPASS_RECIP_Q_Q30: i64 = 2146079952;

/// `10^(3.999843853973347 / 20)` in Q30: the shelf gain.
pub const SHELF_VH_Q30: i64 = 1701735515;

/// The shelf gain raised to 0.4996667741545416, in Q30.
pub const SHELF_VB_Q30: i64 = 1351541308;

/// Odd-polynomial tangent, argument clamped into `[0, 1]` (Q30).
pub open spec fn spec_tan_q30(x0: int) -> int {
    let x = if x0 > Q30 {
        Q30 as int
    } else {
        x0
    };
    let x2 = spec_mul_q30(x, x);
    let x3 = spec_mul_q30(x2, x);
    let x5 = spec_mul_q30(x3, x2);
    let x7 = spec_mul_q30(x5, x2);
    x + x3 / 3 + (2 * x5) / 15 + (17 * x7) / 315
}

/// Final coefficients are clamped into the range the filter loop relies on.
pub open spec fn spec_coef(x: int) -> i64 {
    spec_clamp(x, COEF_LIMIT as int) as i64
}

/// The feedback (`.0`) and feedforward (`.1`) coefficient vectors for a
/// sample rate, as the meter stores them.
pub open spec fn spec_design(rate: int) -> (Seq<i64>, Seq<i64>) {
    let k = spec_tan_q30(SHELF_FREQ_PI_Q30 as int / rate);
    let kq = spec_mul_q30(k, SHELF_RECIP_Q_Q30 as int);
    let k2 = spec_mul_q30(k, k);
    let a0 = Q30 + kq + k2;
    let b10 = spec_div_q30(SHELF_VH_Q30 + spec_mul_q30(SHELF_VB_Q30 as int, kq) + k2, a0);
    let b11 = spec_div_q30(2 * (k2 - SHELF_VH_Q30), a0);
    let b12 = spec_div_q30(SHELF_VH_Q30 - spec_mul_q30(SHELF_VB_Q30 as int, kq) + k2, a0);
    let a11 = spec_div_q30(2 * (k2 - Q30), a0);
    let a12 = spec_div_q30(Q30 - kq + k2, a0);
    let t = spec_tan_q30(HIGHPASS_FREQ_PI_Q30 as int / rate);
    let tq = spec_mul_q30(t, HIGHPASS_RECIP_Q_Q30 as int);
    let t2 = spec_mul_q30(t, t);
    let d0 = Q30 + tq + t2;
    let a21 = spec_div_q30(2 * (t2 - Q30), d0);
    let a22 = spec_div_q30(Q30 - tq + t2, d0);
    (
        seq![
            Q30,
            spec_coef(a11 + a21),
            spec_coef(a22 + spec_mul_q30(a11, a21) + a12),
            spec_coef(spec_mul_q30(a11, a22) + spec_mul_q30(a12, a21)),
            spec_coef(spec_mul_q30(a12, a22)),
        ],
        seq![
            spec_coef(b10),
            spec_coef(-2 * b10 + b11),
            spec_coef(b10 - 2 * b11 + b12),
            spec_coef(b11 - 2 * b12),
            spec_coef(b12),
        ],
    )
}

/// From `r * Q30 <= a * b` and per-factor bounds, bound the rescaled
/// product itself.
proof fn lemma_scale_bound(r: int, a: int, b: int, ca: int, cb: int)
    requires
        0 <= r,
        r * (Q30 as int) <= a * b,
        0 <= a <= ca * (Q30 as int),
        0 <= b <= cb * (Q30 as int),
        0 <= ca,
        0 <= cb,
    ensures
        r <= ca * cb * (Q30 as int),
{
    assert(a * b <= (ca * (Q30 as int)) * (cb * (Q30 as int))) by (nonlinear_arith)
        requires
            0 <= a <= ca * (Q30 as int),
            0 <= b <= cb * (Q30 as int),
    ;
    assert(r <= ca * cb * (Q30 as int)) by (nonlinear_arith)
        requires
            0 <= r,
            r * (Q30 as int) <= (ca * (Q30 as int)) * (cb * (Q30 as int)),
            (Q30 as int) == 1073741824,
    ;
}

/// Product of two nonnegative, moderate Q30 values.  The product bound is
/// returned in a form a caller can scale down linearly.
fn mul_q30_small(a: i64, b: i64) -> (r: i64)
    requires
        0 <= a <= 0x10000000000,
        0 <= b <= 0x10000000000,
    ensures
        r == spec_mul_q30(a as int, b as int),
        0 <= r,
        r as int * (Q30 as int) <= a as int * b as int,
{
    proof {
        assert(0 <= a as int * b as int) by (nonlinear_arith)
            requires
                0 <= a,
                0 <= b,
        ;
        lemma_div_le_num(a as int * b as int, Q30 as int);
        vstd::arithmetic::div_mod::lemma_fundamental_div_mod(a as int * b as int, Q30 as int);
    }
    mul_q30(a, b)
}

/// Executable tangent, exactly the specification.
fn tan_q30(x0: i64) -> (r: i64)
    requires
        0 <= x0,
    ensures
        r == spec_tan_q30(x0 as int),
        0 <= r <= 2 * Q30,
{
    let x: i64 = if x0 > Q30 {
        Q30
    } else {
        x0
    };
    let x2: i64 = mul_q30_small(x, x);
    proof {
        lemma_scale_bound(x2 as int, x as int, x as int, 1, 1);
    }
    let x3: i64 = mul_q30_small(x2, x);
    proof {
        lemma_scale_bound(x3 as int, x2 as int, x as int, 1, 1);
    }
    let x5: i64 = mul_q30_small(x3, x2);
    proof {
        lemma_scale_bound(x5 as int, x3 as int, x2 as int, 1, 1);
    }
    let x7: i64 = mul_q30_small(x5, x2);
    proof {
        lemma_scale_bound(x7 as int, x5 as int, x2 as int, 1, 1);
        lemma_div_le_num(x3 as int, 3);
        lemma_div_le_num(2 * x5 as int, 15);
        lemma_div_le_num(17 * x7 as int, 315);
    }
    x + x3 / 3 + (2 * x5) / 15 + (17 * x7) / 315
}

/// One biquad stage of the bilinear transform: returns
/// `(b0, b1, b2, a1, a2)` for prototype constants `vh`/`vb` (set both to 1.0
/// for a plain high-pass) and reciprocal Q `rq`.
fn biquad_stage(k: i64, rq: i64, vh: i64, vb: i64) -> (r: (i64, i64, i64, i64, i64))
    requires
        0 <= k <= 2 * Q30,
        0 <= rq <= 2 * Q30,
        0 <= vh <= 2 * Q30,
        0 <= vb <= 2 * Q30,
    ensures
        ({
            let kq = spec_mul_q30(k as int, rq as int);
            let k2 = spec_mul_q30(k as int, k as int);
            let a0 = Q30 + kq + k2;
            &&& r.0 == spec_div_q30(vh + spec_mul_q30(vb as int, kq) + k2, a0)
            &&& r.1 == spec_div_q30(2 * (k2 - vh), a0)
            &&& r.2 == spec_div_q30(vh - spec_mul_q30(vb as int, kq) + k2, a0)
            &&& r.3 == spec_div_q30(2 * (k2 - Q30), a0)
            &&& r.4 == spec_div_q30(Q30 - kq + k2, a0)
        }),
        -0x10000000000 <= r.0 <= 0x10000000000,
        -0x10000000000 <= r.1 <= 0x10000000000,
        -0x10000000000 <= r.2 <= 0x10000000000,
        -0x10000000000 <= r.3 <= 0x10000000000,
        -0x10000000000 <= r.4 <= 0x10000000000,
{
    let kq: i64 = mul_q30_small(k, rq);
    let k2: i64 = mul_q30_small(k, k);
    proof {
        lemma_scale_bound(kq as int, k as int, rq as int, 2, 2);
        lemma_scale_bound(k2 as int, k as int, k as int, 2, 2);
    }
    let vbkq: i64 = mul_q30_small(vb, kq);
    proof {
        lemma_scale_bound(vbkq as int, vb as int, kq as int, 2, 4);
    }
    let a0: i64 = Q30 + kq + k2;
    let b0: i64 = div_q30(vh + vbkq + k2, a0);
    let b1: i64 = div_q30(2 * (k2 - vh), a0);
    let b2: i64 = div_q30(vh - vbkq + k2, a0);
    let a1: i64 = div_q30(2 * (k2 - Q30), a0);
    let a2: i64 = div_q30(Q30 - kq + k2, a0);
    (b0, b1, b2, a1, a2)
}

/// Compute the combined 4th-order coefficient vectors for a sample rate.
#[verifier::rlimit(80)]
pub fn design_filter(sample_rate: usize) -> (r: (Vec<i64>, Vec<i64>))
    requires
        1 <= sample_rate <= 0x40000000,
    ensures
        r.0@ == spec_design(sample_rate as int).0,
        r.1@ == spec_design(sample_rate as int).1,
        coef_seq_ok(r.0@),
        coef_seq_ok(r.1@),
{
    let rate: i64 = sample_rate as i64;
    proof {
        lemma_div_le_num(SHELF_FREQ_PI_Q30 as int, rate as int);
        lemma_div_le_num(HIGHPASS_FREQ_PI_Q30 as int, rate as int);
    }
    let k: i64 = tan_q30(SHELF_FREQ_PI_Q30 / rate);
    let (b10, b11, b12, a11, a12) = biquad_stage(k, SHELF_RECIP_Q_Q30, SHELF_VH_Q30, SHELF_VB_Q30);
    let t: i64 = tan_q30(HIGHPASS_FREQ_PI_Q30 / rate);
    let (_h0, _h1, _h2, a21, a22) = biquad_stage(t, HIGHPASS_RECIP_Q_Q30, Q30, Q30);

    let m1121: i64 = mul_q30(a11, a21);
    let m1122: i64 = mul_q30(a11, a22);
    let m1221: i64 = mul_q30(a12, a21);
    let m1222: i64 = mul_q30(a12, a22);

    let mut ca: Vec<i64> = Vec::new();
    ca.push(Q30);
    ca.push(crate::fixedpoint::clamp_i128(a11 as i128 + a21 as i128, COEF_LIMIT));
    ca.push(crate::fixedpoint::clamp_i128(a22 as i128 + m1121 as i128 + a12 as i128, COEF_LIMIT));
    ca.push(crate::fixedpoint::clamp_i128(m1122 as i128 + m1221 as i128, COEF_LIMIT));
    ca.push(crate::fixedpoint::clamp_i128(m1222 as i128, COEF_LIMIT));

    let mut cb: Vec<i64> = Vec::new();
    cb.push(crate::fixedpoint::clamp_i128(b10 as i128, COEF_LIMIT));
    cb.push(crate::fixedpoint::clamp_i128(-2 * (b10 as i128) + (b11 as i128), COEF_LIMIT));
    cb.push(
        crate::fixedpoint::clamp_i128(
            (b10 as i128) - 2 * (b11 as i128) + (b12 as i128),
            COEF_LIMIT,
        ),
    );
    cb.push(crate::fixedpoint::clamp_i128((b11 as i128) - 2 * (b12 as i128), COEF_LIMIT));
    cb.push(crate::fixedpoint::clamp_i128(b12 as i128, COEF_LIMIT));

    proof {
        assert(ca@ =~= spec_design(sample_rate as int).0);
        assert(cb@ =~= spec_design(sample_rate as int).1);
    }
    (ca, cb)
}

} // verus!
