//! Conversion between block energies, loudness and playback gain.
//!
//! Loudness is carried in thousandths of a LUFS.  The logarithm of an
//! energy is taken base 2 by repeated squaring of a normalized mantissa; a
//! gain is rebuilt from a milli-decibel exponent with a table of
//! square-root-of-two constants.  Both routines are exact images of their
//! specification functions, which mirror the integer algorithm step by
//! step.

use vstd::prelude::*;
use crate::Ebur128State;

verus! {

/// `10000 * log10(2)` in Q16.
pub const LOG_MILLI_PER_OCTAVE: u64 = 197283018;

/// `log2(10)` in Q16.
pub const OCTAVES_PER_BEL: u64 = 217706;

/// Doubling a mantissa until it reaches `2^62`, with a step budget.
pub open spec fn spec_norm_up(m: int, s: int, fuel: int) -> (int, int)
    decreases fuel,
{
    if fuel <= 0 || m < 1 || m >= 0x4000000000000000 {
        (m, s)
    } else {
        spec_norm_up(2 * m, s + 1, fuel - 1)
    }
}

/// Halving a mantissa until it drops below `2^63`.
pub open spec fn spec_norm_dn(m: int, s: int, fuel: int) -> (int, int)
    decreases fuel,
{
    if fuel <= 0 || m < 0x8000000000000000 {
        (m, s)
    } else {
        spec_norm_dn(m / 2, s + 1, fuel - 1)
    }
}

/// `k` squaring steps, each shifting one fractional bit of the base-2
/// logarithm into `f`.
pub open spec fn spec_frac_steps(m: int, f: int, k: int) -> (int, int)
    decreases k,
{
    if k <= 0 {
        (m, f)
    } else if m * m >= 0x20000000000000000000000000000000 {
        spec_frac_steps((m * m) / 0x8000000000000000, 2 * f + 1, k - 1)
    } else {
        spec_frac_steps((m * m) / 0x4000000000000000, 2 * f, k - 1)
    }
}

/// Loudness of an energy in thousandths of a LUFS:
/// `10 * log10(e / 2^60) - 0.691`, evaluated in fixed point.
pub open spec fn spec_lufs_milli(e: int) -> int {
    if e < 1 {
        -1000000
    } else {
        let up = spec_norm_up(e, 0, 128);
        let dn = spec_norm_dn(up.0, 0, 128);
        let fr = spec_frac_steps(dn.0, 0, 16);
        let t = (62 - up.1 + dn.1) * 65536 + fr.1;
        if t >= 3932160 {
            ((t - 3932160) * (LOG_MILLI_PER_OCTAVE as int)) / 0x100000000 - 691
        } else {
            -(((3932160 - t) * (LOG_MILLI_PER_OCTAVE as int)) / 0x100000000) - 691
        }
    }
}

/// The precomputed roots of two, `2^(2^-i)` in Q32, for steps 1 to 16.
pub open spec fn spec_root_const(i: int) -> int {
    if i == 1 { 6074001000 }
    else if i == 2 { 5107605667 }
    else if i == 3 { 4683695048 }
    else if i == 4 { 4485121744 }
    else if i == 5 { 4389014833 }
    else if i == 6 { 4341736423 }
    else if i == 7 { 4318288544 }
    else if i == 8 { 4306612134 }
    else if i == 9 { 4300785774 }
    else if i == 10 { 4297875550 }
    else if i == 11 { 4296421177 }
    else if i == 12 { 4295694175 }
    else if i == 13 { 4295330720 }
    else if i == 14 { 4295149004 }
    else if i == 15 { 4295058149 }
    else { 4295012722 }
}

/// Upper bound on the accumulated product after step `i`.
pub open spec fn spec_root_bound(i: int) -> int {
    if i <= 0 { 4294967296 }
    else if i == 1 { 6074001000 }
    else if i == 2 { 7223245205 }
    else if i == 3 { 7877004751 }
    else if i == 4 { 8225749546 }
    else if i == 5 { 8405870005 }
    else if i == 6 { 8497403927 }
    else if i == 7 { 8543543990 }
    else if i == 8 { 8566707888 }
    else if i == 9 { 8578313378 }
    else if i == 10 { 8584122016 }
    else if i == 11 { 8587027810 }
    else if i == 12 { 8588481076 }
    else if i == 13 { 8589207801 }
    else if i == 14 { 8589571186 }
    else if i == 15 { 8589752884 }
    else { 8589843734 }
}

/// Steps `i` to 16 of the fraction exponentiation: peel the bit worth
/// `2^(16-i)` and multiply in its root of two.
pub open spec fn spec_gain_frac_steps(g: int, r: int, i: int) -> int
    decreases 17 - i,
{
    if i > 16 {
        r
    } else if g >= spec_pow2_small(16 - i) {
        spec_gain_frac_steps(
            g - spec_pow2_small(16 - i),
            (r * spec_root_const(i)) / 0x100000000,
            i + 1,
        )
    } else {
        spec_gain_frac_steps(g, r, i + 1)
    }
}

/// `2^(fr / 65536)` in Q32.
pub open spec fn spec_gain_frac(fr: int) -> int {
    spec_gain_frac_steps(fr, 0x100000000, 1)
}

pub open spec fn spec_pow2_small(n: int) -> int
    decreases n,
{
    if n <= 0 {
        1
    } else {
        2 * spec_pow2_small(n - 1)
    }
}

/// Linear playback gain, in thousandths, for a loudness in thousandths of
/// a LUFS: `10^((-18 - lufs) / 20)` toward the -18 LUFS reference, and
/// unity when the measurement is quieter than the -70 LUFS gate.
pub open spec fn spec_gain_milli(l: int) -> int {
    if l <= -70000 {
        1000
    } else if l > 42000 {
        0
    } else {
        let e = -18000 - l;
        let a = if e < 0 {
            -e
        } else {
            e
        };
        let y = (a * (OCTAVES_PER_BEL as int)) / 20000;
        let n = y / 65536;
        let fr = y % 65536;
        let r = spec_gain_frac(fr);
        if e >= 0 {
            (1000 * r * spec_pow2_small(n)) / 0x100000000
        } else {
            (1000int * 0x100000000) / (r * spec_pow2_small(n))
        }
    }
}

/// One multiply-and-rescale step of the gain fraction.
fn gain_step(r: u128, k: u64) -> (o: u128)
    requires
        0x100000000 <= r <= 0x400000000,
        0x100000000 <= k <= 6074001000,
    ensures
        o as int == (r as int * k as int) / 0x100000000,
        o >= r,
{
    proof {
        assert(r as int * k as int <= 0x400000000 * 6074001000 && r as int * 0x100000000 <= r as int
            * k as int) by (nonlinear_arith)
            requires
                0x100000000 <= r <= 0x400000000,
                0x100000000 <= k <= 6074001000,
        ;
        crate::fixedpoint::lemma_div_le_num(r as int * k as int, 0x100000000);
        vstd::arithmetic::div_mod::lemma_div_is_ordered(
            r as int * 0x100000000,
            r as int * k as int,
            0x100000000,
        );
        vstd::arithmetic::div_mod::lemma_div_multiples_vanish(r as int, 0x100000000);
        assert(r as int * 0x100000000 == 0x100000000 * r as int) by (nonlinear_arith);
    }
    (r * (k as u128)) / 0x100000000
}

/// The same root table, executable.
fn root_const(i: u64) -> (k: u64)
    requires
        1 <= i <= 16,
    ensures
        k as int == spec_root_const(i as int),
        0x100000000 <= k <= 6074001000,
{
    if i == 1 { 6074001000 }
    else if i == 2 { 5107605667 }
    else if i == 3 { 4683695048 }
    else if i == 4 { 4485121744 }
    else if i == 5 { 4389014833 }
    else if i == 6 { 4341736423 }
    else if i == 7 { 4318288544 }
    else if i == 8 { 4306612134 }
    else if i == 9 { 4300785774 }
    else if i == 10 { 4297875550 }
    else if i == 11 { 4296421177 }
    else if i == 12 { 4295694175 }
    else if i == 13 { 4295330720 }
    else if i == 14 { 4295149004 }
    else if i == 15 { 4295058149 }
    else { 4295012722 }
}

/// The accumulated bound grows with the step.
proof fn lemma_root_bound_step(r: int, i: int)
    requires
        1 <= i <= 16,
        0x100000000 <= r <= spec_root_bound(i - 1),
    ensures
        (r * spec_root_const(i)) / 0x100000000 <= spec_root_bound(i),
        spec_root_bound(i - 1) <= spec_root_bound(i),
{
    vstd::arithmetic::mul::lemma_mul_inequality(r, spec_root_bound(i - 1), spec_root_const(i));
    vstd::arithmetic::div_mod::lemma_div_is_ordered(
        r * spec_root_const(i),
        spec_root_bound(i - 1) * spec_root_const(i),
        0x100000000,
    );
}

/// Executable gain fraction, exactly the specification.
fn gain_frac(fr: u64) -> (r: u128)
    requires
        fr < 65536,
    ensures
        r as int == spec_gain_frac(fr as int),
        0x100000000 <= r <= 8589843734,
{
    let mut fc: u64 = fr;
    let mut rc: u128 = 0x100000000;
    let mut i: u64 = 1;
    let mut bit: u64 = 32768;
    proof {
        lemma_pow2_small_is_pow2(15);
        vstd::arithmetic::power2::lemma2_to64();
    }
    while i <= 16
        invariant
            1 <= i <= 17,
            bit as int == spec_pow2_small(16 - i as int),
            0x100000000 <= rc <= spec_root_bound(i as int - 1),
            spec_gain_frac(fr as int) == spec_gain_frac_steps(fc as int, rc as int, i as int),
        decreases 17 - i,
    {
        proof {
            lemma_pow2_small_le16(16 - i as int);
            lemma_pow2_small_le16(15 - i as int);
            if i < 16 {
                lemma_pow2_small_bridge(15 - i as int);
            }
        }
        let k: u64 = root_const(i);
        if fc >= bit {
            fc = fc - bit;
            proof {
                lemma_root_bound_step(rc as int, i as int);
            }
            rc = gain_step(rc, k);
        } else {
            proof {
                lemma_root_bound_step(rc as int, i as int);
            }
        }
        if i < 16 {
            bit = bit / 2;
        }
        i = i + 1;
    }
    rc
}

impl Ebur128State {
    /// Convert a Q60 mean-square energy to loudness in thousandths of a
    /// LUFS.
    pub fn energy_to_loudness(energy: u128) -> (r: i64)
        requires
            energy >= 1,
        ensures
            r as int == spec_lufs_milli(energy as int),
    {
        let mut m: u128 = energy;
        let mut up: u64 = 0;
        let mut fuel_up: u64 = 128;
        while m < 0x4000000000000000 && fuel_up > 0
            invariant
                spec_norm_up(energy as int, 0, 128) == spec_norm_up(
                    m as int,
                    up as int,
                    fuel_up as int,
                ),
                m >= 1,
                m as int >= spec_pow2_small(up as int),
                up <= 62,
                up + fuel_up == 128,
            decreases fuel_up,
        {
            proof {
                if up >= 62 {
                    lemma_pow2_small_ge(up as int);
                    assert(false);
                }
            }
            m = m * 2;
            up = up + 1;
            fuel_up = fuel_up - 1;
        }
        proof {
            assert(spec_norm_up(energy as int, 0, 128) == (m as int, up as int));
        }
        let ghost m_up: int = m as int;
        let mut dn: u64 = 0;
        let mut fuel_dn: u64 = 128;
        while m >= 0x8000000000000000 && fuel_dn > 0
            invariant
                spec_norm_dn(m_up, 0, 128) == spec_norm_dn(m as int, dn as int, fuel_dn as int),
                m >= 1,
                (m as int) * spec_pow2_small(dn as int)
                    < 0x200000000000000000000000000000000,
                dn + fuel_dn == 128,
            decreases fuel_dn,
        {
            proof {
                lemma_pow2_small_bridge(dn as int);
                assert((m as int / 2) * spec_pow2_small(dn as int + 1) <= (m as int)
                    * spec_pow2_small(dn as int)) by (nonlinear_arith)
                    requires
                        m >= 1,
                        spec_pow2_small(dn as int + 1) == 2 * spec_pow2_small(dn as int),
                        spec_pow2_small(dn as int) >= 1,
                        m as int / 2 >= 0,
                        2 * (m as int / 2) <= m as int,
                ;
                vstd::arithmetic::div_mod::lemma_fundamental_div_mod(m as int, 2);
            }
            m = m / 2;
            dn = dn + 1;
            fuel_dn = fuel_dn - 1;
        }
        proof {
            if fuel_dn == 0 && m >= 0x8000000000000000 {
                lemma_pow2_small_128();
                assert((m as int) * spec_pow2_small(128) >= (
                0x8000000000000000int) * spec_pow2_small(128)) by (nonlinear_arith)
                    requires
                        m >= 0x8000000000000000,
                        spec_pow2_small(128) >= 1,
                ;
                assert(false);
            }
            assert(m < 0x8000000000000000);
            assert(spec_norm_dn(m_up, 0, 128) == (m as int, dn as int));
        }
        let ghost m_dn: int = m as int;
        let mut f: u64 = 0;
        let mut k: u64 = 16;
        while k > 0
            invariant
                spec_frac_steps(m_dn, 0, 16) == spec_frac_steps(m as int, f as int, k as int),
                m < 0x8000000000000000,
                f < 0x10000,
                k <= 16,
                (f as int) < spec_pow2_small(16 - k as int),
            decreases k,
        {
            proof {
                assert((m as int) * (m as int) < 0x40000000000000000000000000000000) by (
                nonlinear_arith)
                    requires
                        m < 0x8000000000000000,
                ;
                crate::fixedpoint::lemma_div_le_num(m as int * m as int, 0x8000000000000000);
                crate::fixedpoint::lemma_div_le_num(m as int * m as int, 0x4000000000000000);
                vstd::arithmetic::div_mod::lemma_div_is_ordered(
                    m as int * m as int,
                    0x3FFFFFFFFFFFFFFFFFFFFFFFFFFFFFFF,
                    0x8000000000000000,
                );
                if (m as int) * (m as int) < 0x20000000000000000000000000000000 {
                    vstd::arithmetic::div_mod::lemma_div_is_ordered(
                        m as int * m as int,
                        0x1FFFFFFFFFFFFFFFFFFFFFFFFFFFFFFF,
                        0x4000000000000000,
                    );
                }
                assert((0x3FFFFFFFFFFFFFFFFFFFFFFFFFFFFFFF as int) / (
                0x8000000000000000 as int) < 0x8000000000000000);
                assert((0x1FFFFFFFFFFFFFFFFFFFFFFFFFFFFFFF as int) / (
                0x4000000000000000 as int) < 0x8000000000000000);
                lemma_pow2_small_le16(16 - k as int);
                lemma_pow2_small_le16(17 - k as int);
            }
            let m2: u128 = m * m;
            if m2 >= 0x20000000000000000000000000000000 {
                m = m2 / 0x8000000000000000;
                f = 2 * f + 1;
            } else {
                m = m2 / 0x4000000000000000;
                f = 2 * f;
            }
            k = k - 1;
        }
        proof {
            assert(spec_frac_steps(m_dn, 0, 16) == (m as int, f as int));
            lemma_pow2_small_value_16();
        }
        let t: u64 = (62 + dn - up) * 65536 + f;
        proof {
            assert(t as int == (62 - up as int + dn as int) * 65536 + f as int);
            if t >= 3932160 {
                crate::fixedpoint::lemma_div_le_num(
                    (t as int - 3932160) * (LOG_MILLI_PER_OCTAVE as int),
                    0x100000000,
                );
                vstd::arithmetic::div_mod::lemma_div_is_ordered(
                    (t as int - 3932160) * (LOG_MILLI_PER_OCTAVE as int),
                    16000000 * (LOG_MILLI_PER_OCTAVE as int),
                    0x100000000,
                );
            } else {
                crate::fixedpoint::lemma_div_le_num(
                    (3932160 - t as int) * (LOG_MILLI_PER_OCTAVE as int),
                    0x100000000,
                );
                vstd::arithmetic::div_mod::lemma_div_is_ordered(
                    (3932160 - t as int) * (LOG_MILLI_PER_OCTAVE as int),
                    3932160 * (LOG_MILLI_PER_OCTAVE as int),
                    0x100000000,
                );
            }
        }
        if t >= 3932160 {
            ((((t - 3932160) as u128 * (LOG_MILLI_PER_OCTAVE as u128)) / 0x100000000) as i64) - 691
        } else {
            -(((((3932160 - t) as u128) * (LOG_MILLI_PER_OCTAVE as u128)) / 0x100000000) as i64)
                - 691
        }
    }

    /// The gain deriver: map a loudness in thousandths of a LUFS to a
    /// linear gain in thousandths.
    pub fn target_scale_milli(lufs_milli: i64) -> (r: u64)
        ensures
            r as int == spec_gain_milli(lufs_milli as int),
    {
        if lufs_milli <= -70000 {
            return 1000;
        }
        if lufs_milli > 42000 {
            return 0;
        }
        let e: i64 = -18000 - lufs_milli;
        let a: u64 = if e < 0 {
            (-e) as u64
        } else {
            e as u64
        };
        proof {
            crate::fixedpoint::lemma_div_le_num(a as int * (OCTAVES_PER_BEL as int), 20000);
        }
        let y: u64 = ((a as u128 * (OCTAVES_PER_BEL as u128)) / 20000) as u64;
        let n: u64 = y / 65536;
        let fr: u64 = y % 65536;
        let rq: u128 = gain_frac(fr);
        proof {
            vstd::arithmetic::div_mod::lemma_div_is_ordered(
                a as int * (OCTAVES_PER_BEL as int),
                60000 * (OCTAVES_PER_BEL as int),
                20000,
            );
            crate::fixedpoint::lemma_div_le_num(y as int, 65536);
            vstd::arithmetic::div_mod::lemma_div_is_ordered(y as int, 653118, 65536);
        }
        let mut p: u128 = 1;
        let mut i: u64 = 0;
        while i < n
            invariant
                p as int == spec_pow2_small(i as int),
                i <= n,
                n <= 9,
                1 <= p <= 512,
            decreases n - i,
        {
            proof {
                lemma_pow2_small_bound(i as int + 1);
            }
            p = p * 2;
            i = i + 1;
        }
        if e >= 0 {
            proof {
                assert(1000 * rq * (p as int) <= 1000 * 8589843734 * 512) by (nonlinear_arith)
                    requires
                        rq <= 8589843734,
                        p <= 512,
                        1 <= p,
                        1 <= rq,
                ;
                crate::fixedpoint::lemma_div_le_num(1000 * rq as int * (p as int), 0x100000000);
            }
            ((1000 * rq * p) / 0x100000000) as u64
        } else {
            proof {
                assert(0x100000000 <= rq * (p as int) <= 8589843734 * 512) by (nonlinear_arith)
                    requires
                        0x100000000 <= rq <= 8589843734,
                        1 <= p <= 512,
                ;
                crate::fixedpoint::lemma_div_le_num(1000int * 0x100000000, rq as int * (p as int));
            }
            ((1000 * 0x100000000u128) / (rq * p)) as u64
        }
    }
}


/// The doubling chain agrees with the library's power of two.
proof fn lemma_pow2_small_is_pow2(n: int)
    requires
        0 <= n,
    ensures
        spec_pow2_small(n) == vstd::arithmetic::power2::pow2(n as nat),
    decreases n,
{
    if n > 0 {
        lemma_pow2_small_is_pow2(n - 1);
        vstd::arithmetic::power2::lemma_pow2_unfold(n as nat);
    } else {
        vstd::arithmetic::power2::lemma2_to64();
    }
}

/// From 62 doublings on, the power passes `2^62`.
proof fn lemma_pow2_small_ge(n: int)
    requires
        n >= 62,
    ensures
        spec_pow2_small(n) >= 0x4000000000000000,
    decreases n,
{
    if n > 62 {
        lemma_pow2_small_ge(n - 1);
    } else {
        lemma_pow2_small_is_pow2(62);
        vstd::arithmetic::power2::lemma2_to64_rest();
    }
}

/// Sixteen doublings give exactly `2^16`.
proof fn lemma_pow2_small_value_16()
    ensures
        spec_pow2_small(16) == 0x10000,
{
    lemma_pow2_small_is_pow2(16);
    vstd::arithmetic::power2::lemma2_to64();
}

/// One doubling, stated for the chain.
proof fn lemma_pow2_small_bridge(n: int)
    requires
        0 <= n,
    ensures
        spec_pow2_small(n + 1) == 2 * spec_pow2_small(n),
        spec_pow2_small(n) >= 1,
{
    lemma_pow2_small_pos(n);
}

/// The doubling chain is positive.
proof fn lemma_pow2_small_pos(n: int)
    ensures
        spec_pow2_small(n) >= 1,
    decreases (if n >= 0 { n } else { 0 }),
{
    if n > 0 {
        lemma_pow2_small_pos(n - 1);
    }
}

/// One hundred twenty-eight doublings pass `2^128`.
proof fn lemma_pow2_small_128()
    ensures
        spec_pow2_small(128) >= 0x100000000000000000000000000000000,
{
    lemma_pow2_small_is_pow2(128);
    vstd::arithmetic::power2::lemma_pow2_adds(64, 64);
    vstd::arithmetic::power2::lemma2_to64();
    assert(vstd::arithmetic::power2::pow2(64) * vstd::arithmetic::power2::pow2(64)
        == 0x100000000000000000000000000000000) by (nonlinear_arith)
        requires
            vstd::arithmetic::power2::pow2(64) == 0x10000000000000000,
    ;
}

/// Small powers of two stay small.
proof fn lemma_pow2_small_bound(n: int)
    requires
        n <= 9,
    ensures
        spec_pow2_small(n) <= 512,
        spec_pow2_small(n) >= 1,
{
    if n <= 0 {
    } else {
        lemma_pow2_small_is_pow2(n);
        vstd::arithmetic::power2::lemma2_to64();
        if n < 9 {
            vstd::arithmetic::power2::lemma_pow2_strictly_increases(n as nat, 9);
        }
    }
}

/// Powers of two up to the sixteenth stay below `2^16`.
proof fn lemma_pow2_small_le16(n: int)
    requires
        n <= 16,
    ensures
        spec_pow2_small(n) <= 0x10000,
        spec_pow2_small(n) >= 1,
{
    if n <= 0 {
    } else {
        lemma_pow2_small_is_pow2(n);
        vstd::arithmetic::power2::lemma2_to64();
        if n < 16 {
            vstd::arithmetic::power2::lemma_pow2_strictly_increases(n as nat, 16);
        }
    }
}

} // verus!
