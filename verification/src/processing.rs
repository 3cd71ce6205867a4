//! Feeding audio and evaluating gating blocks.

use vstd::prelude::*;
use crate::{Ebur128State, GatingBlock, MeterError, EBUR128_UNUSED, EBUR128_LEFT_SURROUND,
    EBUR128_RIGHT_SURROUND, EBUR128_MODE_I, EBUR128_MODE_LRA};
use crate::fixedpoint::OUT_CLAMP;
use crate::model::{MeterModel, wf, feed_wf, spec_chan_sum_range, spec_chan_window_sum,
    spec_weighted, spec_window_total, spec_window_energy, spec_apply_gating_block,
    spec_apply_shortterm, spec_sq, frame_index, ABS_GATE_ENERGY, ENERGY_LIMIT, BLOCK_CAPACITY,
    spec_reset, blocksize, spec_block_frames};

verus! {

/// Square of one ring sample, bounded by the ring clamp.
proof fn lemma_sq_bound(x: i64)
    requires
        -OUT_CLAMP <= x <= OUT_CLAMP,
    ensures
        0 <= spec_sq(x) <= OUT_CLAMP as int * OUT_CLAMP as int,
{
    assert(0 <= x as int * x as int <= OUT_CLAMP as int * OUT_CLAMP as int) by (nonlinear_arith)
        requires
            -OUT_CLAMP <= x <= OUT_CLAMP,
    ;
}

/// A channel's range sum is nonnegative and grows at most linearly.
proof fn lemma_chan_sum_range_bound(
    ring: Seq<i64>,
    frames_cap: int,
    channels: int,
    c: int,
    start: int,
    count: int,
)
    requires
        channels >= 1,
        0 <= c < channels,
        0 <= start,
        0 <= count,
        start + count <= frames_cap,
        ring.len() == frames_cap * channels,
        forall|i: int| 0 <= i < ring.len() ==> -OUT_CLAMP <= #[trigger] ring[i] <= OUT_CLAMP,
    ensures
        0 <= spec_chan_sum_range(ring, channels, c, start, count) <= count * (OUT_CLAMP as int
            * OUT_CLAMP as int),
    decreases count,
{
    if count <= 0 {
    } else {
        lemma_chan_sum_range_bound(ring, frames_cap, channels, c, start, count - 1);
        assert(0 <= (start + count - 1) * channels + c < frames_cap * channels) by (
        nonlinear_arith)
            requires
                0 <= start + count - 1 < frames_cap,
                0 <= c < channels,
                channels >= 1,
        ;
        lemma_sq_bound(ring[(start + count - 1) * channels + c]);
        assert((count - 1) * (OUT_CLAMP as int * OUT_CLAMP as int) + OUT_CLAMP as int
            * OUT_CLAMP as int == count * (OUT_CLAMP as int * OUT_CLAMP as int)) by (
        nonlinear_arith);
    }
}

/// A trailing window sum is nonnegative and at most `fpb` full-scale squares.
proof fn lemma_chan_window_sum_bound(
    ring: Seq<i64>,
    frames_cap: int,
    channels: int,
    c: int,
    fi: int,
    fpb: int,
)
    requires
        channels >= 1,
        0 <= c < channels,
        0 <= fi <= frames_cap,
        1 <= fpb <= frames_cap,
        ring.len() == frames_cap * channels,
        forall|i: int| 0 <= i < ring.len() ==> -OUT_CLAMP <= #[trigger] ring[i] <= OUT_CLAMP,
    ensures
        0 <= spec_chan_window_sum(ring, frames_cap, channels, c, fi, fpb) <= fpb * (
        OUT_CLAMP as int * OUT_CLAMP as int),
{
    if fi >= fpb {
        lemma_chan_sum_range_bound(ring, frames_cap, channels, c, fi - fpb, fpb);
    } else {
        lemma_chan_sum_range_bound(ring, frames_cap, channels, c, 0, fi);
        lemma_chan_sum_range_bound(ring, frames_cap, channels, c, frames_cap - (fpb - fi), fpb
            - fi);
        assert(fi * (OUT_CLAMP as int * OUT_CLAMP as int) + (fpb - fi) * (OUT_CLAMP as int
            * OUT_CLAMP as int) == fpb * (OUT_CLAMP as int * OUT_CLAMP as int)) by (
        nonlinear_arith);
    }
}

/// The surround weighting scales a bounded sum by at most two.
proof fn lemma_weighted_bound(sum: int, role: i32, bound: int)
    requires
        0 <= sum <= bound,
        0 <= bound,
    ensures
        0 <= spec_weighted(sum, role) <= 2 * bound,
{
    if role == EBUR128_LEFT_SURROUND || role == EBUR128_RIGHT_SURROUND {
        crate::fixedpoint::lemma_div_le_num(sum * 141, 100);
        vstd::arithmetic::div_mod::lemma_div_is_ordered(sum * 141, bound * 200, 100);
        vstd::arithmetic::div_mod::lemma_div_multiples_vanish(2 * bound, 100);
        assert(sum * 141 <= bound * 200 && bound * 200 == 100 * (2 * bound) && 0 <= sum * 141) by (
        nonlinear_arith)
            requires
                0 <= sum <= bound,
        ;
    }
}

/// The weighted total over the first `cnt` channels.
proof fn lemma_window_total_bound(m: MeterModel, fpb: int, cnt: int)
    requires
        wf(m),
        1 <= fpb <= m.audio_data_frames,
        0 <= cnt <= m.channels,
    ensures
        0 <= spec_window_total(m, fpb, cnt) <= cnt * (2 * fpb * (OUT_CLAMP as int
            * OUT_CLAMP as int)),
    decreases cnt,
{
    if cnt <= 0 {
    } else {
        lemma_window_total_bound(m, fpb, cnt - 1);
        let fi = frame_index(m);
        assert(0 <= fi <= m.audio_data_frames) by {
            crate::fixedpoint::lemma_div_le_num(m.audio_data_index as int, m.channels as int);
            vstd::arithmetic::div_mod::lemma_div_is_ordered(
                m.audio_data_index as int,
                m.audio_data.len() as int,
                m.channels as int,
            );
            vstd::arithmetic::div_mod::lemma_div_multiples_vanish(
                m.audio_data_frames as int,
                m.channels as int,
            );
            assert(m.channels as int * m.audio_data_frames as int == m.audio_data_frames as int
                * m.channels as int) by (nonlinear_arith);
        }
        if m.channel_map[cnt - 1] != EBUR128_UNUSED {
            lemma_chan_window_sum_bound(
                m.audio_data,
                m.audio_data_frames as int,
                m.channels as int,
                cnt - 1,
                fi,
                fpb,
            );
            lemma_weighted_bound(
                spec_chan_window_sum(
                    m.audio_data,
                    m.audio_data_frames as int,
                    m.channels as int,
                    cnt - 1,
                    fi,
                    fpb,
                ),
                m.channel_map[cnt - 1],
                fpb * (OUT_CLAMP as int * OUT_CLAMP as int),
            );
        }
        assert((cnt - 1) * (2 * fpb * (OUT_CLAMP as int * OUT_CLAMP as int)) + 2 * (fpb * (
        OUT_CLAMP as int * OUT_CLAMP as int)) == cnt * (2 * fpb * (OUT_CLAMP as int
            * OUT_CLAMP as int))) by (nonlinear_arith);
    }
}

/// Mean-square window energies stay within the meter's energy range.
pub proof fn lemma_window_energy_bound(m: MeterModel, fpb: int)
    requires
        wf(m),
        1 <= fpb <= m.audio_data_frames,
    ensures
        0 <= spec_window_energy(m, fpb) <= ENERGY_LIMIT,
{
    lemma_window_total_bound(m, fpb, m.channels as int);
    let sq = OUT_CLAMP as int * OUT_CLAMP as int;
    let total = spec_window_total(m, fpb, m.channels as int);
    crate::fixedpoint::lemma_div_le_num(total, fpb);
    assert(m.channels * (2 * fpb * sq) == fpb * (2 * m.channels * sq)) by (nonlinear_arith);
    vstd::arithmetic::div_mod::lemma_div_is_ordered(total, fpb * (2 * m.channels * sq), fpb);
    vstd::arithmetic::div_mod::lemma_div_multiples_vanish(2 * m.channels * sq, fpb);
    assert(2 * m.channels as int * sq <= 2 * 65535 * sq) by (nonlinear_arith)
        requires
            m.channels <= 65535,
            0 <= sq,
    ;
    assert(2 * 65535 * (OUT_CLAMP as int * OUT_CLAMP as int) <= ENERGY_LIMIT);
}

/// The ring never exceeds three seconds of frames.
pub proof fn lemma_frames_cap_bound(m: MeterModel)
    requires
        wf(m),
    ensures
        m.audio_data_frames <= 0xC0000000,
{
    crate::fixedpoint::lemma_div_le_num(m.sample_rate as int, 5);
}

/// A filter product of a clamped coefficient and a clamped state value.
proof fn lemma_filter_products(a: i64, v: i64)
    requires
        -crate::fixedpoint::COEF_LIMIT <= a <= crate::fixedpoint::COEF_LIMIT || -OUT_CLAMP <= a
            <= OUT_CLAMP,
        -crate::fixedpoint::V_CLAMP <= v <= crate::fixedpoint::V_CLAMP,
    ensures
        -0x200000000000000000000000 <= a as int * v as int <= 0x200000000000000000000000,
{
    assert(-0x200000000000000000000000 <= a as int * v as int <= 0x200000000000000000000000) by (
    nonlinear_arith)
        requires
            -0x4000000000 <= a <= 0x4000000000,
            -0x80000000000000 <= v <= 0x80000000000000,
    ;
}

/// A positive multiple of `k` is at least `k`.
proof fn lemma_multiple_ge(x: int, k: int)
    requires
        k >= 1,
        x > 0,
        x % k == 0,
    ensures
        x >= k,
{
    vstd::arithmetic::div_mod::lemma_fundamental_div_mod(x, k);
    if x < k {
        assert(x / k == 0) by (nonlinear_arith)
            requires
                0 <= x < k,
        ;
    }
}

/// `len / channels < frames` is the same as `len < frames * channels`.
proof fn lemma_len_check(len: int, frames: int, channels: int)
    requires
        channels >= 1,
        0 <= len,
        0 <= frames,
    ensures
        (len / channels < frames) <==> (len < frames * channels),
{
    if len >= frames * channels {
        vstd::arithmetic::div_mod::lemma_div_is_ordered(frames * channels, len, channels);
        vstd::arithmetic::div_mod::lemma_div_multiples_vanish(frames, channels);
        assert(channels * frames == frames * channels) by (nonlinear_arith);
    }
    if len < frames * channels {
        vstd::arithmetic::div_mod::lemma_fundamental_div_mod(len, channels);
        if len / channels >= frames {
            vstd::arithmetic::mul::lemma_mul_inequality(frames, len / channels, channels);
            assert(channels * (len / channels) == (len / channels) * channels) by (
            nonlinear_arith);
            assert(false);
        }
    }
}

/// Structure of one frame's channel pass: only the filter memory and the
/// just-written ring slots change, and everything stays clamped.
pub proof fn lemma_write_channels_props(m: MeterModel, frame: Seq<i64>, cnt: int)
    requires
        wf(m),
        0 <= cnt <= m.channels,
        m.audio_data_index + m.channels <= m.audio_data.len(),
    ensures
        ({
            let m1 = crate::model::spec_write_channels(m, frame, cnt);
            &&& m1 == (MeterModel { v: m1.v, audio_data: m1.audio_data, ..m })
            &&& m1.v.len() == m.v.len()
            &&& forall|c: int| 0 <= c < m.channels ==> crate::model::v_row_ok(#[trigger] m1.v[c])
            &&& forall|c: int| cnt <= c < m.channels ==> m1.v[c] == m.v[c]
            &&& m1.audio_data.len() == m.audio_data.len()
            &&& forall|i: int|
                0 <= i < m.audio_data.len() ==> -OUT_CLAMP <= #[trigger] m1.audio_data[i]
                    <= OUT_CLAMP
            &&& forall|i: int|
                0 <= i < m.audio_data.len() && !(m.audio_data_index <= i < m.audio_data_index
                    + cnt) ==> m1.audio_data[i] == m.audio_data[i]
        }),
    decreases cnt,
{
    if cnt <= 0 {
    } else {
        lemma_write_channels_props(m, frame, cnt - 1);
    }
}

/// Structure of a whole run of frames: the write cursor advances by
/// `frames` frames and nothing else but memory and ring contents move.
pub proof fn lemma_write_run_props(m: MeterModel, src: Seq<i64>, frames: int)
    requires
        wf(m),
        0 <= frames,
        m.audio_data_index + frames * m.channels <= m.audio_data.len(),
        m.audio_data.len() <= usize::MAX,
    ensures
        ({
            let m1 = crate::model::spec_write_run(m, src, frames);
            &&& m1 == (MeterModel {
                v: m1.v,
                audio_data: m1.audio_data,
                audio_data_index: m1.audio_data_index,
                ..m
            })
            &&& m1.audio_data_index == m.audio_data_index + frames * m.channels
            &&& wf(m1)
        }),
    decreases frames,
{
    vstd::arithmetic::div_mod::lemma_mod_multiples_vanish(
        frames,
        m.audio_data_index as int,
        m.channels as int,
    );
    if frames <= 0 {
        assert(frames * m.channels == 0) by (nonlinear_arith)
            requires
                frames <= 0,
                frames * m.channels >= 0,
        ;
    } else {
        assert((frames - 1) * m.channels as int + m.channels as int == frames
            * m.channels as int) by (nonlinear_arith);
        assert((frames - 1) * m.channels as int >= 0) by (nonlinear_arith)
            requires
                frames >= 1,
                m.channels as int >= 1,
        ;
        lemma_write_run_props(m, src, frames - 1);
        let mp = crate::model::spec_write_run(m, src, frames - 1);
        lemma_write_channels_props(
            mp,
            crate::model::frame_of(src, m.channels as int, frames - 1),
            mp.channels as int,
        );
        let m1 = crate::model::spec_write_run(m, src, frames);
        assert(m.audio_data_index as int + frames * m.channels as int == m.channels as int * frames
            + m.audio_data_index as int) by (nonlinear_arith);
        assert(m1 == (MeterModel {
            v: m1.v,
            audio_data: m1.audio_data,
            audio_data_index: m1.audio_data_index,
            ..m
        }));
        assert(m1.audio_data_index == m.audio_data_index + frames * m.channels);
        assert(wf(m1));
    }
}

/// Completing a block keeps the meter aligned for further feeding: the next
/// window boundary still lies inside the ring buffer and on a block-step
/// multiple, and likewise for the short-term cadence.
pub proof fn lemma_step_alignment(mi: MeterModel, rest: Seq<i64>, run: int)
    requires
        wf(mi),
        feed_wf(mi),
        run == mi.needed_frames,
        mi.audio_data.len() <= usize::MAX,
    ensures
        feed_wf(
            crate::model::spec_trigger(crate::model::spec_partial_run(mi, rest, run)),
        ),
{
    let k = blocksize(mi);
    let cap = mi.audio_data_frames as int;
    let ch = mi.channels as int;
    let rate = mi.sample_rate as int;
    let fi = frame_index(mi);
    vstd::arithmetic::div_mod::lemma_div_is_ordered(5, rate, 5);
    vstd::arithmetic::div_mod::lemma_div_basics(5);
    vstd::arithmetic::div_mod::lemma_fundamental_div_mod(mi.audio_data_index as int, ch);
    assert(mi.audio_data_index as int == ch * fi);
    assert(ch * fi + run * ch == ch * (fi + run) && ch * (fi + run) <= ch * cap && ch * cap == cap
        * ch) by (nonlinear_arith)
        requires
            fi + run <= cap,
            ch >= 1,
    ;
    lemma_write_run_props(mi, rest, run);
    let m1 = crate::model::spec_partial_run(mi, rest, run);
    assert(m1.audio_data_index as int == ch * (fi + run)) by (nonlinear_arith)
        requires
            m1.audio_data_index as int == mi.audio_data_index as int + run * ch,
            mi.audio_data_index as int == ch * fi,
    ;
    let mt = crate::model::spec_trigger(m1);
    assert(mt.needed_frames == k);
    vstd::arithmetic::div_mod::lemma_fundamental_div_mod(cap, k);
    vstd::arithmetic::div_mod::lemma_fundamental_div_mod(fi + run, k);
    lemma_multiple_ge(cap, k);
    // the frame index after the trigger
    let fi1 = fi + run;
    if m1.audio_data_index == m1.audio_data.len() {
        assert(mt.audio_data_index == 0);
        vstd::arithmetic::div_mod::lemma_div_basics(ch);
        vstd::arithmetic::div_mod::lemma_mod_multiples_basic(1, k);
        vstd::arithmetic::div_mod::lemma_mod_multiples_basic(0, k);
        assert(frame_index(mt) == 0);
        assert(frame_index(mt) + mt.needed_frames <= cap);
        assert((0 + k) % k == 0) by {
            vstd::arithmetic::div_mod::lemma_mod_multiples_basic(1, k);
        }
    } else {
        assert(mt.audio_data_index == m1.audio_data_index);
        vstd::arithmetic::div_mod::lemma_div_multiples_vanish(fi1, ch);
        assert(frame_index(mt) == fi1);
        assert(ch * fi1 < cap * ch ==> fi1 < cap) by (nonlinear_arith)
            requires
                ch >= 1,
        ;
        assert(fi1 < cap);
        // cap - fi1 is a positive multiple of k
        let qc = cap / k;
        let qf = fi1 / k;
        assert(cap == k * qc && fi1 == k * qf);
        assert(cap - fi1 == k * (qc - qf)) by (nonlinear_arith)
            requires
                cap == k * qc,
                fi1 == k * qf,
        ;
        vstd::arithmetic::div_mod::lemma_mod_multiples_basic(qc - qf, k);
        assert((cap - fi1) % k == 0) by {
            assert(k * (qc - qf) == (qc - qf) * k) by (nonlinear_arith);
        }
        lemma_multiple_ge(cap - fi1, k);
        assert(fi1 + k <= cap);
        vstd::arithmetic::div_mod::lemma_mod_multiples_basic(qf + 1, k);
        assert(fi1 + k == k * (qf + 1)) by (nonlinear_arith)
            requires
                fi1 == k * qf,
        ;
        assert((fi1 + k) % k == 0) by {
            assert(k * (qf + 1) == (qf + 1) * k) by (nonlinear_arith);
        }
    }
    if crate::model::mode_has(mi.mode, EBUR128_MODE_LRA) {
        vstd::arithmetic::div_mod::lemma_fundamental_div_mod(rate, 5);
        let st1 = m1.short_term_frame_counter as int;
        assert(st1 == mi.short_term_frame_counter + run);
        assert((3 * rate - st1) % k == 0);
        if st1 == 3 * rate {
            assert(mt.short_term_frame_counter == 2 * rate);
            crate::fixedpoint::lemma_div_le_num(rate, 5);
            assert(rate == 5 * k);
            assert(3 * rate - 2 * rate - k == 4 * k);
            vstd::arithmetic::div_mod::lemma_mod_multiples_basic(4, k);
            assert(4 * k == k * 4) by (nonlinear_arith);
        } else {
            assert(mt.short_term_frame_counter == st1);
            let d = 3 * rate - st1;
            vstd::arithmetic::div_mod::lemma_fundamental_div_mod(d, k);
            lemma_multiple_ge(d, k);
            assert(st1 + k <= 3 * rate);
            let qd = d / k;
            assert(d == k * qd);
            assert(d - k == k * (qd - 1)) by (nonlinear_arith)
                requires
                    d == k * qd,
            ;
            vstd::arithmetic::div_mod::lemma_mod_multiples_basic(qd - 1, k);
            assert((d - k) % k == 0) by {
                assert(k * (qd - 1) == (qd - 1) * k) by (nonlinear_arith);
            }
        }
    }
}

/// Descending accumulation over a sorted sequence: take every energy at or
/// above the threshold, newest-loudest first, up to `limit` of them.
pub open spec fn spec_gated_sum(sorted: Seq<u128>, thresh: int, limit: int) -> (int, int)
    decreases sorted.len(),
{
    if sorted.len() == 0 || limit <= 0 {
        (0, 0)
    } else if sorted.last() >= thresh {
        let p = spec_gated_sum(sorted.drop_last(), thresh, limit - 1);
        (p.0 + sorted.last(), p.1 + 1)
    } else {
        spec_gated_sum(sorted.drop_last(), thresh, limit)
    }
}

/// What the relative gate yields from a bag of stored block energies.
pub open spec fn spec_gated_loudness(blocks: Seq<u128>, limit: int) -> Option<i64> {
    if blocks.len() == 0 {
        None
    } else {
        let sorted = crate::sorting::spec_sort(blocks);
        let idx = blocks.len() as int * 9 / 10;
        let thresh = (sorted[idx] as int * (crate::model::RELATIVE_GATE_FACTOR as int)) / (
        crate::fixedpoint::Q30 as int);
        let g = spec_gated_sum(sorted, thresh, limit);
        if g.1 == 0 {
            None
        } else {
            Some(
                crate::loudness_math::spec_lufs_milli(g.0 / g.1) as i64,
            )
        }
    }
}

pub open spec fn spec_loudness_global(m: MeterModel) -> Option<i64> {
    if !crate::model::mode_has(m.mode, EBUR128_MODE_I) {
        None
    } else {
        spec_gated_loudness(m.blocks, m.blocks.len() as int)
    }
}

pub open spec fn spec_loudness_segment(m: MeterModel) -> Option<i64> {
    if !crate::model::mode_has(m.mode, EBUR128_MODE_I) {
        None
    } else {
        spec_gated_loudness(m.blocks, m.block_counter as int)
    }
}

/// The accumulated pair counts only elements of the sequence: the sum is
/// at least the count and at most the whole sequence's worth.
proof fn lemma_gated_sum_bounds(sorted: Seq<u128>, thresh: int, limit: int)
    requires
        forall|t: int|
            0 <= t < sorted.len() ==> ABS_GATE_ENERGY <= #[trigger] sorted[t] <= ENERGY_LIMIT,
    ensures
        ({
            let g = spec_gated_sum(sorted, thresh, limit);
            &&& 0 <= g.1 <= sorted.len()
            &&& g.1 <= g.0
            &&& g.0 <= sorted.len() * (ENERGY_LIMIT as int)
        }),
    decreases sorted.len(),
{
    if sorted.len() == 0 || limit <= 0 {
    } else {
        assert forall|t: int|
            0 <= t < sorted.drop_last().len() implies ABS_GATE_ENERGY <= #[trigger] (
        sorted.drop_last()[t]) <= ENERGY_LIMIT by {
            assert(sorted.drop_last()[t] == sorted[t]);
        }
        if sorted.last() >= thresh {
            lemma_gated_sum_bounds(sorted.drop_last(), thresh, limit - 1);
        } else {
            lemma_gated_sum_bounds(sorted.drop_last(), thresh, limit);
        }
        assert((sorted.len() - 1) * (ENERGY_LIMIT as int) + (ENERGY_LIMIT as int) == sorted.len()
            * (ENERGY_LIMIT as int)) by (nonlinear_arith);
    }
}

impl Ebur128State {
    /// Sum of squares of channel `c` over `count` frames starting at frame
    /// `start`.
    fn chan_sum(&self, c: usize, start: usize, count: usize) -> (r: u128)
        requires
            wf(self@),
            c < self@.channels,
            start + count <= self@.audio_data_frames,
        ensures
            r as int == spec_chan_sum_range(
                self@.audio_data,
                self@.channels as int,
                c as int,
                start as int,
                count as int,
            ),
            r as int <= count as int * (OUT_CLAMP as int * OUT_CLAMP as int),
    {
        proof {
            lemma_chan_sum_range_bound(
                self@.audio_data,
                self@.audio_data_frames as int,
                self@.channels as int,
                c as int,
                start as int,
                count as int,
            );
        }
        let mut sum: u128 = 0;
        let mut j: usize = 0;
        let ring_len: usize = self.audio_data.len();
        while j < count
            invariant
                wf(self@),
                c < self@.channels,
                start + count <= self@.audio_data_frames,
                ring_len == self@.audio_data.len(),
                j <= count,
                sum as int == spec_chan_sum_range(
                    self@.audio_data,
                    self@.channels as int,
                    c as int,
                    start as int,
                    j as int,
                ),
            decreases count - j,
        {
            proof {
                lemma_chan_sum_range_bound(
                    self@.audio_data,
                    self@.audio_data_frames as int,
                    self@.channels as int,
                    c as int,
                    start as int,
                    j as int,
                );
                lemma_chan_sum_range_bound(
                    self@.audio_data,
                    self@.audio_data_frames as int,
                    self@.channels as int,
                    c as int,
                    start as int,
                    j as int + 1,
                );
                assert(0 <= (start as int + j as int) * (self@.channels as int) + (c as int) && (
                start as int + j as int) * (self@.channels as int) + (c as int) < (
                self@.audio_data_frames as int) * (self@.channels as int)) by (nonlinear_arith)
                    requires
                        0 <= start as int + j as int,
                        (start as int) + (j as int) < (self@.audio_data_frames as int),
                        0 <= c as int,
                        (c as int) < (self@.channels as int),
                ;
                assert(self@.audio_data_frames as int * self@.channels as int
                    == self@.audio_data.len());
            }
            let x: i64 = self.audio_data[(start + j) * self.channels + c];
            proof {
                lemma_sq_bound(x);
            }
            let xsq: u128 = ((x as i128) * (x as i128)) as u128;
            sum = sum + xsq;
            j = j + 1;
        }
        sum
    }

    /// Weighted mean-square energy of the trailing `frames_per_block`
    /// frames of the ring buffer.
    #[verifier::rlimit(60)]
    fn window_energy(&self, frames_per_block: usize) -> (r: u128)
        requires
            wf(self@),
            1 <= frames_per_block <= self@.audio_data_frames,
        ensures
            r as int == spec_window_energy(self@, frames_per_block as int),
            r <= ENERGY_LIMIT,
    {
        proof {
            lemma_window_energy_bound(self@, frames_per_block as int);
            crate::fixedpoint::lemma_div_le_num(self@.audio_data_index as int, self@.channels as int);
            vstd::arithmetic::div_mod::lemma_div_is_ordered(
                self@.audio_data_index as int,
                self@.audio_data.len() as int,
                self@.channels as int,
            );
            vstd::arithmetic::div_mod::lemma_div_multiples_vanish(
                self@.audio_data_frames as int,
                self@.channels as int,
            );
            assert(self@.channels as int * self@.audio_data_frames as int
                == self@.audio_data_frames as int * self@.channels as int) by (nonlinear_arith);
        }
        let fi: usize = self.audio_data_index / self.channels;
        let fpb: usize = frames_per_block;
        let mut total: u128 = 0;
        let mut c: usize = 0;
        while c < self.channels
            invariant
                wf(self@),
                1 <= fpb <= self@.audio_data_frames,
                fi == frame_index(self@),
                0 <= fi <= self@.audio_data_frames,
                c <= self@.channels,
                total as int == spec_window_total(self@, fpb as int, c as int),
            decreases self@.channels - c,
        {
            proof {
                lemma_window_total_bound(self@, fpb as int, c as int);
                lemma_window_total_bound(self@, fpb as int, c as int + 1);
            }
            if self.channel_map[c] != EBUR128_UNUSED {
                proof {
                    lemma_chan_window_sum_bound(
                        self@.audio_data,
                        self@.audio_data_frames as int,
                        self@.channels as int,
                        c as int,
                        fi as int,
                        fpb as int,
                    );
                }
                let chan_sum: u128 = if fi >= fpb {
                    self.chan_sum(c, fi - fpb, fpb)
                } else {
                    let head = self.chan_sum(c, 0, fi);
                    let tail = self.chan_sum(c, self.audio_data_frames - (fpb - fi), fpb - fi);
                    proof {
                        assert(fi as int * (OUT_CLAMP as int * OUT_CLAMP as int) + (fpb as int
                            - fi as int) * (OUT_CLAMP as int * OUT_CLAMP as int) == fpb as int * (
                        OUT_CLAMP as int * OUT_CLAMP as int)) by (nonlinear_arith);
                        assert(fpb as int * (OUT_CLAMP as int * OUT_CLAMP as int)
                            <= 0xC0000000 * (OUT_CLAMP as int * OUT_CLAMP as int)) by (
                        nonlinear_arith)
                            requires
                                1 <= fpb as int <= 0xC0000000,
                        ;
                        lemma_frames_cap_bound(self@);
                    }
                    head + tail
                };
                let role: i32 = self.channel_map[c];
                proof {
                    lemma_frames_cap_bound(self@);
                    lemma_weighted_bound(
                        chan_sum as int,
                        role,
                        fpb as int * (OUT_CLAMP as int * OUT_CLAMP as int),
                    );
                    assert(chan_sum as int * 141 <= 0xC0000000 * (OUT_CLAMP as int
                        * OUT_CLAMP as int) * 141) by (nonlinear_arith)
                        requires
                            0 <= chan_sum as int <= fpb as int * (OUT_CLAMP as int
                                * OUT_CLAMP as int),
                            1 <= fpb as int <= 0xC0000000,
                    ;
                }
                let weighted: u128 = if role == EBUR128_LEFT_SURROUND || role
                    == EBUR128_RIGHT_SURROUND {
                    chan_sum * 141 / 100
                } else {
                    chan_sum
                };
                proof {
                    lemma_frames_cap_bound(self@);
                    assert(spec_window_total(self@, fpb as int, c as int) + spec_weighted(
                        chan_sum as int,
                        role,
                    ) <= (c as int + 1) * (2 * fpb as int * (OUT_CLAMP as int
                        * OUT_CLAMP as int)));
                    assert((c as int + 1) * (2 * fpb as int * (OUT_CLAMP as int
                        * OUT_CLAMP as int)) <= 65535 * (2 * 0xC0000000 * (OUT_CLAMP as int
                        * OUT_CLAMP as int))) by (nonlinear_arith)
                        requires
                            0 < c as int + 1 <= 65535,
                            1 <= fpb as int <= 0xC0000000,
                    ;
                }
                total = total + weighted;
            }
            c = c + 1;
        }
        total / (fpb as u128)
    }

    /// Push `frames` interleaved frames through the K-weighting filter,
    /// writing the weighted samples into the ring buffer at the current
    /// write cursor.  The cursor itself does not move: advancing it at run
    /// boundaries belongs to [`Self::add_frames_float`].  Channels whose
    /// role is unused are skipped.
    pub fn filter_float(&mut self, src: &[i64], frames: usize) -> (r: Result<(), MeterError>)
        requires
            wf(old(self)@),
            old(self)@.audio_data_index + frames * old(self)@.channels <= old(self)@.audio_data.len(),
        ensures
            wf(final(self)@),
            frames == 0 || src@.len() < frames * old(self)@.channels ==> (r is Err && r->Err_0
                == MeterError::BufferSizeError && final(self)@ == old(self)@),
            !(frames == 0 || src@.len() < frames * old(self)@.channels) ==> (r is Ok && final(self)@
                == (MeterModel {
                audio_data_index: old(self)@.audio_data_index,
                ..crate::model::spec_write_run(old(self)@, src@, frames as int)
            })),
    {
        proof {
            lemma_len_check(src@.len() as int, frames as int, self@.channels as int);
        }
        if frames == 0 || src.len() / self.channels < frames {
            return Err(MeterError::BufferSizeError);
        }
        let channels: usize = self.channels;
        let src_len: usize = src.len();
        let ring_len: usize = self.audio_data.len();
        let mut j: usize = 0;
        while j < frames
            invariant
                wf(old(self)@),
                channels == old(self)@.channels,
                src_len == src@.len(),
                ring_len == old(self)@.audio_data.len(),
                frames * channels <= src_len,
                1 <= frames,
                old(self)@.audio_data_index + frames * channels <= ring_len,
                j <= frames,
                self@ == (MeterModel {
                    audio_data_index: old(self)@.audio_data_index,
                    ..crate::model::spec_write_run(old(self)@, src@, j as int)
                }),
            decreases frames - j,
        {
            proof {
                assert(j * channels + channels <= frames * channels && 0 <= j * channels && (
                j as int + 1) * channels as int == j * channels + channels) by (nonlinear_arith)
                    requires
                        0 <= j,
                        j as int + 1 <= frames,
                        channels >= 1,
                ;
                lemma_write_run_props(old(self)@, src@, j as int);
            }
            let ghost mj = crate::model::spec_write_run(old(self)@, src@, j as int);
            let ghost frame = crate::model::frame_of(src@, channels as int, j as int);
            let base: usize = j * channels;
            let mut c: usize = 0;
            while c < channels
                invariant
                    wf(mj),
                    channels == mj.channels,
                    src_len == src@.len(),
                    base == j * channels,
                    base + channels <= src_len,
                    mj.audio_data_index + channels <= mj.audio_data.len(),
                    mj.audio_data.len() <= usize::MAX,
                    c <= channels,
                    frame == crate::model::frame_of(src@, channels as int, j as int),
                    frame =~= src@.subrange(base as int, base as int + channels),
                    self@.audio_data_index == old(self)@.audio_data_index,
                    mj.audio_data_index == old(self)@.audio_data_index as int + base,
                    self@ == (MeterModel {
                        audio_data_index: self@.audio_data_index,
                        ..crate::model::spec_write_channels(mj, frame, c as int)
                    }),
                decreases channels - c,
            {
                proof {
                    lemma_write_channels_props(mj, frame, c as int);
                    lemma_write_channels_props(mj, frame, c as int + 1);
                }
                if self.channel_map[c] != EBUR128_UNUSED {
                    let x: i64 = src[base + c];
                    let a1: i64 = self.a[1];
                    let a2: i64 = self.a[2];
                    let a3: i64 = self.a[3];
                    let a4: i64 = self.a[4];
                    let b0: i64 = self.b[0];
                    let b1: i64 = self.b[1];
                    let b2: i64 = self.b[2];
                    let b3: i64 = self.b[3];
                    let b4: i64 = self.b[4];
                    let v1: i64 = self.v[c][1];
                    let v2: i64 = self.v[c][2];
                    let v3: i64 = self.v[c][3];
                    let v4: i64 = self.v[c][4];
                    proof {
                        lemma_filter_products(a1, v1);
                        lemma_filter_products(a2, v2);
                        lemma_filter_products(a3, v3);
                        lemma_filter_products(a4, v4);
                    }
                    let fb: i128 = (a1 as i128) * (v1 as i128) + (a2 as i128) * (v2 as i128) + (
                    a3 as i128) * (v3 as i128) + (a4 as i128) * (v4 as i128);
                    let v0: i64 = crate::fixedpoint::clamp_i128(
                        (x as i128) - crate::fixedpoint::tdiv_q30_i128(fb),
                        crate::fixedpoint::V_CLAMP,
                    );
                    proof {
                        lemma_filter_products(b0, v0);
                        lemma_filter_products(b1, v1);
                        lemma_filter_products(b2, v2);
                        lemma_filter_products(b3, v3);
                        lemma_filter_products(b4, v4);
                    }
                    let fwd: i128 = (b0 as i128) * (v0 as i128) + (b1 as i128) * (v1 as i128) + (
                    b2 as i128) * (v2 as i128) + (b3 as i128) * (v3 as i128) + (b4 as i128) * (
                    v4 as i128);
                    let out: i64 = crate::fixedpoint::clamp_i128(
                        crate::fixedpoint::tdiv_q30_i128(fwd),
                        OUT_CLAMP,
                    );
                    self.v[c][4] = v3;
                    self.v[c][3] = v2;
                    self.v[c][2] = v1;
                    self.v[c][1] = v0;
                    self.v[c][0] = v0;
                    self.audio_data[self.audio_data_index + base + c] = out;
                    proof {
                        let prev = crate::model::spec_write_channels(mj, frame, c as int);
                        assert(self@.v[c as int] =~= crate::model::spec_filter_shift(
                            prev.v[c as int],
                            v0,
                        ));
                        assert(self@.v =~~= prev.v.update(
                            c as int,
                            crate::model::spec_filter_shift(prev.v[c as int], v0),
                        ));
                        assert(self@.audio_data =~= prev.audio_data.update(
                            mj.audio_data_index + c,
                            out,
                        ));
                        assert(self@ =~~= (MeterModel {
                            audio_data_index: self@.audio_data_index,
                            ..crate::model::spec_write_channels(mj, frame, c as int + 1)
                        }));
                    }
                } else {
                    proof {
                        assert(self@ =~~= (MeterModel {
                            audio_data_index: self@.audio_data_index,
                            ..crate::model::spec_write_channels(mj, frame, c as int + 1)
                        }));
                    }
                }
                c = c + 1;
            }
            proof {
                lemma_write_channels_props(mj, frame, channels as int);
                assert(self@ =~~= (MeterModel {
                    audio_data_index: old(self)@.audio_data_index,
                    ..crate::model::spec_write_run(old(self)@, src@, j as int + 1)
                }));
            }
            j = j + 1;
        }
        proof {
            lemma_write_run_props(old(self)@, src@, frames as int);
        }
        Ok(())
    }

    /// Feed `frames` interleaved frames.  Input may arrive in any chunking:
    /// the meter consumes it in runs that end at gating-block boundaries
    /// and evaluates a block at each boundary.  When the claimed frame
    /// count overruns the buffer, every whole run that still fits is
    /// applied first and the error is raised at the run that does not.
    pub fn add_frames_float(&mut self, src: &[i64], frames: usize) -> (r: Result<(), MeterError>)
        requires
            wf(old(self)@),
            feed_wf(old(self)@),
        ensures
            wf(final(self)@),
            feed_wf(final(self)@),
            src@.len() >= frames * old(self)@.channels ==> (r is Ok && final(self)@
                == crate::model::spec_feed(old(self)@, src@, frames as int)),
            src@.len() < frames * old(self)@.channels ==> (r is Err && r->Err_0
                == MeterError::BufferSizeError && final(self)@ == crate::model::spec_feed_avail(
                old(self)@,
                src@,
                frames as int,
            )),
    {
        let channels: usize = self.channels;
        let src_len: usize = src.len();
        let ring_len: usize = self.audio_data.len();
        let mut remaining: usize = frames;
        let mut off: usize = 0;
        proof {
            assert(src@.skip(0) =~= src@);
        }
        while remaining > 0
            invariant
                wf(self@),
                feed_wf(self@),
                channels == self@.channels,
                self@.channels == old(self)@.channels,
                self@.sample_rate == old(self)@.sample_rate,
                self@.mode == old(self)@.mode,
                self@.audio_data_frames == old(self)@.audio_data_frames,
                src_len == src@.len(),
                ring_len == self@.audio_data.len(),
                remaining <= frames,
                off == (frames - remaining) * channels,
                off <= src_len,
                crate::model::spec_feed(old(self)@, src@, frames as int)
                    == crate::model::spec_feed(
                    self@,
                    src@.skip(off as int),
                    remaining as int,
                ),
                crate::model::spec_feed_avail(old(self)@, src@, frames as int)
                    == crate::model::spec_feed_avail(
                    self@,
                    src@.skip(off as int),
                    remaining as int,
                ),
            decreases remaining,
        {
            let ghost mi = self@;
            let ghost rest = src@.skip(off as int);
            proof {
                assert(rest.len() == src_len - off);
                vstd::arithmetic::div_mod::lemma_fundamental_div_mod(
                    mi.audio_data_index as int,
                    channels as int,
                );
            }
            let run: usize = if remaining >= self.needed_frames {
                self.needed_frames
            } else {
                remaining
            };
            proof {
                lemma_len_check((src_len - off) as int, run as int, channels as int);
            }
            if (src_len - off) / channels < run {
                // the next run overruns the buffer: whatever was applied
                // so far stays applied
                proof {
                    assert(frames * channels as int == off + remaining * channels && off
                        + remaining * channels >= off + run * channels) by (nonlinear_arith)
                        requires
                            off == (frames - remaining) * channels,
                            1 <= run <= remaining <= frames,
                            channels >= 1,
                    ;
                    assert(run * channels as int > rest.len());
                    assert(crate::model::spec_feed_avail(mi, rest, remaining as int) == mi);
                }
                return Err(MeterError::BufferSizeError);
            }
            proof {
                assert(run * channels <= rest.len() && mi.audio_data_index as int + run
                    * channels as int <= ring_len) by (nonlinear_arith)
                    requires
                        1 <= run,
                        channels >= 1,
                        run * channels as int <= rest.len(),
                        mi.audio_data_index as int == channels as int * frame_index(mi),
                        frame_index(mi) + run <= mi.audio_data_frames as int,
                        ring_len == mi.audio_data_frames as int * channels as int,
                ;
            }
            let sub: &[i64] = &src[off..src_len];
            let filtered = self.filter_float(sub, run);
            proof {
                assert(sub@ =~= rest);
                if filtered is Err {
                    assert(false);
                }
            }
            proof {
                lemma_write_run_props(mi, rest, run as int);
            }
            self.audio_data_index = self.audio_data_index + run * channels;
            proof {
                assert(self@ =~~= crate::model::spec_write_run(mi, rest, run as int));
            }
            if self.mode & EBUR128_MODE_LRA == EBUR128_MODE_LRA {
                self.short_term_frame_counter = self.short_term_frame_counter + run;
            }
            if remaining >= self.needed_frames {
                // This run completes a gating block.
                self.needed_frames = 0;
                proof {
                    assert(self@ =~~= crate::model::spec_partial_run(mi, rest, run as int));
                    vstd::arithmetic::div_mod::lemma_hoist_over_denominator(
                        mi.audio_data_index as int,
                        run as int,
                        channels as nat,
                    );
                    assert(mi.audio_data_index as int + run * channels as int
                        == mi.audio_data_index as int + run * channels) by (nonlinear_arith);
                    crate::fixedpoint::lemma_div_le_num(self@.sample_rate as int, 5);
                    vstd::arithmetic::div_mod::lemma_div_is_ordered(5, self@.sample_rate as int, 5);
                    vstd::arithmetic::div_mod::lemma_div_basics(5);
                }
                let ghost mp = self@;
                if self.mode & EBUR128_MODE_I == EBUR128_MODE_I {
                    let res = self.calc_gating_block(self.sample_rate / 5 * 2);
                    proof {
                        if res is Err {
                            assert(false);
                        }
                    }
                }
                proof {
                    assert(self@ == (if crate::model::mode_has(mp.mode, EBUR128_MODE_I) {
                        spec_apply_gating_block(mp, spec_block_frames(mi))
                    } else {
                        mp
                    }));
                }
                let ghost mg = self@;
                if self.mode & EBUR128_MODE_LRA == EBUR128_MODE_LRA {
                    if self.short_term_frame_counter == self.sample_rate * 3 {
                        let st = self.energy_shortterm();
                        proof {
                            if st is Err {
                                assert(false);
                            }
                        }
                        match st {
                            Ok(Some(e)) => {
                                if self.short_term_block_list.len() < BLOCK_CAPACITY {
                                    self.short_term_block_list.push(GatingBlock { energy: e });
                                    proof {
                                        assert(self.short_term_block_list@.map_values(
                                            |g: GatingBlock| g.energy,
                                        ) =~= mg.st_blocks.push(e));
                                    }
                                }
                            },
                            _ => {},
                        }
                        self.short_term_frame_counter = self.sample_rate * 2;
                    }
                }
                proof {
                    assert(self@ =~~= (if crate::model::mode_has(mg.mode, EBUR128_MODE_LRA) {
                        spec_apply_shortterm(mg)
                    } else {
                        mg
                    }));
                }
                self.needed_frames = self.sample_rate / 5;
                if self.audio_data_index == ring_len {
                    self.audio_data_index = 0;
                }
                proof {
                    assert(self@ =~~= crate::model::spec_trigger(mp));
                    lemma_step_alignment(mi, rest, run as int);
                    assert(src@.skip(off as int).skip(run as int * channels as int) =~= src@.skip(
                        off as int + run * channels,
                    ));
                    assert((frames - (remaining - run)) * channels as int == (frames - remaining)
                        * channels + run * channels) by (nonlinear_arith);
                }
                off = off + run * channels;
                remaining = remaining - run;
            } else {
                self.needed_frames = self.needed_frames - run;
                proof {
                    assert(self@ =~~= crate::model::spec_partial_run(mi, rest, run as int));
                    vstd::arithmetic::div_mod::lemma_hoist_over_denominator(
                        mi.audio_data_index as int,
                        run as int,
                        channels as nat,
                    );
                    assert(mi.audio_data_index as int + run * channels as int
                        == mi.audio_data_index as int + run * channels) by (nonlinear_arith);
                }
                proof {
                    assert((frames - remaining) * channels + run * channels == frames
                        * channels as int) by (nonlinear_arith)
                        requires
                            run == remaining,
                            0 <= remaining <= frames,
                            channels >= 1,
                    ;
                }
                off = off + run * channels;
                remaining = 0;
            }
        }
        proof {
            assert(frames * channels as int == off) by (nonlinear_arith)
                requires
                    off == (frames - 0) * channels,
            ;
        }
        Ok(())
    }

    /// Evaluate one gating block over the trailing `frames_per_block`
    /// frames and store it when it passes the absolute gate.
    pub fn calc_gating_block(&mut self, frames_per_block: usize) -> (r: Result<(), MeterError>)
        requires
            wf(old(self)@),
            1 <= frames_per_block <= old(self)@.audio_data_frames,
        ensures
            r is Ok,
            wf(final(self)@),
            final(self)@ == spec_apply_gating_block(old(self)@, frames_per_block as int),
    {
        proof {
            lemma_window_energy_bound(self@, frames_per_block as int);
        }
        let e: u128 = self.window_energy(frames_per_block);
        if e >= ABS_GATE_ENERGY && self.block_list.len() < BLOCK_CAPACITY {
            self.block_list.push(GatingBlock { energy: e });
            self.block_counter = self.block_counter + 1;
            proof {
                assert(self.block_list@.map_values(|g: GatingBlock| g.energy) =~= old(
                    self,
                ).block_list@.map_values(|g: GatingBlock| g.energy).push(e));
                assert(self@ =~~= spec_apply_gating_block(old(self)@, frames_per_block as int));
            }
        } else {
            proof {
                assert(self@ =~~= spec_apply_gating_block(old(self)@, frames_per_block as int));
            }
        }
        Ok(())
    }

    /// Compute the same window energy without touching the block list; the
    /// result is handed back through `output`.
    pub fn calc_gating_block_with_output(
        &self,
        frames_per_block: usize,
        output: &mut u128,
    ) -> (r: Result<(), MeterError>)
        requires
            wf(self@),
            1 <= frames_per_block <= self@.audio_data_frames,
        ensures
            r is Ok,
            *final(output) as int == spec_window_energy(self@, frames_per_block as int),
            *final(output) <= ENERGY_LIMIT,
    {
        *output = self.window_energy(frames_per_block);
        Ok(())
    }

    /// Mean-square energy over a trailing interval; the interval must fit
    /// the ring buffer.
    pub fn energy_in_interval(&self, interval_frames: usize) -> (r: Result<u128, MeterError>)
        requires
            wf(self@),
            1 <= interval_frames,
        ensures
            r is Err <==> interval_frames > self@.audio_data_frames,
            r is Err ==> r->Err_0 == MeterError::BufferSizeError,
            r is Ok ==> r->Ok_0 as int == spec_window_energy(self@, interval_frames as int) && r
                ->Ok_0 <= ENERGY_LIMIT,
    {
        if interval_frames > self.audio_data_frames {
            return Err(MeterError::BufferSizeError);
        }
        let mut e: u128 = 0;
        match self.calc_gating_block_with_output(interval_frames, &mut e) {
            Ok(()) => Ok(e),
            Err(_) => {
                proof {
                    assert(false);
                }
                Err(MeterError::BufferSizeError)
            },
        }
    }

    /// Three-second window energy, or nothing when the ring buffer holds
    /// less than three seconds.
    pub fn energy_shortterm(&self) -> (r: Result<Option<u128>, MeterError>)
        requires
            wf(self@),
        ensures
            r is Ok,
            3 * self@.sample_rate > self@.audio_data_frames ==> r->Ok_0 is None,
            3 * self@.sample_rate <= self@.audio_data_frames ==> (r->Ok_0 matches Some(e) && e
                as int == spec_window_energy(self@, 3 * self@.sample_rate as int) && e
                <= ENERGY_LIMIT),
    {
        if self.sample_rate * 3 > self.audio_data_frames {
            return Ok(None);
        }
        match self.energy_in_interval(self.sample_rate * 3) {
            Ok(e) => Ok(Some(e)),
            Err(_) => {
                proof {
                    assert(false);
                }
                Ok(None)
            },
        }
    }

    /// The relative gate and the final average: sort the stored block
    /// energies, take the 90th-percentile block as loudness proxy, keep
    /// blocks within 8 dB of it (at most `block_count_limit` of them, from
    /// the loudest down), and convert the mean energy to LUFS.
    #[verifier::rlimit(60)]
    pub fn gated_loudness(&self, block_count_limit: Option<usize>) -> (r: Option<i64>)
        requires
            wf(self@),
        ensures
            r == spec_gated_loudness(
                self@.blocks,
                match block_count_limit {
                    Some(l) => l as int,
                    None => self@.blocks.len() as int,
                },
            ),
    {
        let n: usize = self.block_list.len();
        if n == 0 {
            return None;
        }
        let limit: usize = match block_count_limit {
            Some(l) => l,
            None => n,
        };
        let mut energies: Vec<u128> = Vec::new();
        let mut i: usize = 0;
        while i < n
            invariant
                i <= n,
                n == self.block_list@.len(),
                energies@.len() == i,
                forall|t: int| 0 <= t < i ==> energies@[t] == self@.blocks[t],
            decreases n - i,
        {
            let e: u128 = self.block_list[i].energy;
            energies.push(e);
            i = i + 1;
        }
        proof {
            assert(energies@ =~= self@.blocks);
            crate::sorting::lemma_sort_len(self@.blocks);
            crate::sorting::lemma_sort_bounds(self@.blocks, ABS_GATE_ENERGY, ENERGY_LIMIT);
        }
        let sorted: Vec<u128> = crate::sorting::sorted_energies(&energies);
        proof {
            crate::fixedpoint::lemma_div_le_num(n as int * 9, 10);
            vstd::arithmetic::div_mod::lemma_fundamental_div_mod_converse(
                10 * (n as int - 1) + 9,
                10,
                n as int - 1,
                9,
            );
            vstd::arithmetic::div_mod::lemma_div_is_ordered(
                n as int * 9,
                10 * (n as int - 1) + 9,
                10,
            );
        }
        let idx: usize = ((n as u128) * 9 / 10) as usize;
        let proxy: u128 = sorted[idx];
        let thresh: u128 = proxy * (crate::model::RELATIVE_GATE_FACTOR as u128) / (
        crate::fixedpoint::Q30 as u128);
        proof {
            crate::fixedpoint::lemma_div_le_num(
                proxy as int * (crate::model::RELATIVE_GATE_FACTOR as int),
                crate::fixedpoint::Q30 as int,
            );
        }
        let mut sum: u128 = 0;
        let mut count: usize = 0;
        let mut i2: usize = n;
        proof {
            assert(sorted@.subrange(0, n as int) =~= sorted@);
            lemma_gated_sum_bounds(sorted@, thresh as int, limit as int);
        }
        while i2 > 0 && count < limit
            invariant
                i2 <= n,
                n == sorted@.len(),
                n <= BLOCK_CAPACITY,
                count <= limit,
                forall|t: int|
                    0 <= t < sorted@.len() ==> ABS_GATE_ENERGY <= #[trigger] sorted@[t]
                        <= ENERGY_LIMIT,
                spec_gated_sum(sorted@, thresh as int, limit as int) == {
                    let p = spec_gated_sum(
                        sorted@.subrange(0, i2 as int),
                        thresh as int,
                        limit as int - count,
                    );
                    (p.0 + sum, p.1 + count)
                },
                sum as int + (i2 as int) * (ENERGY_LIMIT as int) <= (n as int) * (
                ENERGY_LIMIT as int),
            decreases i2,
        {
            proof {
                assert(sorted@.subrange(0, i2 as int).drop_last() =~= sorted@.subrange(
                    0,
                    i2 as int - 1,
                ));
                assert(sorted@.subrange(0, i2 as int).last() == sorted@[i2 as int - 1]);
                assert(((i2 as int - 1)) * (ENERGY_LIMIT as int) + (ENERGY_LIMIT as int) == (
                i2 as int) * (ENERGY_LIMIT as int)) by (nonlinear_arith);
            }
            i2 = i2 - 1;
            let e: u128 = sorted[i2];
            if e >= thresh {
                proof {
                    assert(sum as int + e as int <= (n as int) * (ENERGY_LIMIT as int)
                        && (n as int) * (ENERGY_LIMIT as int) <= 1000000000 * (
                    ENERGY_LIMIT as int)) by (nonlinear_arith)
                        requires
                            sum as int + (i2 as int + 1) * (ENERGY_LIMIT as int) <= (n as int) * (
                            ENERGY_LIMIT as int),
                            0 <= i2,
                            e as int <= ENERGY_LIMIT as int,
                            n <= 1000000000,
                            0 <= sum,
                    ;
                }
                sum = sum + e;
                count = count + 1;
            }
        }
        proof {
            if count < limit {
                assert(sorted@.subrange(0, 0) =~= Seq::<u128>::empty());
            }
            assert(spec_gated_sum(sorted@, thresh as int, limit as int) == (
            sum as int,
            count as int,
            ));
        }
        if count == 0 {
            return None;
        }
        proof {
            lemma_gated_sum_bounds(sorted@, thresh as int, limit as int);
            crate::fixedpoint::lemma_div_le_num(sum as int, count as int);
            vstd::arithmetic::div_mod::lemma_fundamental_div_mod(sum as int, count as int);
            assert(sum as int / count as int >= 1) by (nonlinear_arith)
                requires
                    sum as int >= count as int,
                    count as int >= 1,
                    sum as int == count as int * (sum as int / count as int) + (sum as int % (
                    count as int)),
                    0 <= sum as int % (count as int) < count as int,
            ;
        }
        let mean: u128 = sum / (count as u128);
        Some(Ebur128State::energy_to_loudness(mean))
    }

    /// Integrated loudness of the whole programme, in thousandths of a
    /// LUFS, when integrated mode is on and any block survived the gates.
    pub fn loudness_global(&self) -> (r: Option<i64>)
        requires
            wf(self@),
        ensures
            r == spec_loudness_global(self@),
    {
        if self.mode & EBUR128_MODE_I != EBUR128_MODE_I {
            return None;
        }
        self.gated_loudness(None)
    }

    /// Integrated loudness restricted to at most the number of blocks
    /// produced since the last segment reset.
    pub fn loudness_segment(&self) -> (r: Option<i64>)
        requires
            wf(self@),
        ensures
            r == spec_loudness_segment(self@),
    {
        if self.mode & EBUR128_MODE_I != EBUR128_MODE_I {
            return None;
        }
        self.gated_loudness(Some(self.block_counter))
    }

    /// Start a new measurement segment: block history, counters, ring
    /// buffer and filter memory are cleared; buffers keep their allocation.
    pub fn start_new_segment(&mut self)
        requires
            wf(old(self)@),
        ensures
            wf(final(self)@),
            final(self)@ == spec_reset(old(self)@),
            feed_wf(old(self)@) ==> feed_wf(final(self)@),
    {
        self.block_counter = 0;
        self.needed_frames = self.sample_rate / 5 * 2;
        self.audio_data_index = 0;
        self.short_term_frame_counter = 0;
        self.block_list.clear();
        self.short_term_block_list.clear();
        let ring_len: usize = self.audio_data.len();
        let mut i: usize = 0;
        while i < ring_len
            invariant
                i <= ring_len,
                ring_len == self@.audio_data.len(),
                self.audio_data@.len() == ring_len,
                forall|j: int| 0 <= j < i ==> self.audio_data@[j] == 0i64,
                forall|j: int|
                    i <= j < ring_len ==> self.audio_data@[j] == old(self).audio_data@[j],
                self.mode == old(self).mode,
                self.sample_rate == old(self).sample_rate,
                self.channels == old(self).channels,
                self.channel_map == old(self).channel_map,
                self.a == old(self).a,
                self.b == old(self).b,
                self.v == old(self).v,
                self.audio_data_frames == old(self).audio_data_frames,
                self.audio_data_index == 0,
                self.needed_frames == old(self).sample_rate / 5 * 2,
                self.block_list@.len() == 0,
                self.short_term_block_list@.len() == 0,
                self.block_counter == 0,
                self.short_term_frame_counter == 0,
            decreases ring_len - i,
        {
            self.audio_data[i] = 0;
            i = i + 1;
        }
        let channels: usize = self.channels;
        let mut c: usize = 0;
        while c < channels
            invariant
                c <= channels,
                channels == self.channels,
                self.v@.len() == channels,
                forall|k: int|
                    0 <= k < c ==> (#[trigger] self.v@[k])@ =~= Seq::new(5, |j: int| 0i64),
                forall|k: int| c <= k < channels ==> self.v@[k] == old(self).v@[k],
                self.mode == old(self).mode,
                self.sample_rate == old(self).sample_rate,
                self.channels == old(self).channels,
                self.channel_map == old(self).channel_map,
                self.a == old(self).a,
                self.b == old(self).b,
                self.audio_data@.len() == old(self).audio_data@.len(),
                forall|j: int| 0 <= j < self.audio_data@.len() ==> self.audio_data@[j] == 0i64,
                self.audio_data_frames == old(self).audio_data_frames,
                self.audio_data_index == 0,
                self.needed_frames == old(self).sample_rate / 5 * 2,
                self.block_list@.len() == 0,
                self.short_term_block_list@.len() == 0,
                self.block_counter == 0,
                self.short_term_frame_counter == 0,
            decreases channels - c,
        {
            let mut row: Vec<i64> = Vec::new();
            row.push(0);
            row.push(0);
            row.push(0);
            row.push(0);
            row.push(0);
            proof {
                assert(row@ =~= Seq::new(5, |j: int| 0i64));
            }
            self.v[c] = row;
            c = c + 1;
        }
        proof {
            assert(self@.audio_data =~= spec_reset(old(self)@).audio_data);
            assert(self@.v =~~= spec_reset(old(self)@).v);
            assert(self@.blocks =~= spec_reset(old(self)@).blocks);
            assert(self@.st_blocks =~= spec_reset(old(self)@).st_blocks);
            assert(self@ =~~= spec_reset(old(self)@));
            vstd::arithmetic::div_mod::lemma_div_basics(self@.channels as int);
            vstd::arithmetic::div_mod::lemma_mod_multiples_basic(0, self@.channels as int);
            if feed_wf(old(self)@) {
                let k = self@.sample_rate as int / 5;
                vstd::arithmetic::div_mod::lemma_div_is_ordered(5, self@.sample_rate as int, 5);
                vstd::arithmetic::div_mod::lemma_div_basics(5);
                vstd::arithmetic::div_mod::lemma_mod_multiples_basic(2, k);
                crate::fixedpoint::lemma_div_le_num(self@.sample_rate as int, 5);
                if crate::model::mode_has(self@.mode, EBUR128_MODE_LRA) {
                    vstd::arithmetic::div_mod::lemma_fundamental_div_mod(
                        self@.sample_rate as int,
                        5,
                    );
                    vstd::arithmetic::div_mod::lemma_mod_multiples_basic(13, k);
                    assert(3 * self@.sample_rate as int - 2 * k == 13 * k);
                }
            }
        }
    }
}

/// An immutable loudness snapshot handed to the host: loudness in
/// thousandths of a LUFS, stream parameters, duration in milliseconds, and
/// the derived linear gain in thousandths.
#[derive(Clone, Copy, Debug)]
pub struct AudioLoudnessInfo {
    pub lufs_milli: i64,
    pub sample_rate: u32,
    pub channels: u32,
    pub duration_millis: u64,
    pub target_scale_milli: u64,
}

impl AudioLoudnessInfo {
    /// Build a snapshot; the gain is derived from the loudness toward the
    /// -18 LUFS reference, or unity for an unusable measurement.
    pub fn new(
        lufs_milli: i64,
        sample_rate: usize,
        channels: usize,
        duration_millis: u64,
    ) -> (r: AudioLoudnessInfo)
        requires
            sample_rate <= u32::MAX,
            channels <= u32::MAX,
        ensures
            r.lufs_milli == lufs_milli,
            r.sample_rate == sample_rate,
            r.channels == channels,
            r.duration_millis == duration_millis,
            r.target_scale_milli as int == crate::loudness_math::spec_gain_milli(
                lufs_milli as int,
            ),
    {
        let target_scale_milli: u64 = Ebur128State::target_scale_milli(lufs_milli);
        AudioLoudnessInfo {
            lufs_milli,
            sample_rate: sample_rate as u32,
            channels: channels as u32,
            duration_millis,
            target_scale_milli,
        }
    }
}

} // verus!
