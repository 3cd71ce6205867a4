//! Session-level properties of the meter, stated over the model and proved
//! once and for all.

use vstd::prelude::*;
use crate::model::{MeterModel, wf, feed_wf, spec_feed, spec_partial_run, spec_trigger,
    spec_write_run, spec_reset, spec_init_model, frame_index, spec_window_energy,
    spec_block_frames, mode_has, ABS_GATE_ENERGY};
use crate::{EBUR128_MODE_I, EBUR128_MODE_LRA};
use crate::processing::{lemma_write_run_props, lemma_step_alignment, lemma_window_energy_bound,
    spec_loudness_global, spec_loudness_segment};
use crate::loudness_math::spec_gain_milli;

verus! {

/// The write cursor sits on a whole frame and a whole run ahead still fits
/// the ring.
proof fn lemma_run_fits(m: MeterModel, r: int)
    requires
        wf(m),
        0 <= r,
        frame_index(m) + r <= m.audio_data_frames,
    ensures
        m.audio_data_index + r * m.channels <= m.audio_data.len(),
{
    let ch = m.channels as int;
    vstd::arithmetic::div_mod::lemma_fundamental_div_mod(m.audio_data_index as int, ch);
    assert(ch * frame_index(m) + r * ch == ch * (frame_index(m) + r) && ch * (frame_index(m) + r)
        <= ch * (m.audio_data_frames as int) && ch * (m.audio_data_frames as int) == (
    m.audio_data_frames as int) * ch) by (nonlinear_arith)
        requires
            frame_index(m) + r <= m.audio_data_frames as int,
            ch >= 1,
            0 <= r,
    ;
}

/// Completing one block keeps the meter well formed.
proof fn lemma_step_wf(m: MeterModel, src: Seq<i64>, r: int)
    requires
        wf(m),
        feed_wf(m),
        r == m.needed_frames,
    ensures
        wf(spec_trigger(spec_partial_run(m, src, r))),
        ({
            let mt = spec_trigger(spec_partial_run(m, src, r));
            &&& mt.mode == m.mode
            &&& mt.sample_rate == m.sample_rate
            &&& mt.channels == m.channels
            &&& mt.channel_map == m.channel_map
            &&& mt.a == m.a
            &&& mt.b == m.b
            &&& mt.audio_data_frames == m.audio_data_frames
            &&& mt.audio_data.len() == m.audio_data.len()
        }),
{
    let ch = m.channels as int;
    lemma_run_fits(m, r);
    lemma_write_run_props(m, src, r);
    let m1 = spec_partial_run(m, src, r);
    assert(wf(m1));
    crate::fixedpoint::lemma_div_le_num(m.sample_rate as int, 5);
    vstd::arithmetic::div_mod::lemma_div_is_ordered(5, m.sample_rate as int, 5);
    vstd::arithmetic::div_mod::lemma_div_basics(5);
    if mode_has(m.mode, EBUR128_MODE_I) {
        lemma_window_energy_bound(m1, spec_block_frames(m1));
    }
    if mode_has(m.mode, EBUR128_MODE_LRA) && m1.short_term_frame_counter == 3 * m1.sample_rate && 3
        * m1.sample_rate <= m1.audio_data_frames {
        lemma_window_energy_bound(
            if mode_has(m.mode, EBUR128_MODE_I) {
                crate::model::spec_apply_gating_block(m1, spec_block_frames(m1))
            } else {
                m1
            },
            3 * m1.sample_rate as int,
        );
    }
    let mt = spec_trigger(m1);
    if mt.audio_data_index == 0 {
        vstd::arithmetic::div_mod::lemma_mod_multiples_basic(0, ch);
    }
    assert(wf(mt));
}

/// Feeding preserves well-formedness and alignment, and never changes the
/// meter's configuration.
pub proof fn lemma_feed_preserves(m: MeterModel, src: Seq<i64>, frames: int)
    requires
        wf(m),
        feed_wf(m),
        0 <= frames,
    ensures
        wf(spec_feed(m, src, frames)),
        feed_wf(spec_feed(m, src, frames)),
        ({
            let mf = spec_feed(m, src, frames);
            &&& mf.mode == m.mode
            &&& mf.sample_rate == m.sample_rate
            &&& mf.channels == m.channels
            &&& mf.channel_map == m.channel_map
            &&& mf.a == m.a
            &&& mf.b == m.b
            &&& mf.audio_data_frames == m.audio_data_frames
            &&& mf.audio_data.len() == m.audio_data.len()
        }),
    decreases frames,
{
    if frames <= 0 || m.needed_frames == 0 {
    } else if frames >= m.needed_frames {
        let r = m.needed_frames as int;
        lemma_step_wf(m, src, r);
        lemma_step_alignment(m, src, r);
        lemma_feed_preserves(
            spec_trigger(spec_partial_run(m, src, r)),
            src.skip(r * m.channels as int),
            frames - r,
        );
    } else {
        lemma_run_fits(m, frames);
        lemma_write_run_props(m, src, frames);
        vstd::arithmetic::div_mod::lemma_hoist_over_denominator(
            m.audio_data_index as int,
            frames,
            m.channels as nat,
        );
        assert(m.audio_data_index as int + frames * (m.channels as int) == m.audio_data_index as int
            + frames * m.channels) by (nonlinear_arith);
    }
}

/// Writing frames reads nothing but the filter state, the ring and the
/// cursor: two models that agree there write alike.
proof fn lemma_write_channels_congruent(m1: MeterModel, m2: MeterModel, frame: Seq<i64>, cnt: int)
    requires
        m1.v == m2.v,
        m1.audio_data == m2.audio_data,
        m1.audio_data_index == m2.audio_data_index,
        m1.a == m2.a,
        m1.b == m2.b,
        m1.channel_map == m2.channel_map,
        m1.channels == m2.channels,
    ensures
        crate::model::spec_write_channels(m1, frame, cnt).v == crate::model::spec_write_channels(
            m2,
            frame,
            cnt,
        ).v,
        crate::model::spec_write_channels(m1, frame, cnt).audio_data
            == crate::model::spec_write_channels(m2, frame, cnt).audio_data,
        crate::model::spec_write_channels(m1, frame, cnt).audio_data_index
            == crate::model::spec_write_channels(m2, frame, cnt).audio_data_index,
    decreases cnt,
{
    if cnt <= 0 {
    } else {
        lemma_write_channels_congruent(m1, m2, frame, cnt - 1);
        lemma_write_channels_same_rest(m1, frame, cnt - 1);
        lemma_write_channels_same_rest(m2, frame, cnt - 1);
    }
}

/// A channel pass only touches the filter state and the ring.
proof fn lemma_write_channels_same_rest(m: MeterModel, frame: Seq<i64>, cnt: int)
    ensures
        ({
            let m1 = crate::model::spec_write_channels(m, frame, cnt);
            m1 == (MeterModel { v: m1.v, audio_data: m1.audio_data, ..m })
        }),
    decreases cnt,
{
    if cnt <= 0 {
    } else {
        lemma_write_channels_same_rest(m, frame, cnt - 1);
    }
}

/// A run only touches the filter state, the ring and the cursor.
proof fn lemma_write_run_same_rest(m: MeterModel, src: Seq<i64>, frames: int)
    ensures
        ({
            let m1 = spec_write_run(m, src, frames);
            m1 == (MeterModel {
                v: m1.v,
                audio_data: m1.audio_data,
                audio_data_index: m1.audio_data_index,
                ..m
            })
        }),
    decreases frames,
{
    if frames <= 0 {
    } else {
        lemma_write_run_same_rest(m, src, frames - 1);
        lemma_write_channels_same_rest(
            spec_write_run(m, src, frames - 1),
            crate::model::frame_of(src, m.channels as int, frames - 1),
            m.channels as int,
        );
    }
}

proof fn lemma_write_run_congruent(m1: MeterModel, m2: MeterModel, src: Seq<i64>, frames: int)
    requires
        m1.v == m2.v,
        m1.audio_data == m2.audio_data,
        m1.audio_data_index == m2.audio_data_index,
        m1.a == m2.a,
        m1.b == m2.b,
        m1.channel_map == m2.channel_map,
        m1.channels == m2.channels,
    ensures
        spec_write_run(m1, src, frames).v == spec_write_run(m2, src, frames).v,
        spec_write_run(m1, src, frames).audio_data == spec_write_run(m2, src, frames).audio_data,
        spec_write_run(m1, src, frames).audio_data_index == spec_write_run(
            m2,
            src,
            frames,
        ).audio_data_index,
    decreases frames,
{
    if frames <= 0 {
    } else {
        lemma_write_run_congruent(m1, m2, src, frames - 1);
        let p1 = spec_write_run(m1, src, frames - 1);
        let p2 = spec_write_run(m2, src, frames - 1);
        lemma_write_run_same_rest(m1, src, frames - 1);
        lemma_write_run_same_rest(m2, src, frames - 1);
        let fr = crate::model::frame_of(src, m1.channels as int, frames - 1);
        lemma_write_channels_congruent(p1, p2, fr, p1.channels as int);
        lemma_write_channels_same_rest(p1, fr, p1.channels as int);
        lemma_write_channels_same_rest(p2, fr, p2.channels as int);
    }
}

/// Writing `fa + fb` frames is writing `fa`, then `fb` from the rest of
/// the input.
proof fn lemma_write_run_compose(m: MeterModel, src: Seq<i64>, fa: int, fb: int)
    requires
        0 <= fa,
        0 <= fb,
        (fa + fb) * m.channels <= src.len(),
        1 <= m.channels,
    ensures
        spec_write_run(m, src, fa + fb) == spec_write_run(
            spec_write_run(m, src, fa),
            src.skip(fa * m.channels as int),
            fb,
        ),
    decreases fb,
{
    let ch = m.channels as int;
    let wa = spec_write_run(m, src, fa);
    lemma_write_run_same_rest(m, src, fa);
    if fb == 0 {
    } else {
        assert((fa + fb - 1) * ch <= (fa + fb) * ch && 0 <= (fb - 1) * ch && (fb - 1) * ch + fa
            * ch == (fa + fb - 1) * ch && (fb - 1 + 1) * ch + fa * ch == (fa + fb - 1 + 1) * ch
            && (fa + fb) * ch == fa * ch + fb * ch && 0 <= fa * ch) by (nonlinear_arith)
            requires
                0 <= fa,
                1 <= fb,
                1 <= ch,
        ;
        lemma_write_run_compose(m, src, fa, fb - 1);
        lemma_write_run_same_rest(m, src, fa + fb - 1);
        lemma_write_run_same_rest(wa, src.skip(fa * ch), fb - 1);
        assert(crate::model::frame_of(src.skip(fa * ch), ch, fb - 1) =~= crate::model::frame_of(
            src,
            ch,
            fa + fb - 1,
        ));
    }
}

/// Feeding frames in any chunking yields the same final state: feeding a
/// block of frames and then another is feeding their concatenation.
pub proof fn lemma_feed_chunk_invariant(m: MeterModel, src: Seq<i64>, fa: int, fb: int)
    requires
        wf(m),
        feed_wf(m),
        0 <= fa,
        0 <= fb,
        (fa + fb) * m.channels <= src.len(),
    ensures
        spec_feed(m, src, fa + fb) == spec_feed(
            spec_feed(m, src, fa),
            src.skip(fa * m.channels as int),
            fb,
        ),
    decreases fa,
{
    let ch = m.channels as int;
    let d = m.needed_frames as int;
    if fa == 0 {
        assert(src.skip(0) =~= src);
    } else if fa >= d {
        let m1 = spec_trigger(spec_partial_run(m, src, d));
        lemma_step_wf(m, src, d);
        lemma_step_alignment(m, src, d);
        assert(0 <= d * ch && d * ch <= (fa + fb) * ch && d * ch + (fa - d) * ch == fa * ch && (fa
            - d + fb) * ch == (fa + fb) * ch - d * ch && 0 <= (fa - d) * ch && fa * ch <= (fa + fb)
            * ch && 0 <= fa * ch) by (nonlinear_arith)
            requires
                0 < d <= fa,
                0 <= fb,
                1 <= ch,
        ;
        lemma_feed_chunk_invariant(m1, src.skip(d * ch), fa - d, fb);
        assert(src.skip(d * ch).skip((fa - d) * ch) =~= src.skip(fa * ch));
    } else {
        lemma_partial_partial(m, src, fa, fb, d);
    }
}

/// Composition of two partial runs, covering both the case where the
/// second chunk still does not finish the window and the case where it
/// does.
proof fn lemma_partial_partial(m: MeterModel, src: Seq<i64>, fa: int, fb: int, d: int)
    requires
        wf(m),
        feed_wf(m),
        d == m.needed_frames,
        0 < fa < d,
        0 <= fb,
        (fa + fb) * m.channels <= src.len(),
    ensures
        spec_feed(m, src, fa + fb) == spec_feed(
            spec_feed(m, src, fa),
            src.skip(fa * m.channels as int),
            fb,
        ),
{
    let ch = m.channels as int;
    let mp = spec_partial_run(m, src, fa);
    assert(spec_feed(m, src, fa) == mp);
    lemma_write_run_same_rest(m, src, fa);
    if fb == 0 {
        assert(spec_feed(mp, src.skip(fa * ch), 0) == mp);
    } else {
        let r2 = if fa + fb < d {
            fb
        } else {
            d - fa
        };
        assert(0 <= fa * ch && (fa + r2) * ch <= (fa + fb) * ch && fa * ch + r2 * ch == (fa + r2)
            * ch && r2 * ch == (fa + r2) * ch - fa * ch) by (nonlinear_arith)
            requires
                0 < fa,
                0 < r2 <= fb,
                1 <= ch,
        ;
        lemma_write_run_compose(m, src, fa, r2);
        let wa = spec_write_run(m, src, fa);
        lemma_write_run_congruent(mp, wa, src.skip(fa * ch), r2);
        lemma_write_run_same_rest(wa, src.skip(fa * ch), r2);
        lemma_write_run_same_rest(mp, src.skip(fa * ch), r2);
        lemma_write_run_same_rest(m, src, fa + r2);
        if mode_has(m.mode, EBUR128_MODE_LRA) {
            assert(m.short_term_frame_counter + fa + r2 <= 3 * m.sample_rate);
        }
        assert(spec_partial_run(mp, src.skip(fa * ch), r2) =~~= spec_partial_run(
            m,
            src,
            fa + r2,
        ));
        if fa + fb < d {
            assert(spec_feed(mp, src.skip(fa * ch), fb) == spec_partial_run(
                mp,
                src.skip(fa * ch),
                fb,
            ));
            assert(spec_feed(m, src, fa + fb) == spec_partial_run(m, src, fa + fb));
        } else {
            let m1 = spec_trigger(spec_partial_run(m, src, d));
            assert(spec_feed(m, src, fa + fb) == spec_feed(m1, src.skip(d * ch), fa + fb - d));
            assert(mp.needed_frames == d - fa);
            assert(spec_feed(mp, src.skip(fa * ch), fb) == spec_feed(
                spec_trigger(spec_partial_run(mp, src.skip(fa * ch), r2)),
                src.skip(fa * ch).skip(r2 * ch),
                fb - r2,
            ));
            assert(src.skip(fa * ch).skip(r2 * ch) =~= src.skip(d * ch)) by {
                assert(fa * ch + r2 * ch == d * ch) by (nonlinear_arith)
                    requires
                        r2 == d - fa,
                ;
            }
            assert(spec_trigger(spec_partial_run(mp, src.skip(fa * ch), r2)) == m1);
        }
    }
}

/// Digital silence never clears the absolute gate: a meter in its freshly
/// constructed (or freshly reset) state that is fed only zero samples
/// stores no gating block, so integrated loudness stays unavailable.
pub proof fn lemma_silence_unavailable(m: MeterModel, src: Seq<i64>, frames: int)
    requires
        wf(m),
        feed_wf(m),
        0 <= frames,
        frames * m.channels <= src.len(),
        m.blocks.len() == 0,
        forall|i: int| 0 <= i < m.audio_data.len() ==> m.audio_data[i] == 0i64,
        forall|c: int, j: int| 0 <= c < m.v.len() && 0 <= j < 5 ==> m.v[c][j] == 0i64,
        forall|i: int| 0 <= i < src.len() ==> src[i] == 0i64,
    ensures
        spec_feed(m, src, frames).blocks.len() == 0,
        spec_loudness_global(spec_feed(m, src, frames)) is None,
    decreases frames,
{
    let ch = m.channels as int;
    if frames <= 0 || m.needed_frames == 0 {
    } else {
        let r = if frames >= m.needed_frames {
            m.needed_frames as int
        } else {
            frames
        };
        assert(r * ch <= frames * ch && 0 <= r * ch) by (nonlinear_arith)
            requires
                0 < r <= frames,
                1 <= ch,
        ;
        lemma_run_fits(m, r);
        lemma_write_run_props(m, src, r);
        lemma_zero_write_run(m, src, r);
        let m1 = spec_partial_run(m, src, r);
        if frames >= m.needed_frames {
            lemma_step_wf(m, src, r);
            lemma_step_alignment(m, src, r);
            let mt = spec_trigger(m1);
            if mode_has(m.mode, EBUR128_MODE_I) {
                crate::fixedpoint::lemma_div_le_num(m.sample_rate as int, 5);
                vstd::arithmetic::div_mod::lemma_div_is_ordered(5, m.sample_rate as int, 5);
                vstd::arithmetic::div_mod::lemma_div_basics(5);
                crate::fixedpoint::lemma_div_le_num(
                    m1.audio_data_index as int,
                    m1.channels as int,
                );
                vstd::arithmetic::div_mod::lemma_div_is_ordered(
                    m1.audio_data_index as int,
                    m1.audio_data.len() as int,
                    m1.channels as int,
                );
                vstd::arithmetic::div_mod::lemma_div_multiples_vanish(
                    m1.audio_data_frames as int,
                    m1.channels as int,
                );
                assert(m1.channels as int * m1.audio_data_frames as int
                    == m1.audio_data_frames as int * m1.channels as int) by (nonlinear_arith);
                lemma_zero_window_total(m1, spec_block_frames(m1), m1.channels as int);
                crate::fixedpoint::lemma_div_le_num(0, spec_block_frames(m1));
                assert(spec_window_energy(m1, spec_block_frames(m1)) < ABS_GATE_ENERGY);
            }
            assert(mt.blocks.len() == 0);
            assert forall|i: int| 0 <= i < src.skip(r * ch).len() implies #[trigger] (src.skip(
                r * ch,
            )[i]) == 0i64 by {
                assert(src.skip(r * ch)[i] == src[i + r * ch]);
            }
            assert((frames - r) * ch == frames * ch - r * ch) by (nonlinear_arith);
            lemma_silence_unavailable(mt, src.skip(r * ch), frames - r);
        }
    }
}

/// Filtering silence writes silence and leaves the filter memory at rest.
proof fn lemma_zero_write_channels(m: MeterModel, frame: Seq<i64>, cnt: int)
    requires
        wf(m),
        m.audio_data_index + m.channels <= m.audio_data.len(),
        0 <= cnt <= m.channels,
        forall|i: int| 0 <= i < m.audio_data.len() ==> m.audio_data[i] == 0i64,
        forall|c: int, j: int| 0 <= c < m.v.len() && 0 <= j < 5 ==> m.v[c][j] == 0i64,
        forall|i: int| 0 <= i < frame.len() ==> frame[i] == 0i64,
        frame.len() == m.channels,
    ensures
        ({
            let m1 = crate::model::spec_write_channels(m, frame, cnt);
            &&& forall|i: int| 0 <= i < m1.audio_data.len() ==> m1.audio_data[i] == 0i64
            &&& forall|c: int, j: int| 0 <= c < m1.v.len() && 0 <= j < 5 ==> m1.v[c][j] == 0i64
        }),
    decreases cnt,
{
    crate::processing::lemma_write_channels_props(m, frame, cnt);
    if cnt <= 0 {
    } else {
        lemma_zero_write_channels(m, frame, cnt - 1);
        crate::processing::lemma_write_channels_props(m, frame, cnt - 1);
        vstd::arithmetic::div_mod::lemma_div_basics(crate::fixedpoint::Q30 as int);
        let mp = crate::model::spec_write_channels(m, frame, cnt - 1);
        let c = cnt - 1;
        if m.channel_map[c] != crate::EBUR128_UNUSED {
            assert(frame[c] == 0i64);
            assert(mp.v[c][1] == 0i64 && mp.v[c][2] == 0i64 && mp.v[c][3] == 0i64 && mp.v[c][4]
                == 0i64);
            assert(crate::model::spec_filter_feedback(m.a, mp.v[c]) == 0);
            let v0 = crate::model::spec_filter_v0(m.a, mp.v[c], frame[c]);
            assert(v0 == 0i64);
            assert(crate::model::spec_filter_output_sum(m.b, v0, mp.v[c]) == 0) by {
                assert(m.b[0] * v0 == 0 && m.b[1] * mp.v[c][1] == 0 && m.b[2] * mp.v[c][2] == 0
                    && m.b[3] * mp.v[c][3] == 0 && m.b[4] * mp.v[c][4] == 0) by (nonlinear_arith)
                    requires
                        v0 == 0i64,
                        mp.v[c][1] == 0i64,
                        mp.v[c][2] == 0i64,
                        mp.v[c][3] == 0i64,
                        mp.v[c][4] == 0i64,
                ;
            }
            let out = crate::model::spec_filter_out(m.b, v0, mp.v[c]);
            assert(out == 0i64);
        }
    }
}

proof fn lemma_zero_write_run(m: MeterModel, src: Seq<i64>, frames: int)
    requires
        wf(m),
        0 <= frames,
        frames * m.channels <= src.len(),
        m.audio_data_index + frames * m.channels <= m.audio_data.len(),
        forall|i: int| 0 <= i < m.audio_data.len() ==> m.audio_data[i] == 0i64,
        forall|c: int, j: int| 0 <= c < m.v.len() && 0 <= j < 5 ==> m.v[c][j] == 0i64,
        forall|i: int| 0 <= i < src.len() ==> src[i] == 0i64,
    ensures
        ({
            let m1 = spec_write_run(m, src, frames);
            &&& forall|i: int| 0 <= i < m1.audio_data.len() ==> m1.audio_data[i] == 0i64
            &&& forall|c: int, j: int| 0 <= c < m1.v.len() && 0 <= j < 5 ==> m1.v[c][j] == 0i64
        }),
    decreases frames,
{
    if frames <= 0 {
    } else {
        assert((frames - 1) * m.channels as int + m.channels as int == frames
            * m.channels as int && 0 <= (frames - 1) * (m.channels as int)) by (nonlinear_arith)
            requires
                1 <= frames,
                1 <= m.channels as int,
        ;
        lemma_zero_write_run(m, src, frames - 1);
        lemma_write_run_props(m, src, frames - 1);
        let mp = spec_write_run(m, src, frames - 1);
        let fr = crate::model::frame_of(src, m.channels as int, frames - 1);
        assert(fr.len() == m.channels as int);
        assert forall|i: int| 0 <= i < fr.len() implies #[trigger] fr[i] == 0i64 by {
            assert(fr[i] == src[(frames - 1) * (m.channels as int) + i]);
        }
        lemma_write_run_same_rest(m, src, frames - 1);
        lemma_zero_write_channels(mp, fr, mp.channels as int);
        lemma_write_channels_same_rest(mp, fr, mp.channels as int);
    }
}

/// A window of silence has zero weighted energy.
proof fn lemma_zero_window_total(m: MeterModel, fpb: int, cnt: int)
    requires
        wf(m),
        forall|i: int| 0 <= i < m.audio_data.len() ==> m.audio_data[i] == 0i64,
        0 <= cnt <= m.channels,
        1 <= fpb <= m.audio_data_frames,
        0 <= frame_index(m) <= m.audio_data_frames,
    ensures
        crate::model::spec_window_total(m, fpb, cnt) == 0,
    decreases cnt,
{
    if cnt <= 0 {
    } else {
        lemma_zero_window_total(m, fpb, cnt - 1);
        if m.channel_map[cnt - 1] != crate::EBUR128_UNUSED {
            let fi = frame_index(m);
            if fi >= fpb {
                lemma_zero_chan_range(
                    m.audio_data,
                    m.audio_data_frames as int,
                    m.channels as int,
                    cnt - 1,
                    fi - fpb,
                    fpb,
                );
            } else {
                lemma_zero_chan_range(
                    m.audio_data,
                    m.audio_data_frames as int,
                    m.channels as int,
                    cnt - 1,
                    0,
                    fi,
                );
                lemma_zero_chan_range(
                    m.audio_data,
                    m.audio_data_frames as int,
                    m.channels as int,
                    cnt - 1,
                    m.audio_data_frames as int - (fpb - fi),
                    fpb - fi,
                );
            }
            vstd::arithmetic::div_mod::lemma_div_basics(100);
        }
    }
}

proof fn lemma_zero_chan_range(
    ring: Seq<i64>,
    frames_cap: int,
    channels: int,
    c: int,
    start: int,
    count: int,
)
    requires
        forall|i: int| 0 <= i < ring.len() ==> ring[i] == 0i64,
        ring.len() == frames_cap * channels,
        1 <= channels,
        0 <= c < channels,
        0 <= start,
        start + count <= frames_cap,
    ensures
        crate::model::spec_chan_sum_range(ring, channels, c, start, count) == 0,
    decreases count,
{
    if count <= 0 {
    } else {
        lemma_zero_chan_range(ring, frames_cap, channels, c, start, count - 1);
        assert(0 <= (start + count - 1) * channels + c < frames_cap * channels) by (
        nonlinear_arith)
            requires
                0 <= start + count - 1 < frames_cap,
                0 <= c < channels,
                1 <= channels,
        ;
        assert(ring[(start + count - 1) * channels + c] == 0i64);
    }
}

/// Gain derivation is a pure function of construction and input: two
/// meters built alike and fed alike derive the same gain.
pub proof fn lemma_gain_rederivation(
    m1: MeterModel,
    m2: MeterModel,
    src: Seq<i64>,
    frames: int,
    fallback: i64,
)
    requires
        m1 == m2,
    ensures
        ({
            let l1 = spec_loudness_global(spec_feed(m1, src, frames));
            let l2 = spec_loudness_global(spec_feed(m2, src, frames));
            &&& l1 == l2
            &&& spec_gain_milli(
                match l1 {
                    Some(l) => l as int,
                    None => fallback as int,
                },
            ) == spec_gain_milli(
                match l2 {
                    Some(l) => l as int,
                    None => fallback as int,
                },
            )
        }),
{
}

/// A fresh segment is exactly a fresh meter: resetting after feeding puts
/// the session in its initial state, so replaying the same frames
/// reproduces the prior segment's loudness.
pub proof fn lemma_reset_replay(
    channels: usize,
    sample_rate: usize,
    mode: usize,
    a: Seq<i64>,
    b: Seq<i64>,
    src: Seq<i64>,
    frames: int,
)
    requires
        wf(spec_init_model(channels, sample_rate, mode, a, b)),
        feed_wf(spec_init_model(channels, sample_rate, mode, a, b)),
        0 <= frames,
    ensures
        ({
            let m0 = spec_init_model(channels, sample_rate, mode, a, b);
            let m1 = spec_feed(m0, src, frames);
            &&& spec_reset(m1) == m0
            &&& spec_loudness_segment(spec_feed(spec_reset(m1), src, frames))
                == spec_loudness_segment(m1)
        }),
{
    let m0 = spec_init_model(channels, sample_rate, mode, a, b);
    let m1 = spec_feed(m0, src, frames);
    lemma_feed_preserves(m0, src, frames);
    assert(spec_reset(m1).audio_data =~= m0.audio_data);
    assert(spec_reset(m1) =~~= m0);
}

/// A surround role contributes the 1.41 weight: with identical ring
/// contents, the weighted sum of a channel whose role is surround is the
/// plain sum scaled by 141/100, where a front role contributes the plain
/// sum itself.
pub proof fn lemma_surround_weighting(m: MeterModel, fpb: int, c: int)
    requires
        0 <= c < m.channels,
        m.channel_map[c] == crate::EBUR128_LEFT_SURROUND || m.channel_map[c]
            == crate::EBUR128_RIGHT_SURROUND,
    ensures
        ({
            let plain = crate::model::spec_chan_window_sum(
                m.audio_data,
                m.audio_data_frames as int,
                m.channels as int,
                c,
                frame_index(m),
                fpb,
            );
            crate::model::spec_window_total(m, fpb, c + 1) == crate::model::spec_window_total(
                m,
                fpb,
                c,
            ) + (plain * 141) / 100
        }),
{
}

} // verus!
