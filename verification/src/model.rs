//! The mathematical model of the meter.
//!
//! Every public operation of [`crate::Ebur128State`] is specified against a
//! `MeterModel`, a ghost image of the meter's state.  Feeding audio is
//! modelled by [`spec_feed`], which consumes input greedily in runs that end
//! at gating-block boundaries; a run writes filtered samples into the ring
//! buffer and a completed block is evaluated by [`spec_trigger`].

use vstd::prelude::*;
use crate::fixedpoint::{Q30, V_CLAMP, OUT_CLAMP, spec_tdiv, spec_clamp};
use crate::{EBUR128_UNUSED, EBUR128_LEFT_SURROUND, EBUR128_RIGHT_SURROUND, EBUR128_MODE_I,
    EBUR128_MODE_S, EBUR128_MODE_M, EBUR128_MODE_LRA, EBUR128_LEFT, EBUR128_RIGHT, EBUR128_CENTER};

verus! {

/// Energy equivalent of -70 LUFS in Q60: blocks quieter than this never pass
/// the absolute gate.
pub const ABS_GATE_ENERGY: u128 = 135176046306;

/// Largest block energy the meter can produce (Q60).
pub const ENERGY_LIMIT: u128 = 9903520314283042199192993792;

/// Hard cap on how many gating blocks a session stores.
pub const BLOCK_CAPACITY: usize = 1000000000;

/// `10^(-8/10)` in Q30: the -8 dB factor of the relative gate.
pub const RELATIVE_GATE_FACTOR: u64 = 170176611;

#[verifier::ext_equal]
pub struct MeterModel {
    pub mode: usize,
    pub sample_rate: usize,
    pub channels: usize,
    pub channel_map: Seq<i32>,
    pub a: Seq<i64>,
    pub b: Seq<i64>,
    pub v: Seq<Seq<i64>>,
    pub audio_data: Seq<i64>,
    pub audio_data_frames: usize,
    pub audio_data_index: usize,
    pub needed_frames: usize,
    pub blocks: Seq<u128>,
    pub st_blocks: Seq<u128>,
    pub block_counter: usize,
    pub short_term_frame_counter: usize,
}

pub open spec fn mode_has(mode: usize, bits: usize) -> bool {
    mode & bits == bits
}

/// At least one measurement must be selected for a meter to be usable.
pub open spec fn spec_mode_valid(mode: usize) -> bool {
    ||| mode_has(mode, EBUR128_MODE_I)
    ||| mode_has(mode, EBUR128_MODE_S)
    ||| mode_has(mode, EBUR128_MODE_M)
}

/// Ring-buffer capacity in frames: three seconds when short-term analysis is
/// on, otherwise one 400 ms window.
pub open spec fn spec_frames_cap(mode: usize, sample_rate: usize) -> int {
    if mode_has(mode, EBUR128_MODE_S) {
        3 * sample_rate
    } else {
        2 * (sample_rate as int / 5)
    }
}

/// 200 ms worth of frames: the step between gating blocks.
pub open spec fn blocksize(m: MeterModel) -> int {
    m.sample_rate as int / 5
}

/// 400 ms worth of frames: the length of a gating block window.
pub open spec fn spec_block_frames(m: MeterModel) -> int {
    2 * blocksize(m)
}

/// Position of the write cursor in frames.
pub open spec fn frame_index(m: MeterModel) -> int {
    m.audio_data_index as int / m.channels as int
}

pub open spec fn coef_seq_ok(s: Seq<i64>) -> bool {
    &&& s.len() == 5
    &&& forall|i: int| 0 <= i < 5 ==> -crate::fixedpoint::COEF_LIMIT <= #[trigger] s[i]
        <= crate::fixedpoint::COEF_LIMIT
}

pub open spec fn v_row_ok(s: Seq<i64>) -> bool {
    &&& s.len() == 5
    &&& forall|i: int| 0 <= i < 5 ==> -V_CLAMP <= #[trigger] s[i] <= V_CLAMP
}

/// Structural well-formedness: established at construction and preserved by
/// every operation.
pub open spec fn wf(m: MeterModel) -> bool {
    &&& 1 <= m.channels <= 65535
    &&& 1 <= m.sample_rate <= 0x40000000
    &&& m.channel_map.len() == m.channels
    &&& coef_seq_ok(m.a)
    &&& coef_seq_ok(m.b)
    &&& m.v.len() == m.channels
    &&& forall|c: int| 0 <= c < m.channels ==> v_row_ok(#[trigger] m.v[c])
    &&& m.audio_data_frames == spec_frames_cap(m.mode, m.sample_rate)
    &&& m.audio_data.len() == m.audio_data_frames * m.channels
    &&& m.audio_data.len() <= usize::MAX
    &&& forall|i: int|
        0 <= i < m.audio_data.len() ==> -OUT_CLAMP <= #[trigger] m.audio_data[i] <= OUT_CLAMP
    &&& m.audio_data_index <= m.audio_data.len()
    &&& m.audio_data_index as int % (m.channels as int) == 0
    &&& m.blocks.len() <= BLOCK_CAPACITY
    &&& forall|i: int|
        0 <= i < m.blocks.len() ==> ABS_GATE_ENERGY <= #[trigger] m.blocks[i] <= ENERGY_LIMIT
    &&& m.st_blocks.len() <= BLOCK_CAPACITY
    &&& forall|i: int| 0 <= i < m.st_blocks.len() ==> #[trigger] m.st_blocks[i] <= ENERGY_LIMIT
    &&& m.block_counter <= m.blocks.len()
}

/// The alignment a meter needs before frames may be fed: block steps must
/// tile the ring buffer exactly, and with loudness-range tracking on, the
/// short-term cadence must land exactly on three-second marks.
pub open spec fn feed_wf(m: MeterModel) -> bool {
    &&& m.sample_rate >= 5
    &&& m.audio_data_frames as int % blocksize(m) == 0
    &&& 1 <= m.needed_frames
    &&& frame_index(m) + m.needed_frames <= m.audio_data_frames
    &&& (frame_index(m) + m.needed_frames) % blocksize(m) == 0
    &&& mode_has(m.mode, EBUR128_MODE_LRA) ==> {
        &&& m.sample_rate % 5 == 0
        &&& m.short_term_frame_counter + m.needed_frames <= 3 * m.sample_rate
        &&& (3 * m.sample_rate - m.short_term_frame_counter - m.needed_frames) % blocksize(m) == 0
    }
}

/// The default assignment of roles to channel indices.
pub open spec fn spec_default_role(i: int) -> i32 {
    if i == 0 {
        EBUR128_LEFT
    } else if i == 1 {
        EBUR128_RIGHT
    } else if i == 2 {
        EBUR128_CENTER
    } else if i == 4 {
        EBUR128_LEFT_SURROUND
    } else if i == 5 {
        EBUR128_RIGHT_SURROUND
    } else {
        EBUR128_UNUSED
    }
}

pub open spec fn spec_zero_v(channels: int) -> Seq<Seq<i64>> {
    Seq::new(channels as nat, |c: int| Seq::new(5, |j: int| 0i64))
}

/// The state of a freshly constructed meter with the given coefficients.
pub open spec fn spec_init_model(
    channels: usize,
    sample_rate: usize,
    mode: usize,
    a: Seq<i64>,
    b: Seq<i64>,
) -> MeterModel {
    MeterModel {
        mode,
        sample_rate,
        channels,
        channel_map: Seq::new(channels as nat, |i: int| spec_default_role(i)),
        a,
        b,
        v: spec_zero_v(channels as int),
        audio_data: Seq::new((spec_frames_cap(mode, sample_rate) * channels) as nat, |i: int| 0i64),
        audio_data_frames: spec_frames_cap(mode, sample_rate) as usize,
        audio_data_index: 0,
        needed_frames: (2 * (sample_rate as int / 5)) as usize,
        blocks: Seq::empty(),
        st_blocks: Seq::empty(),
        block_counter: 0,
        short_term_frame_counter: 0,
    }
}

/// Starting a new segment: block history, counters, the ring buffer and the
/// filter memory are cleared; configuration and allocation are kept.
pub open spec fn spec_reset(m: MeterModel) -> MeterModel {
    MeterModel {
        block_counter: 0,
        needed_frames: (2 * (m.sample_rate as int / 5)) as usize,
        audio_data_index: 0,
        audio_data: Seq::new(m.audio_data.len(), |i: int| 0i64),
        short_term_frame_counter: 0,
        v: spec_zero_v(m.channels as int),
        blocks: Seq::empty(),
        st_blocks: Seq::empty(),
        ..m
    }
}

// ---------------------------------------------------------------------------
// The K-weighting filter, one sample at a time.
// ---------------------------------------------------------------------------

/// Feedback part of the direct-form-II recursion (a Q60 value).
pub open spec fn spec_filter_feedback(a: Seq<i64>, v: Seq<i64>) -> int {
    a[1] * v[1] + a[2] * v[2] + a[3] * v[3] + a[4] * v[4]
}

/// Feedforward part of the recursion (a Q60 value).
pub open spec fn spec_filter_output_sum(b: Seq<i64>, v0: i64, v: Seq<i64>) -> int {
    b[0] * v0 + b[1] * v[1] + b[2] * v[2] + b[3] * v[3] + b[4] * v[4]
}

/// The new first state slot for input sample `x`.
pub open spec fn spec_filter_v0(a: Seq<i64>, v: Seq<i64>, x: i64) -> i64 {
    spec_clamp(x - spec_tdiv(spec_filter_feedback(a, v), Q30 as int), V_CLAMP as int) as i64
}

/// The weighted output sample produced alongside `v0`.
pub open spec fn spec_filter_out(b: Seq<i64>, v0: i64, v: Seq<i64>) -> i64 {
    spec_clamp(spec_tdiv(spec_filter_output_sum(b, v0, v), Q30 as int), OUT_CLAMP as int) as i64
}

/// History shift: the most recent state value moves to the front.
pub open spec fn spec_filter_shift(v: Seq<i64>, v0: i64) -> Seq<i64> {
    seq![v0, v0, v[1], v[2], v[3]]
}

// ---------------------------------------------------------------------------
// Writing frames into the ring buffer.
// ---------------------------------------------------------------------------

/// Interleaved samples of frame `j`.
pub open spec fn frame_of(src: Seq<i64>, channels: int, j: int) -> Seq<i64> {
    src.subrange(j * channels, (j + 1) * channels)
}

/// Filter and store the first `cnt` channels of one frame; channels whose
/// role is unused are skipped and their ring slots keep their old value.
pub open spec fn spec_write_channels(m: MeterModel, frame: Seq<i64>, cnt: int) -> MeterModel
    decreases cnt,
{
    if cnt <= 0 {
        m
    } else {
        let m1 = spec_write_channels(m, frame, cnt - 1);
        let c = cnt - 1;
        if m.channel_map[c] != EBUR128_UNUSED {
            let v0 = spec_filter_v0(m.a, m1.v[c], frame[c]);
            let out = spec_filter_out(m.b, v0, m1.v[c]);
            MeterModel {
                v: m1.v.update(c, spec_filter_shift(m1.v[c], v0)),
                audio_data: m1.audio_data.update(m.audio_data_index + c, out),
                ..m1
            }
        } else {
            m1
        }
    }
}

/// Filter and store one whole frame, then advance the write cursor.
pub open spec fn spec_write_frame(m: MeterModel, frame: Seq<i64>) -> MeterModel {
    let m1 = spec_write_channels(m, frame, m.channels as int);
    MeterModel { audio_data_index: (m.audio_data_index + m.channels) as usize, ..m1 }
}

/// Filter and store the first `frames` frames of `src`.
pub open spec fn spec_write_run(m: MeterModel, src: Seq<i64>, frames: int) -> MeterModel
    decreases frames,
{
    if frames <= 0 {
        m
    } else {
        spec_write_frame(
            spec_write_run(m, src, frames - 1),
            frame_of(src, m.channels as int, frames - 1),
        )
    }
}

// ---------------------------------------------------------------------------
// Window energies.
// ---------------------------------------------------------------------------

pub open spec fn spec_sq(x: i64) -> int {
    x * x
}

/// Sum of squares of channel `c` over `count` frames starting at
/// `start_frame`.
pub open spec fn spec_chan_sum_range(
    ring: Seq<i64>,
    channels: int,
    c: int,
    start_frame: int,
    count: int,
) -> int
    decreases count,
{
    if count <= 0 {
        0
    } else {
        spec_chan_sum_range(ring, channels, c, start_frame, count - 1) + spec_sq(
            ring[(start_frame + count - 1) * channels + c],
        )
    }
}

/// Sum of squares of channel `c` over the trailing `fpb` frames that end at
/// frame index `fi`, reading across the wrap boundary when needed.
pub open spec fn spec_chan_window_sum(
    ring: Seq<i64>,
    frames_cap: int,
    channels: int,
    c: int,
    fi: int,
    fpb: int,
) -> int {
    if fi >= fpb {
        spec_chan_sum_range(ring, channels, c, fi - fpb, fpb)
    } else {
        spec_chan_sum_range(ring, channels, c, 0, fi) + spec_chan_sum_range(
            ring,
            channels,
            c,
            frames_cap - (fpb - fi),
            fpb - fi,
        )
    }
}

/// Surround channels contribute a 1.41 energy weight.
pub open spec fn spec_weighted(sum: int, role: i32) -> int {
    if role == EBUR128_LEFT_SURROUND || role == EBUR128_RIGHT_SURROUND {
        (sum * 141) / 100
    } else {
        sum
    }
}

/// Weighted sum of squares over the first `cnt` channels for a trailing
/// window of `fpb` frames.
pub open spec fn spec_window_total(m: MeterModel, fpb: int, cnt: int) -> int
    decreases cnt,
{
    if cnt <= 0 {
        0
    } else {
        spec_window_total(m, fpb, cnt - 1) + if m.channel_map[cnt - 1] != EBUR128_UNUSED {
            spec_weighted(
                spec_chan_window_sum(
                    m.audio_data,
                    m.audio_data_frames as int,
                    m.channels as int,
                    cnt - 1,
                    frame_index(m),
                    fpb,
                ),
                m.channel_map[cnt - 1],
            )
        } else {
            0
        }
    }
}

/// Mean-square energy of the trailing `fpb` frames (Q60).
pub open spec fn spec_window_energy(m: MeterModel, fpb: int) -> int {
    spec_window_total(m, fpb, m.channels as int) / fpb
}

// ---------------------------------------------------------------------------
// Gating-block evaluation at window boundaries.
// ---------------------------------------------------------------------------

/// Evaluate a gating block over the trailing `fpb` frames and store it when
/// it passes the absolute gate (and the session still has room).
pub open spec fn spec_apply_gating_block(m: MeterModel, fpb: int) -> MeterModel {
    let e = spec_window_energy(m, fpb);
    if e >= ABS_GATE_ENERGY && m.blocks.len() < BLOCK_CAPACITY {
        MeterModel {
            blocks: m.blocks.push(e as u128),
            block_counter: (m.block_counter + 1) as usize,
            ..m
        }
    } else {
        m
    }
}

/// Short-term bookkeeping: when the frame counter reaches three seconds, a
/// three-second energy is recorded and the counter rewinds to two seconds.
pub open spec fn spec_apply_shortterm(m: MeterModel) -> MeterModel {
    if m.short_term_frame_counter == 3 * m.sample_rate {
        let m1 = if 3 * m.sample_rate <= m.audio_data_frames && m.st_blocks.len()
            < BLOCK_CAPACITY {
            MeterModel {
                st_blocks: m.st_blocks.push(
                    spec_window_energy(m, 3 * m.sample_rate as int) as u128,
                ),
                ..m
            }
        } else {
            m
        };
        MeterModel { short_term_frame_counter: (2 * m.sample_rate as int) as usize, ..m1 }
    } else {
        m
    }
}

/// Everything that happens when the countdown to the next block reaches
/// zero: block evaluation, short-term bookkeeping, countdown reset to 200 ms
/// and a wrap of the write cursor at the end of the ring.
pub open spec fn spec_trigger(m: MeterModel) -> MeterModel {
    let m1 = if mode_has(m.mode, EBUR128_MODE_I) {
        spec_apply_gating_block(m, spec_block_frames(m))
    } else {
        m
    };
    let m2 = if mode_has(m1.mode, EBUR128_MODE_LRA) {
        spec_apply_shortterm(m1)
    } else {
        m1
    };
    let m3 = MeterModel { needed_frames: blocksize(m) as usize, ..m2 };
    if m3.audio_data_index == m3.audio_data.len() {
        MeterModel { audio_data_index: 0, ..m3 }
    } else {
        m3
    }
}

// ---------------------------------------------------------------------------
// Feeding.
// ---------------------------------------------------------------------------

/// A run of `r` frames that does not complete a block: samples are written
/// and the counters move.
pub open spec fn spec_partial_run(m: MeterModel, src: Seq<i64>, r: int) -> MeterModel {
    let m1 = spec_write_run(m, src, r);
    MeterModel {
        needed_frames: (m.needed_frames - r) as usize,
        short_term_frame_counter: if mode_has(m.mode, EBUR128_MODE_LRA) {
            (m.short_term_frame_counter + r) as usize
        } else {
            m.short_term_frame_counter
        },
        ..m1
    }
}

/// Feeding a claimed frame count from a buffer that may fall short: whole
/// runs are applied as long as the buffer covers them, and the first run
/// that overruns the buffer is where feeding stops.  With enough data this
/// coincides with [`spec_feed`].
pub open spec fn spec_feed_avail(m: MeterModel, src: Seq<i64>, frames: int) -> MeterModel
    decreases frames,
{
    if frames <= 0 || m.needed_frames == 0 {
        m
    } else if frames >= m.needed_frames {
        let r = m.needed_frames as int;
        if r * m.channels > src.len() {
            m
        } else {
            let m1 = spec_trigger(spec_partial_run(m, src, r));
            spec_feed_avail(m1, src.skip(r * m.channels as int), frames - r)
        }
    } else {
        if frames * m.channels > src.len() {
            m
        } else {
            spec_partial_run(m, src, frames)
        }
    }
}

/// Feeding `frames` interleaved frames: input is consumed greedily in runs
/// that end exactly at block boundaries, where [`spec_trigger`] fires.
pub open spec fn spec_feed(m: MeterModel, src: Seq<i64>, frames: int) -> MeterModel
    decreases frames,
{
    if frames <= 0 || m.needed_frames == 0 {
        m
    } else if frames >= m.needed_frames {
        let r = m.needed_frames as int;
        let m1 = spec_trigger(spec_partial_run(m, src, r));
        spec_feed(m1, src.skip(r * m.channels as int), frames - r)
    } else {
        spec_partial_run(m, src, frames)
    }
}

} // verus!
