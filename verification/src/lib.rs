//! An EBU R128 loudness meter in exact scaled-integer arithmetic.
//!
//! The meter consumes interleaved sample frames (Q30 fixed point, so
//! `1 << 30` stands for a full-scale value of 1.0), pushes them through a
//! K-weighting filter, collects overlapping 400 ms gating blocks, and
//! reports integrated loudness in thousandths of a LUFS together with a
//! normalization gain in thousandths of a linear factor.

use vstd::prelude::*;

pub mod analysis;
pub mod filter_design;
pub mod fixedpoint;
pub mod laws;
pub mod loudness_math;
pub mod model;
pub mod sorting;
pub mod processing;

verus! {

/// A channel that takes no part in the measurement.
pub const EBUR128_UNUSED: i32 = 0;

pub const EBUR128_LEFT: i32 = 1;

pub const EBUR128_RIGHT: i32 = 2;

pub const EBUR128_CENTER: i32 = 3;

pub const EBUR128_LEFT_SURROUND: i32 = 4;

pub const EBUR128_RIGHT_SURROUND: i32 = 5;

/// Mode bit set selecting integrated loudness.
pub const EBUR128_MODE_I: usize = 5;

/// Mode bit set selecting short-term loudness.
pub const EBUR128_MODE_S: usize = 3;

/// Mode bit set selecting momentary loudness.
pub const EBUR128_MODE_M: usize = 1;

/// Mode bit set selecting loudness-range tracking.
pub const EBUR128_MODE_LRA: usize = 11;

/// Errors the engine reports to its caller.
#[derive(Clone, Copy, PartialEq, Eq, Structural, Debug)]
pub enum MeterError {
    /// The mode mask selects none of the supported measurements.
    ConfigurationError,
    /// A fed frame count is inconsistent with the supplied buffer length.
    BufferSizeError,
    /// Bytes handed to the PCM front end do not form a supported format.
    UnsupportedFormatError,
}

/// One gating block that passed the absolute gate: its mean-square energy
/// in Q60.
#[derive(Clone, Copy)]
pub struct GatingBlock {
    pub energy: u128,
}

/// A loudness measurement session.
///
/// Samples are Q30 fixed point (`1 << 30` is full scale).  Loudness values
/// are reported in thousandths of a LUFS.
pub struct Ebur128State {
    pub mode: usize,
    pub sample_rate: usize,
    pub channels: usize,
    pub channel_map: Vec<i32>,
    pub a: Vec<i64>,
    pub b: Vec<i64>,
    pub v: Vec<Vec<i64>>,
    pub audio_data: Vec<i64>,
    pub audio_data_frames: usize,
    pub audio_data_index: usize,
    pub needed_frames: usize,
    pub block_list: Vec<GatingBlock>,
    pub short_term_block_list: Vec<GatingBlock>,
    pub block_counter: usize,
    pub short_term_frame_counter: usize,
}

impl View for Ebur128State {
    type V = crate::model::MeterModel;

    open spec fn view(&self) -> crate::model::MeterModel {
        crate::model::MeterModel {
            mode: self.mode,
            sample_rate: self.sample_rate,
            channels: self.channels,
            channel_map: self.channel_map@,
            a: self.a@,
            b: self.b@,
            v: self.v@.map_values(|row: Vec<i64>| row@),
            audio_data: self.audio_data@,
            audio_data_frames: self.audio_data_frames,
            audio_data_index: self.audio_data_index,
            needed_frames: self.needed_frames,
            blocks: self.block_list@.map_values(|g: GatingBlock| g.energy),
            st_blocks: self.short_term_block_list@.map_values(|g: GatingBlock| g.energy),
            block_counter: self.block_counter,
            short_term_frame_counter: self.short_term_frame_counter,
        }
    }
}

impl Ebur128State {
    /// Construct a meter.  Construction succeeds exactly when the mode mask
    /// selects at least one measurement.
    pub fn new(channels: usize, sample_rate: usize, mode: usize) -> (r: Result<
        Ebur128State,
        MeterError,
    >)
        requires
            1 <= channels <= 65535,
            1 <= sample_rate <= 0x40000000,
            3 * sample_rate * channels <= usize::MAX,
        ensures
            r is Ok <==> crate::model::spec_mode_valid(mode),
            r is Err ==> r->Err_0 == MeterError::ConfigurationError,
            r is Ok ==> crate::model::wf(r->Ok_0@),
            r is Ok ==> r->Ok_0@ == crate::model::spec_init_model(
                channels,
                sample_rate,
                mode,
                crate::filter_design::spec_design(sample_rate as int).0,
                crate::filter_design::spec_design(sample_rate as int).1,
            ),
            r is Ok && sample_rate % 5 == 0 ==> crate::model::feed_wf(r->Ok_0@),
            r is Ok && !crate::model::mode_has(mode, EBUR128_MODE_S) && !crate::model::mode_has(
                mode,
                EBUR128_MODE_LRA,
            ) && sample_rate >= 5 ==> crate::model::feed_wf(r->Ok_0@),
    {
        if !(mode & EBUR128_MODE_I == EBUR128_MODE_I || mode & EBUR128_MODE_S == EBUR128_MODE_S
            || mode & EBUR128_MODE_M == EBUR128_MODE_M) {
            return Err(MeterError::ConfigurationError);
        }
        proof {
            assert(sample_rate * 3 <= 3 * sample_rate * channels && sample_rate * channels * 3 <= 3
                * sample_rate * channels) by (nonlinear_arith)
                requires
                    1 <= channels,
                    1 <= sample_rate,
            ;
        }
        let audio_data_frames: usize = if mode & EBUR128_MODE_S == EBUR128_MODE_S {
            sample_rate * 3
        } else {
            sample_rate / 5 * 2
        };
        proof {
            assert(audio_data_frames * channels <= 3 * sample_rate * channels && audio_data_frames
                * channels == audio_data_frames as int * channels as int) by (nonlinear_arith)
                requires
                    1 <= channels,
                    1 <= sample_rate,
                    audio_data_frames <= 3 * sample_rate,
            ;
        }
        let total: usize = audio_data_frames * channels;

        let (ca, cb) = crate::filter_design::design_filter(sample_rate);

        let mut channel_map: Vec<i32> = Vec::new();
        let mut ci: usize = 0;
        while ci < channels
            invariant
                ci <= channels,
                channel_map@.len() == ci,
                forall|j: int|
                    0 <= j < ci ==> channel_map@[j] == crate::model::spec_default_role(j),
            decreases channels - ci,
        {
            let role: i32 = if ci == 0 {
                EBUR128_LEFT
            } else if ci == 1 {
                EBUR128_RIGHT
            } else if ci == 2 {
                EBUR128_CENTER
            } else if ci == 4 {
                EBUR128_LEFT_SURROUND
            } else if ci == 5 {
                EBUR128_RIGHT_SURROUND
            } else {
                EBUR128_UNUSED
            };
            channel_map.push(role);
            ci = ci + 1;
        }

        let mut v: Vec<Vec<i64>> = Vec::new();
        let mut vi: usize = 0;
        while vi < channels
            invariant
                vi <= channels,
                v@.len() == vi,
                forall|c: int| 0 <= c < vi ==> (#[trigger] v@[c])@ =~= Seq::new(5, |j: int| 0i64),
            decreases channels - vi,
        {
            let mut row: Vec<i64> = Vec::new();
            row.push(0);
            row.push(0);
            row.push(0);
            row.push(0);
            row.push(0);
            proof {
                assert(row@ =~= Seq::new(5, |j: int| 0i64));
            }
            v.push(row);
            vi = vi + 1;
        }

        let mut audio_data: Vec<i64> = Vec::new();
        let mut ai: usize = 0;
        while ai < total
            invariant
                ai <= total,
                audio_data@.len() == ai,
                forall|j: int| 0 <= j < ai ==> audio_data@[j] == 0i64,
            decreases total - ai,
        {
            audio_data.push(0);
            ai = ai + 1;
        }

        let state = Ebur128State {
            mode,
            sample_rate,
            channels,
            channel_map,
            a: ca,
            b: cb,
            v,
            audio_data,
            audio_data_frames,
            audio_data_index: 0,
            needed_frames: sample_rate / 5 * 2,
            block_list: Vec::new(),
            short_term_block_list: Vec::new(),
            block_counter: 0,
            short_term_frame_counter: 0,
        };
        proof {
            let target = crate::model::spec_init_model(
                channels,
                sample_rate,
                mode,
                crate::filter_design::spec_design(sample_rate as int).0,
                crate::filter_design::spec_design(sample_rate as int).1,
            );
            assert(state@.channel_map =~= target.channel_map);
            assert(state@.v =~~= target.v);
            assert(state@.audio_data =~= target.audio_data);
            assert(state@.blocks =~= target.blocks);
            assert(state@.st_blocks =~= target.st_blocks);
            assert(state@ =~~= target);
            vstd::arithmetic::div_mod::lemma_div_basics(channels as int);
            vstd::arithmetic::div_mod::lemma_mod_multiples_basic(0, channels as int);
            if sample_rate >= 5 {
                let k = sample_rate as int / 5;
                vstd::arithmetic::div_mod::lemma_div_is_ordered(5, sample_rate as int, 5);
                vstd::arithmetic::div_mod::lemma_div_basics(5);
                assert(k >= 1);
                vstd::arithmetic::div_mod::lemma_mod_multiples_basic(2, k);
                if sample_rate % 5 == 0 {
                    vstd::arithmetic::div_mod::lemma_fundamental_div_mod(sample_rate as int, 5);
                    assert(sample_rate as int == 5 * k);
                    vstd::arithmetic::div_mod::lemma_mod_multiples_basic(15, k);
                    vstd::arithmetic::div_mod::lemma_mod_multiples_basic(13, k);
                    assert(3 * sample_rate as int == 15 * k);
                    assert(3 * sample_rate as int - 2 * k == 13 * k);
                }
            }
        }
        Ok(state)
    }

    /// Replace the channel-role map; the slice must cover every channel.
    pub fn set_channel_map(&mut self, channel_map: &[i32])
        requires
            channel_map@.len() == old(self)@.channel_map.len(),
        ensures
            final(self)@ == (crate::model::MeterModel { channel_map: channel_map@, ..old(self)@ }),
    {
        let ghost orig = self@;
        let mut i: usize = 0;
        while i < channel_map.len()
            invariant
                i <= channel_map@.len(),
                self@ == (crate::model::MeterModel { channel_map: self@.channel_map, ..orig }),
                self@.channel_map.len() == orig.channel_map.len(),
                orig.channel_map.len() == channel_map@.len(),
                forall|j: int| 0 <= j < i ==> self@.channel_map[j] == channel_map@[j],
                forall|j: int|
                    i <= j < self@.channel_map.len() ==> self@.channel_map[j]
                        == orig.channel_map[j],
            decreases channel_map@.len() - i,
        {
            let role: i32 = channel_map[i];
            self.channel_map[i] = role;
            i = i + 1;
        }
        proof {
            assert(self@.channel_map =~= channel_map@);
            assert(self@ =~~= crate::model::MeterModel { channel_map: channel_map@, ..orig });
        }
    }
}

} // verus!
