//! The PCM front end: WAV header parsing, integer sample decoding, and the
//! per-sample gain multiply the host may request.

use vstd::prelude::*;
use crate::MeterError;
use crate::fixedpoint::spec_tdiv;

verus! {

/// `"RIFF"` as a little-endian word.
pub const RIFF_TAG: u32 = 0x46464952;

/// `"WAVE"` as a little-endian word.
pub const WAVE_TAG: u32 = 0x45564157;

/// `"fmt "` as a little-endian word.
pub const FMT_TAG: u32 = 0x20746D66;

/// `"data"` as a little-endian word.
pub const DATA_TAG: u32 = 0x61746164;

/// A canonical 44-byte WAV header, fields decoded little-endian.  The four
/// chunk tags are kept as little-endian words.
#[derive(Clone, Copy, Debug)]
pub struct WavHeader {
    pub riff: u32,
    pub file_size: u32,
    pub wave: u32,
    pub fmt: u32,
    pub fmt_size: u32,
    pub format: u16,
    pub channels: u16,
    pub sample_rate: u32,
    pub byte_rate: u32,
    pub block_align: u16,
    pub bits_per_sample: u16,
    pub data: u32,
    pub data_size: u32,
}

/// Two bytes, little-endian.
pub open spec fn spec_le16(b: Seq<u8>, i: int) -> int {
    b[i] + 256 * b[i + 1]
}

/// Four bytes, little-endian.
pub open spec fn spec_le32(b: Seq<u8>, i: int) -> int {
    b[i] + 256 * b[i + 1] + 65536 * b[i + 2] + 16777216 * b[i + 3]
}

/// A 16-bit PCM sample scaled from `[-32768, 32767]` to Q30.
pub open spec fn spec_decode16(b: Seq<u8>, i: int) -> int {
    let v = spec_le16(b, 2 * i);
    let s = if v >= 32768 {
        v - 65536
    } else {
        v
    };
    s * 32768
}

/// A 24-bit PCM sample scaled from `[-2^23, 2^23 - 1]` to Q30.
pub open spec fn spec_decode24(b: Seq<u8>, i: int) -> int {
    let v = b[3 * i] + 256 * b[3 * i + 1] + 65536 * b[3 * i + 2];
    let s = if v >= 8388608 {
        v - 16777216
    } else {
        v
    };
    s * 128
}

impl WavHeader {
    /// The four chunk tags read as a WAV file's must.
    pub fn is_valid(&self) -> (r: bool)
        ensures
            r == (self.riff == RIFF_TAG && self.wave == WAVE_TAG && self.fmt == FMT_TAG
                && self.data == DATA_TAG),
    {
        self.riff == RIFF_TAG && self.wave == WAVE_TAG && self.fmt == FMT_TAG && self.data
            == DATA_TAG
    }
}

fn read_le16(bytes: &[u8], i: usize) -> (r: u16)
    requires
        i + 2 <= bytes@.len(),
    ensures
        r as int == spec_le16(bytes@, i as int),
{
    (bytes[i] as u16) + 256 * (bytes[i + 1] as u16)
}

fn read_le32(bytes: &[u8], i: usize) -> (r: u32)
    requires
        i + 4 <= bytes@.len(),
    ensures
        r as int == spec_le32(bytes@, i as int),
{
    (bytes[i] as u32) + 256 * (bytes[i + 1] as u32) + 65536 * (bytes[i + 2] as u32) + 16777216 * (
    bytes[i + 3] as u32)
}

/// Decode a canonical 44-byte WAV header.  Fails exactly when fewer than
/// 44 bytes are given.
pub fn parse_wav_header(bytes: &[u8]) -> (r: Result<WavHeader, MeterError>)
    ensures
        r is Err <==> bytes@.len() < 44,
        r is Err ==> r->Err_0 == MeterError::UnsupportedFormatError,
        r is Ok ==> ({
            let h = r->Ok_0;
            &&& h.riff as int == spec_le32(bytes@, 0)
            &&& h.file_size as int == spec_le32(bytes@, 4)
            &&& h.wave as int == spec_le32(bytes@, 8)
            &&& h.fmt as int == spec_le32(bytes@, 12)
            &&& h.fmt_size as int == spec_le32(bytes@, 16)
            &&& h.format as int == spec_le16(bytes@, 20)
            &&& h.channels as int == spec_le16(bytes@, 22)
            &&& h.sample_rate as int == spec_le32(bytes@, 24)
            &&& h.byte_rate as int == spec_le32(bytes@, 28)
            &&& h.block_align as int == spec_le16(bytes@, 32)
            &&& h.bits_per_sample as int == spec_le16(bytes@, 34)
            &&& h.data as int == spec_le32(bytes@, 36)
            &&& h.data_size as int == spec_le32(bytes@, 40)
        }),
{
    if bytes.len() < 44 {
        return Err(MeterError::UnsupportedFormatError);
    }
    Ok(
        WavHeader {
            riff: read_le32(bytes, 0),
            file_size: read_le32(bytes, 4),
            wave: read_le32(bytes, 8),
            fmt: read_le32(bytes, 12),
            fmt_size: read_le32(bytes, 16),
            format: read_le16(bytes, 20),
            channels: read_le16(bytes, 22),
            sample_rate: read_le32(bytes, 24),
            byte_rate: read_le32(bytes, 28),
            block_align: read_le16(bytes, 32),
            bits_per_sample: read_le16(bytes, 34),
            data: read_le32(bytes, 36),
            data_size: read_le32(bytes, 40),
        },
    )
}

/// Decode 16-bit little-endian PCM into Q30 samples; a trailing odd byte
/// is ignored.
pub fn decode_samples_16(bytes: &[u8]) -> (r: Vec<i64>)
    ensures
        r@.len() == bytes@.len() / 2,
        forall|i: int| 0 <= i < r@.len() ==> r@[i] as int == spec_decode16(bytes@, i),
{
    let blen: usize = bytes.len();
    let n: usize = blen / 2;
    let mut out: Vec<i64> = Vec::new();
    let mut i: usize = 0;
    proof {
        crate::fixedpoint::lemma_div_le_num(bytes@.len() as int, 2);
        vstd::arithmetic::div_mod::lemma_fundamental_div_mod(bytes@.len() as int, 2);
    }
    while i < n
        invariant
            i <= n,
            blen == bytes@.len(),
            n == bytes@.len() / 2,
            2 * n <= blen,
            out@.len() == i,
            forall|t: int| 0 <= t < i ==> out@[t] as int == spec_decode16(bytes@, t),
        decreases n - i,
    {
        let raw: u16 = read_le16(bytes, 2 * i);
        let signed: i64 = if raw >= 32768 {
            (raw as i64) - 65536
        } else {
            raw as i64
        };
        out.push(signed * 32768);
        i = i + 1;
    }
    out
}

/// Decode 24-bit little-endian PCM into Q30 samples; trailing bytes that
/// do not fill a sample are ignored.
pub fn decode_samples_24(bytes: &[u8]) -> (r: Vec<i64>)
    ensures
        r@.len() == bytes@.len() / 3,
        forall|i: int| 0 <= i < r@.len() ==> r@[i] as int == spec_decode24(bytes@, i),
{
    let blen: usize = bytes.len();
    let n: usize = blen / 3;
    let mut out: Vec<i64> = Vec::new();
    let mut i: usize = 0;
    proof {
        crate::fixedpoint::lemma_div_le_num(bytes@.len() as int, 3);
        vstd::arithmetic::div_mod::lemma_fundamental_div_mod(bytes@.len() as int, 3);
    }
    while i < n
        invariant
            i <= n,
            blen == bytes@.len(),
            n == bytes@.len() / 3,
            3 * n <= blen,
            out@.len() == i,
            forall|t: int| 0 <= t < i ==> out@[t] as int == spec_decode24(bytes@, t),
        decreases n - i,
    {
        let b0: u8 = bytes[3 * i];
        let b1: u8 = bytes[3 * i + 1];
        let b2: u8 = bytes[3 * i + 2];
        let raw: u32 = (b0 as u32) + 256 * (b1 as u32) + 65536 * (b2 as u32);
        let signed: i64 = if raw >= 8388608 {
            (raw as i64) - 16777216
        } else {
            raw as i64
        };
        out.push(signed * 128);
        i = i + 1;
    }
    out
}

/// The stateless gain application the host may request: every sample is
/// multiplied by the gain (in thousandths), rounding toward zero, with no
/// clipping.
pub fn apply_gain(samples: &[i64], gain_milli: u64) -> (r: Vec<i64>)
    requires
        gain_milli <= 0x100000,
        forall|i: int|
            0 <= i < samples@.len() ==> -0x10000000000 <= #[trigger] samples@[i] <= 0x10000000000,
    ensures
        r@.len() == samples@.len(),
        forall|i: int|
            0 <= i < r@.len() ==> r@[i] as int == spec_tdiv(
                samples@[i] * gain_milli as int,
                1000,
            ),
{
    let mut out: Vec<i64> = Vec::new();
    let mut i: usize = 0;
    while i < samples.len()
        invariant
            i <= samples@.len(),
            gain_milli <= 0x100000,
            forall|t: int|
                0 <= t < samples@.len() ==> -0x10000000000 <= #[trigger] samples@[t]
                    <= 0x10000000000,
            out@.len() == i,
            forall|t: int|
                0 <= t < i ==> out@[t] as int == spec_tdiv(
                    samples@[t] * gain_milli as int,
                    1000,
                ),
        decreases samples@.len() - i,
    {
        let x: i64 = samples[i];
        proof {
            assert(-0x1000000000000000 <= (x as int) * (gain_milli as int)
                <= 0x1000000000000000) by (nonlinear_arith)
                requires
                    -0x10000000000 <= x <= 0x10000000000,
                    0 <= gain_milli <= 0x100000,
            ;
            crate::fixedpoint::lemma_tdiv_bound(
                (x as int) * (gain_milli as int),
                1000,
                0x8000000000000,
            );
        }
        let p: i128 = (x as i128) * (gain_milli as i128);
        let scaled: i64 = if p >= 0 {
            (((p as u128) / 1000) as i128) as i64
        } else {
            proof {
                crate::fixedpoint::lemma_div_le_num(-(p as int), 1000);
            }
            (-((((-p) as u128) / 1000) as i128)) as i64
        };
        out.push(scaled);
        i = i + 1;
    }
    out
}

} // verus!
