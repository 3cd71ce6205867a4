use ebur128_meter::Ebur128State;
use ebur128_meter::GatingBlock;
use ebur128_meter::MeterError;
use ebur128_meter::EBUR128_MODE_I;
use ebur128_meter::processing::AudioLoudnessInfo;
use ebur128_meter::analysis::{parse_wav_header, decode_samples_16, decode_samples_24, apply_gain};

fn wav_header_bytes(
    format: u16,
    channels: u16,
    sample_rate: u32,
    bits: u16,
    data_size: u32,
) -> Vec<u8> {
    let byte_rate = sample_rate * channels as u32 * (bits as u32 / 8);
    let block_align = channels * (bits / 8);
    let mut b = Vec::new();
    b.extend_from_slice(b"RIFF");
    b.extend_from_slice(&(36 + data_size).to_le_bytes());
    b.extend_from_slice(b"WAVE");
    b.extend_from_slice(b"fmt ");
    b.extend_from_slice(&16u32.to_le_bytes());
    b.extend_from_slice(&format.to_le_bytes());
    b.extend_from_slice(&channels.to_le_bytes());
    b.extend_from_slice(&sample_rate.to_le_bytes());
    b.extend_from_slice(&byte_rate.to_le_bytes());
    b.extend_from_slice(&block_align.to_le_bytes());
    b.extend_from_slice(&bits.to_le_bytes());
    b.extend_from_slice(b"data");
    b.extend_from_slice(&data_size.to_le_bytes());
    b
}

#[test]
fn wav_header_parses_and_validates() {
    let bytes = wav_header_bytes(1, 2, 48000, 16, 192000);
    let h = parse_wav_header(&bytes).unwrap();
    assert!(h.is_valid());
    assert_eq!(h.format, 1);
    assert_eq!(h.channels, 2);
    assert_eq!(h.sample_rate, 48000);
    assert_eq!(h.bits_per_sample, 16);
    assert_eq!(h.data_size, 192000);
    assert_eq!(h.byte_rate, 192000);
}

#[test]
fn wav_header_rejects_short_input() {
    let bytes = vec![0u8; 43];
    assert_eq!(
        parse_wav_header(&bytes).err(),
        Some(MeterError::UnsupportedFormatError)
    );
}

#[test]
fn wav_header_detects_bad_magic() {
    let mut bytes = wav_header_bytes(1, 1, 44100, 16, 1000);
    bytes[0] = b'X';
    let h = parse_wav_header(&bytes).unwrap();
    assert!(!h.is_valid());
}

#[test]
fn decode_16_bit_samples() {
    // -32768, 32767, 0, 1
    let bytes = [0x00u8, 0x80, 0xFF, 0x7F, 0x00, 0x00, 0x01, 0x00];
    let s = decode_samples_16(&bytes);
    assert_eq!(s.len(), 4);
    assert_eq!(s[0], -(1i64 << 30));
    assert_eq!(s[1], 32767 * 32768);
    assert_eq!(s[2], 0);
    assert_eq!(s[3], 32768);
}

#[test]
fn decode_24_bit_samples() {
    // -2^23, 2^23 - 1, 0
    let bytes = [0x00u8, 0x00, 0x80, 0xFF, 0xFF, 0x7F, 0x00, 0x00, 0x00];
    let s = decode_samples_24(&bytes);
    assert_eq!(s.len(), 3);
    assert_eq!(s[0], -(1i64 << 30));
    assert_eq!(s[1], 8388607 * 128);
    assert_eq!(s[2], 0);
}

#[test]
fn gain_application_scales_samples() {
    let samples = [1000i64, -1000, 0, 500000];
    let out = apply_gain(&samples, 1995);
    assert_eq!(out[0], 1995);
    assert_eq!(out[1], -1995);
    assert_eq!(out[2], 0);
    assert_eq!(out[3], 997500);
}

#[test]
fn energy_to_loudness_reference_points() {
    // a full-scale mean square (1.0 in Q60) is 0 dB, so -0.691 LUFS
    assert_eq!(Ebur128State::energy_to_loudness(1u128 << 60), -691);
    // half the energy is 3.01 dB quieter
    assert_eq!(Ebur128State::energy_to_loudness(1u128 << 59), -3701);
}

#[test]
fn gain_deriver_reference_points() {
    // at or below the -70 LUFS gate the gain stays at unity
    assert_eq!(Ebur128State::target_scale_milli(-70000), 1000);
    assert_eq!(Ebur128State::target_scale_milli(-80000), 1000);
    // at the -18 LUFS reference no change is needed
    assert_eq!(Ebur128State::target_scale_milli(-18000), 1000);
    // six dB below the reference: 10^(6/20) is about 1.995
    let g = Ebur128State::target_scale_milli(-24000);
    assert!(g >= 1990 && g <= 2000, "gain {g}");
    // six dB above the reference: about 0.501
    let g2 = Ebur128State::target_scale_milli(-12000);
    assert!(g2 >= 498 && g2 <= 504, "gain {g2}");
}

#[test]
fn loudness_info_carries_the_derived_gain() {
    let info = AudioLoudnessInfo::new(-24000, 48000, 2, 120000);
    assert_eq!(info.lufs_milli, -24000);
    assert_eq!(info.sample_rate, 48000);
    assert_eq!(info.channels, 2);
    assert_eq!(info.duration_millis, 120000);
    assert!(info.target_scale_milli >= 1990 && info.target_scale_milli <= 2000);

    let quiet = AudioLoudnessInfo::new(-70000, 44100, 1, 5000);
    assert_eq!(quiet.target_scale_milli, 1000);
}

#[test]
fn relative_gate_discards_quiet_blocks() {
    let mut m = Ebur128State::new(1, 48000, EBUR128_MODE_I).unwrap();
    let loud = 1u128 << 60;
    // more than 8 dB below the loud block: outside the relative gate
    let quiet = loud / 100;
    m.block_list.push(GatingBlock { energy: quiet });
    m.block_list.push(GatingBlock { energy: loud });
    m.block_counter = 2;
    // the 90th-percentile proxy is the loud block; only it survives
    assert_eq!(m.loudness_global(), Some(-691));
    // within 8 dB both survive and the mean sits between them
    let mut m2 = Ebur128State::new(1, 48000, EBUR128_MODE_I).unwrap();
    m2.block_list.push(GatingBlock { energy: loud / 2 });
    m2.block_list.push(GatingBlock { energy: loud });
    m2.block_counter = 2;
    // mean of 1.0 and 0.5 is 0.75: about -1.940 LUFS
    let l = m2.loudness_global().unwrap();
    assert!(l > -1945 && l < -1935, "loudness {l}");
}
