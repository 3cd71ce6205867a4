use ebur128_meter::{Ebur128State, MeterError, EBUR128_MODE_I, EBUR128_MODE_S, EBUR128_MODE_M,
    EBUR128_MODE_LRA, EBUR128_LEFT_SURROUND};

const Q30: f64 = 1073741824.0;

fn sine_mono(rate: usize, seconds: usize, freq: f64, amp: f64) -> Vec<i64> {
    let n = rate * seconds;
    let mut out = Vec::with_capacity(n);
    for i in 0..n {
        let x = amp * (2.0 * std::f64::consts::PI * freq * (i as f64) / (rate as f64)).sin();
        out.push((x * Q30).round() as i64);
    }
    out
}

#[test]
fn construction_requires_a_mode() {
    assert!(Ebur128State::new(2, 48000, EBUR128_MODE_I).is_ok());
    assert!(Ebur128State::new(1, 44100, EBUR128_MODE_S).is_ok());
    assert!(Ebur128State::new(6, 96000, EBUR128_MODE_M).is_ok());
    assert!(Ebur128State::new(1, 1, EBUR128_MODE_I).is_ok());
    let r = Ebur128State::new(2, 48000, 0);
    assert_eq!(r.err(), Some(MeterError::ConfigurationError));
    let r2 = Ebur128State::new(2, 48000, 2);
    assert!(r2.is_err());
}

#[test]
fn feed_rejects_short_buffer() {
    let mut m = Ebur128State::new(1, 48000, EBUR128_MODE_I).unwrap();
    let samples = vec![0i64; 100];
    // the very first run already overruns the buffer: nothing is applied
    let r = m.add_frames_float(&samples, 200);
    assert_eq!(r.err(), Some(MeterError::BufferSizeError));
    assert_eq!(m.audio_data_index, 0);
    assert_eq!(m.needed_frames, 48000 / 5 * 2);
    // the meter stays usable afterwards
    assert!(m.add_frames_float(&samples, 100).is_ok());
}

#[test]
fn overrun_mid_feed_keeps_applied_runs() {
    // one whole 400 ms run fits the buffer; the next does not, so the
    // error is raised with the first run's gating block already stored
    let mut m = Ebur128State::new(1, 48000, EBUR128_MODE_I).unwrap();
    let s = sine_mono(48000, 1, 1000.0, 0.5);
    let short = &s[..19500];
    let r = m.add_frames_float(short, 20000);
    assert_eq!(r.err(), Some(MeterError::BufferSizeError));
    assert_eq!(m.block_list.len(), 1);
    assert_eq!(m.block_counter, 1);
    assert_eq!(m.needed_frames, 48000 / 5);
    assert_eq!(m.audio_data_index, 0);
}

#[test]
fn filtering_does_not_move_the_write_cursor() {
    let mut m = Ebur128State::new(1, 48000, EBUR128_MODE_I).unwrap();
    let s = sine_mono(48000, 1, 1000.0, 0.5);
    let before_needed = m.needed_frames;
    m.filter_float(&s[..100], 100).unwrap();
    // the filter stage writes samples and updates its memory only; the
    // cursor, countdown and block list belong to the accumulator
    assert_eq!(m.audio_data_index, 0);
    assert_eq!(m.needed_frames, before_needed);
    assert_eq!(m.block_list.len(), 0);
    assert!(m.audio_data[..100].iter().any(|x| *x != 0));
    assert!(m.v[0].iter().any(|x| *x != 0));
}

#[test]
fn silence_gives_no_measurement() {
    let mut m = Ebur128State::new(2, 48000, EBUR128_MODE_I).unwrap();
    let silence = vec![0i64; 48000 * 2];
    m.add_frames_float(&silence, 48000).unwrap();
    assert_eq!(m.loudness_global(), None);
    assert_eq!(m.loudness_segment(), None);
}

#[test]
fn sine_at_full_scale_matches_reference() {
    let mut m = Ebur128State::new(1, 48000, EBUR128_MODE_I).unwrap();
    let s = sine_mono(48000, 5, 1000.0, 1.0);
    m.add_frames_float(&s, s.len()).unwrap();
    let l = m.loudness_global().expect("loudness available");
    // EBU reference for a 0 dBFS 1 kHz sine: -3.01 LUFS, within half an LU
    assert!(l > -3510 && l < -2510, "loudness {l}");
}

#[test]
fn chunking_does_not_change_the_result() {
    let s = sine_mono(48000, 2, 997.0, 0.5);

    let mut all = Ebur128State::new(1, 48000, EBUR128_MODE_I).unwrap();
    all.add_frames_float(&s, s.len()).unwrap();

    let mut tiny = Ebur128State::new(1, 48000, EBUR128_MODE_I).unwrap();
    for chunk in s.chunks(777) {
        tiny.add_frames_float(chunk, chunk.len()).unwrap();
    }

    assert_eq!(all.loudness_global(), tiny.loudness_global());
}

#[test]
fn two_meters_derive_the_same_gain() {
    let s = sine_mono(48000, 3, 440.0, 0.25);
    let mut a = Ebur128State::new(1, 48000, EBUR128_MODE_I).unwrap();
    let mut b = Ebur128State::new(1, 48000, EBUR128_MODE_I).unwrap();
    a.add_frames_float(&s, s.len()).unwrap();
    b.add_frames_float(&s, s.len()).unwrap();
    let la = a.loudness_global().unwrap();
    let lb = b.loudness_global().unwrap();
    assert_eq!(la, lb);
    assert_eq!(
        Ebur128State::target_scale_milli(la),
        Ebur128State::target_scale_milli(lb)
    );
}

#[test]
fn reset_and_replay_reproduces_segment_loudness() {
    let s = sine_mono(48000, 2, 1000.0, 0.8);
    let mut m = Ebur128State::new(1, 48000, EBUR128_MODE_I).unwrap();
    m.add_frames_float(&s, s.len()).unwrap();
    let first = m.loudness_segment();
    m.start_new_segment();
    m.add_frames_float(&s, s.len()).unwrap();
    let second = m.loudness_segment();
    assert_eq!(first, second);
    assert!(first.is_some());
}

#[test]
fn surround_role_adds_the_expected_weight() {
    let s = sine_mono(48000, 2, 1000.0, 0.5);

    let mut front = Ebur128State::new(1, 48000, EBUR128_MODE_I).unwrap();
    front.add_frames_float(&s, s.len()).unwrap();
    let lf = front.loudness_global().unwrap();

    let mut surround = Ebur128State::new(1, 48000, EBUR128_MODE_I).unwrap();
    surround.set_channel_map(&[EBUR128_LEFT_SURROUND]);
    surround.add_frames_float(&s, s.len()).unwrap();
    let ls = surround.loudness_global().unwrap();

    // 10 * log10(1.41) is about 1.492 LU
    let diff = ls - lf;
    assert!(diff > 1480 && diff < 1505, "difference {diff}");
}

#[test]
fn short_term_blocks_accumulate_in_lra_mode() {
    let mut m = Ebur128State::new(1, 48000, EBUR128_MODE_LRA).unwrap();
    let s = sine_mono(48000, 4, 1000.0, 0.5);
    m.add_frames_float(&s, s.len()).unwrap();
    assert_eq!(m.short_term_block_list.len(), 2);
    let more = sine_mono(48000, 1, 1000.0, 0.5);
    m.add_frames_float(&more, more.len()).unwrap();
    assert_eq!(m.short_term_block_list.len(), 3);
}

#[test]
fn unused_channels_do_not_contribute() {
    // channel index 3 is unused in the default mapping: a four-channel
    // meter fed signal only on that channel measures nothing
    let mut m = Ebur128State::new(4, 48000, EBUR128_MODE_I).unwrap();
    let mono = sine_mono(48000, 1, 1000.0, 0.9);
    let mut interleaved = vec![0i64; mono.len() * 4];
    for (i, x) in mono.iter().enumerate() {
        interleaved[i * 4 + 3] = *x;
    }
    m.add_frames_float(&interleaved, mono.len()).unwrap();
    assert_eq!(m.loudness_global(), None);
}
