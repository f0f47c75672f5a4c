use mellonella::decisions::{settle, shift_off_on_decisions_back, start_at_zero};
use mellonella::embedding::EmbeddingError;
use mellonella::features::{
    decode_words, fbank_ecapa_one, measure_window, Fbank, FILTERBANK_LEN, HALF_FRAME, HOP_LENGTH,
    N_FFT, N_MELS, N_STFT,
};
use mellonella::rings::{push_bounded, take_front};
use mellonella::text::{decimal, ends_with, parse_unsigned, same_text, trim};
use std::collections::VecDeque;
use std::f32::consts::PI;

/// Each band is one bin, the first bands at the lowest bins.
fn filterbank() -> Vec<f32> {
    let mut bank = vec![0.0; FILTERBANK_LEN];
    for band in 0..N_MELS {
        bank[(band + 1) * N_MELS + band] = 1.0;
    }
    bank
}

fn cos(x: f32) -> f32 {
    x.cos()
}

fn log10(x: f32) -> f32 {
    x.log10()
}

/// The Fourier transform as it is defined.
fn dft(frame: &Vec<f32>) -> Vec<(f32, f32)> {
    (0..N_STFT)
        .map(|k| {
            let mut re = 0.0_f64;
            let mut im = 0.0_f64;
            for (i, &x) in frame.iter().enumerate() {
                let a = -2.0 * std::f64::consts::PI * (k * i % N_FFT) as f64 / N_FFT as f64;
                re += f64::from(x) * a.cos();
                im += f64::from(x) * a.sin();
            }
            (re as f32, im as f32)
        })
        .collect()
}

fn bank() -> Fbank<f32> {
    match Fbank::new(&filterbank(), PI, &cos) {
        Ok(b) => b,
        Err(e) => panic!("{}", e.message()),
    }
}

#[test]
fn features_come_frame_by_frame() {
    let audio = vec![0.1; 5 * HOP_LENGTH + 3];
    let feats = bank().compute(&audio, &dft, &log10);
    assert_eq!(feats.len(), 6 * N_MELS);
    assert_eq!(bank().compute(&[], &dft, &log10).len(), N_MELS);
}

#[test]
fn tone_is_loudest_in_its_band() {
    // Bin 10 is 400 Hz at 16 kHz; band 9 looks at it.
    let audio: Vec<f32> = (0..16_000)
        .map(|i| (2.0 * PI * 400.0 * i as f32 / 16_000.0).sin())
        .collect();
    let feats = bank().compute(&audio, &dft, &log10);
    let middle = &feats[50 * N_MELS..51 * N_MELS];
    let best = (0..N_MELS).max_by(|&a, &b| middle[a].total_cmp(&middle[b])).unwrap();
    assert_eq!(best, 9);
    // The window leaks into the bins beside it; far off, the floor holds.
    assert!((middle[60] - (feats.iter().copied().fold(f32::MIN, f32::max) - 80.0)).abs() < 1e-3);
}

#[test]
fn frame_is_windowed_and_in_decibels() {
    // A click under the middle of the first frame has a flat spectrum.
    let mut audio = vec![0.0; HALF_FRAME];
    audio[0] = 1.0;
    let feats = bank().compute(&audio, &dft, &log10);
    // The window is one in its middle, so every band holds 0 dB there.
    for &v in &feats[..N_MELS] {
        assert!(v.abs() < 1e-3, "{v}");
    }
    // One hop on, the click lies at 40 of 400: a small weight.
    let weight = 0.54 - 0.46 * (2.0 * PI * 40.0 / N_FFT as f32).cos();
    for &v in &feats[N_MELS..2 * N_MELS] {
        assert!((v - 20.0 * weight.log10()).abs() < 1e-2, "{v}");
    }
}

#[test]
fn filterbank_of_another_length_is_refused() {
    match Fbank::new(&[0.0_f32; 12], PI, &cos) {
        Err(e) => assert_eq!(e.message(), "filterbank buffer is 12 f32s, expected 16080"),
        Ok(_) => panic!("a filterbank of twelve entries"),
    }
}

#[test]
fn filterbank_is_read_from_bytes() {
    let decode = |w: [u8; 4]| f32::from_le_bytes(w);
    let mut bytes = Vec::new();
    for x in filterbank() {
        bytes.extend(x.to_le_bytes());
    }
    assert_eq!(decode_words(&bytes, &decode), filterbank());
    assert_eq!(decode_words(&bytes[..7], &decode).len(), 1);
    let read = Fbank::with_speechbrain_filterbank(&bytes, &decode, PI, &cos).unwrap();
    let audio = vec![0.3; 400];
    assert_eq!(
        read.compute(&audio, &dft, &log10),
        bank().compute(&audio, &dft, &log10)
    );
    match Fbank::with_speechbrain_filterbank(&bytes[..40], &decode, PI, &cos) {
        Err(e) => assert_eq!(e.message(), "filterbank buffer is 10 f32s, expected 16080"),
        Ok(_) => panic!("a filterbank of ten entries"),
    }
}

#[test]
fn window_is_measured() {
    let model = |v: &Vec<f32>, rows: usize, cols: usize| {
        assert_eq!((rows, cols, v.len()), (3, N_MELS, 3 * N_MELS));
        Ok(vec![1.0_f32])
    };
    let fails = |_: &Vec<f32>, _: usize, _: usize| {
        Err::<Vec<f32>, EmbeddingError>(EmbeddingError::Ort("gone".to_string()))
    };
    let pitch = |_: &[f32]| (140.0_f32, 9.0_f32);
    let audio = vec![0.2; 320];
    assert_eq!(
        fbank_ecapa_one(&bank(), &audio, &dft, &log10, &model).unwrap(),
        vec![1.0]
    );
    let (e, f0) = measure_window(&bank(), &audio, &dft, &log10, &model, &pitch).unwrap();
    assert_eq!((e, f0), (vec![1.0], 140.0));
    assert!(measure_window(&bank(), &audio, &dft, &log10, &fails, &pitch).is_err());
}

#[test]
fn decisions_keep_their_order_when_openings_move() {
    let mut d = vec![(0, false), (1_000, true), (2_000, false), (2_100, true)];
    shift_off_on_decisions_back(&mut d, 500);
    assert_eq!(d, vec![(0, false), (500, true), (2_000, true)]);
    let mut d = vec![(512, true)];
    start_at_zero(&mut d);
    assert_eq!(d, vec![(0, true), (512, true)]);
    let mut d: Vec<(usize, bool)> = Vec::new();
    start_at_zero(&mut d);
    assert_eq!(d, vec![(0, false)]);
    let mut d = vec![(0, false), (16_000, true)];
    settle(&mut d, 100, 16_000);
    assert_eq!(d, vec![(0, false), (14_400, true)]);
}

#[test]
fn ring_keeps_what_came_last() {
    let mut once = VecDeque::new();
    push_bounded(&mut once, &[1, 2, 3, 4, 5], 3);
    let mut twice = VecDeque::new();
    push_bounded(&mut twice, &[1, 2], 3);
    push_bounded(&mut twice, &[3, 4, 5], 3);
    assert_eq!(once, twice);
    assert_eq!(take_front(&mut once, 2), vec![3, 4]);
    assert_eq!(once, VecDeque::from(vec![5]));
}

#[test]
fn words_and_numbers() {
    assert_eq!(decimal(0), "0");
    assert_eq!(decimal(u64::MAX), "18446744073709551615");
    assert!(same_text("ä", "ä") && !same_text("a", "b") && !same_text("a", "ab"));
    assert!(ends_with("model.onnx", ".onnx") && !ends_with("onnx", "model.onnx"));
    assert_eq!(parse_unsigned("007", 10), Some(7));
    assert_eq!(parse_unsigned("+7", 10), Some(7));
    assert_eq!(parse_unsigned("11", 10), None);
    assert_eq!(parse_unsigned("+", 10), None);
    assert_eq!(parse_unsigned("7a", 10), None);
    assert_eq!(trim(" \t a b \u{2003}\n"), "a b");
    assert_eq!(trim("  "), "");
}
