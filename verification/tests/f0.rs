use mellonella::f0::{default_threshold, PitchMath, DEFAULT_F_MAX as F_MAX, DEFAULT_F_MIN as F_MIN};
use std::f32::consts::TAU;

const DEFAULT_F_MIN: f32 = F_MIN as f32;
const DEFAULT_F_MAX: f32 = F_MAX as f32;
const DEFAULT_THRESHOLD: f32 = 0.10;

fn autocorr(x: &Vec<f64>) -> Vec<f64> {
    let n = x.len();
    (0..n)
        .map(|tau| (0..n - tau).map(|i| x[i] * x[i + tau]).sum())
        .collect()
}

fn trunc(x: f64) -> usize {
    x as usize
}

fn narrow(x: f64) -> f64 {
    f64::from(x as f32)
}

fn sqrt(x: f64) -> f64 {
    x.sqrt()
}

fn wide(x: &[f32]) -> Vec<f64> {
    x.iter().map(|&v| f64::from(v)).collect()
}

type Math = PitchMath<fn(&Vec<f64>) -> Vec<f64>, fn(f64) -> usize, fn(f64) -> f64>;

fn math() -> Math {
    PitchMath {
        autocorr,
        trunc,
        narrow,
    }
}

fn yin_frame(frame: &[f32], sr: u32, f_min: f32, f_max: f32, threshold: f32) -> Option<f32> {
    math()
        .yin_frame(
            &wide(frame),
            sr,
            f64::from(f_min),
            f64::from(f_max),
            f64::from(threshold),
        )
        .map(|v| v as f32)
}

fn estimate_f0_track(
    audio: &[f32],
    sr: u32,
    frame: usize,
    hop: usize,
    f_min: f32,
    f_max: f32,
) -> Vec<f32> {
    math()
        .estimate_f0_track(
            &wide(audio),
            sr,
            frame,
            hop,
            f64::from(f_min),
            f64::from(f_max),
            f64::NAN,
        )
        .into_iter()
        .map(|v| v as f32)
        .collect()
}

fn f0_statistics(track: &[f32]) -> (f32, f32) {
    let (mu, sigma) = mellonella::f0::f0_statistics(&wide(track), &sqrt);
    (mu as f32, sigma as f32)
}

fn sine(freq: f32, sample_rate: u32, duration_sec: f32) -> Vec<f32> {
    let sr = sample_rate as f32;
    let n = (sr * duration_sec) as usize;
    (0..n).map(|i| (TAU * freq * i as f32 / sr).sin()).collect()
}

#[test]
fn yin_estimates_pure_tone_120() {
    let sr = 16_000;
    let frame = &sine(120.0, sr, 0.2)[..2048];
    let est = yin_frame(frame, sr, DEFAULT_F_MIN, DEFAULT_F_MAX, DEFAULT_THRESHOLD).unwrap();
    assert!((est - 120.0).abs() / 120.0 < 0.05, "est={est}");
}

#[test]
fn yin_estimates_pure_tone_220() {
    let sr = 16_000;
    let frame = &sine(220.0, sr, 0.2)[..2048];
    let est = yin_frame(frame, sr, DEFAULT_F_MIN, DEFAULT_F_MAX, DEFAULT_THRESHOLD).unwrap();
    assert!((est - 220.0).abs() / 220.0 < 0.05, "est={est}");
}

#[test]
fn yin_estimates_pure_tone_330() {
    let sr = 16_000;
    let frame = &sine(330.0, sr, 0.2)[..2048];
    let est = yin_frame(frame, sr, DEFAULT_F_MIN, DEFAULT_F_MAX, DEFAULT_THRESHOLD).unwrap();
    assert!((est - 330.0).abs() / 330.0 < 0.05, "est={est}");
}

#[test]
fn yin_returns_none_or_low_for_white_noise() {
    // Deterministic noise.
    let sr = 16_000;
    let mut state: u64 = 0xdead_beef_cafe_babe;
    let frame: Vec<f32> = (0..2048)
        .map(|_| {
            state = state
                .wrapping_mul(6_364_136_223_846_793_005)
                .wrapping_add(1);
            ((state >> 33) as i32 as f32) / i32::MAX as f32
        })
        .collect();
    let est = yin_frame(&frame, sr, DEFAULT_F_MIN, DEFAULT_F_MAX, 0.05);
    // Must either return None or a value below 1 kHz.
    assert!(est.is_none() || est.unwrap() < 1000.0);
}

#[test]
fn track_recovers_constant_pitch() {
    let sr = 16_000;
    let audio = sine(150.0, sr, 0.5);
    let track = estimate_f0_track(&audio, sr, 2048, 512, DEFAULT_F_MIN, DEFAULT_F_MAX);
    let mut voiced: Vec<f32> = track.into_iter().filter(|v| v.is_finite()).collect();
    assert!(!voiced.is_empty());
    voiced.sort_by(|a, b| a.partial_cmp(b).unwrap());
    let median = voiced[voiced.len() / 2];
    assert!((median - 150.0).abs() / 150.0 < 0.05, "median={median}");
}

#[test]
fn statistics_handles_empty_track() {
    let track = vec![f32::NAN; 10];
    let (mu, sigma) = f0_statistics(&track);
    assert!(mu.abs() <= 0.0);
    assert!(sigma.abs() <= 0.0);
}

#[test]
fn statistics_of_voiced_values() {
    let (mu, sigma) = f0_statistics(&[100.0, f32::NAN, 200.0]);
    assert_eq!(mu, 150.0);
    assert_eq!(sigma, 50.0);
}

#[test]
fn default_threshold_is_a_tenth() {
    assert_eq!(default_threshold::<f64>(), 0.1);
}

#[test]
fn difference_is_the_squared_difference() {
    let frame = [3u64, 1, 4, 1, 5];
    let ac: Vec<u64> = (0..5)
        .map(|tau| (0..5 - tau).map(|i| frame[i] * frame[i + tau]).sum())
        .collect();
    let d = mellonella::f0::difference(&frame, &ac, 3);
    for (tau, &got) in d.iter().enumerate() {
        let want: u64 = (0..5 - tau).map(|i| frame[i].abs_diff(frame[i + tau]).pow(2)).sum();
        assert_eq!(got, want, "tau={tau}");
    }
}

#[test]
fn normalised_difference_starts_at_one() {
    let c = mellonella::f0::cumulative_mean_normalized(&[0.0f64, 2.0, 4.0, 0.0]);
    assert_eq!(c, vec![1.0, 1.0, 4.0 * 2.0 / 6.0, 0.0]);
}

#[test]
fn dip_is_followed_to_its_bottom() {
    let c = [1.0f64, 1.0, 0.08, 0.02, 0.05, 0.9];
    assert_eq!(mellonella::f0::find_tau_dip(&c, 1, 6, 0.1), Some(3));
    assert_eq!(mellonella::f0::find_tau_dip(&c, 1, 6, 0.01), None);
    assert_eq!(mellonella::f0::find_tau_dip(&c, 1, 2, 0.1), None);
}

#[test]
fn hint_gives_the_same_pitch() {
    let sr = 16_000;
    let frame = wide(&sine(180.0, sr, 0.2)[..2048]);
    let plain = math().yin_frame(&frame, sr, 50.0, 500.0, 0.1).unwrap();
    let hinted = math()
        .yin_frame_with_hint(&frame, sr, 50.0, 500.0, 0.1, Some(181.0))
        .unwrap();
    assert!((plain - hinted).abs() < 1.0, "{plain} {hinted}");
}

#[test]
fn track_of_short_audio_is_empty() {
    assert!(estimate_f0_track(&[0.0; 100], 16_000, 2048, 512, 50.0, 500.0).is_empty());
}

#[test]
fn frame_below_the_least_length_has_no_pitch() {
    let sr = 8_000;
    let voice = wide(&sine(400.0, sr, 0.2));
    let short = &voice[..63];
    assert_eq!(math().yin_frame(short, sr, 300.0, 500.0, 0.3), None);
    assert_eq!(
        math().yin_frame_with_hint(short, sr, 300.0, 500.0, 0.3, Some(400.0)),
        None
    );
}
