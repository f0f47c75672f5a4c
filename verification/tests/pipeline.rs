use mellonella::decisions::{scale_to_audio_rate, shift_off_on_decisions_back};
use mellonella::enrollment::{EmbeddingPool, EmbeddingPoolConfig};
use mellonella::gating::{ApplyEnvelopeError, GateConfig};
use mellonella::offline::DecisionAudio;
use mellonella::pipeline::{AutoLearnEvent, AutoLearnKind, PipelineConfig, ScoreState};
use mellonella::resample::ResampleError;
use rubato::{
    Resampler, SincFixedIn, SincInterpolationParameters, SincInterpolationType, WindowFunction,
};

fn sqrt(x: f32) -> f32 {
    x.sqrt()
}

fn exp(x: f32) -> f32 {
    x.exp()
}

fn interpolate(audio: &[f32], src: u32, dst: u32) -> Result<Vec<Vec<f32>>, ResampleError> {
    let params = SincInterpolationParameters {
        sinc_len: 256,
        f_cutoff: 0.95,
        interpolation: SincInterpolationType::Linear,
        oversampling_factor: 256,
        window: WindowFunction::BlackmanHarris2,
    };
    let ratio = f64::from(dst) / f64::from(src);
    let mut r = SincFixedIn::<f32>::new(ratio, 1.1, params, audio.len(), 1)
        .map_err(|e| ResampleError::Rubato(e.to_string()))?;
    r.process(&[audio.to_vec()], None)
        .map_err(|e| ResampleError::Rubato(e.to_string()))
}

fn apply_envelope(
    audio: &[f32],
    decisions: &[(usize, bool)],
    sr: u32,
    cfg: GateConfig<f32>,
) -> Result<Vec<f32>, ApplyEnvelopeError> {
    mellonella::gating::apply_envelope(audio, decisions, sr, cfg, &exp)
}

fn apply_envelope_dual_rate(
    audio: &[f32],
    decisions: &[(usize, bool)],
    audio_sr: u32,
    decision_sr: u32,
    cfg: GateConfig<f32>,
) -> Result<Vec<f32>, ApplyEnvelopeError> {
    mellonella::decisions::apply_envelope_dual_rate(
        audio,
        decisions,
        audio_sr,
        decision_sr,
        cfg,
        &exp,
    )
}

fn audio_for_decisions(
    audio: &[f32],
    audio_sr: u32,
    decision_sr: u32,
) -> Result<DecisionAudio<'_, f32>, ResampleError> {
    mellonella::offline::audio_for_decisions(audio, audio_sr, decision_sr, &interpolate)
}

#[allow(clippy::too_many_arguments)]
fn apply_refresh_result(
    embedding: Vec<f32>,
    f0_mu: f32,
    trigger_frame: usize,
    consecutive_speech_ms: f32,
    pool: &mut EmbeddingPool<f32>,
    cohort: &[Vec<f32>],
    gate_cfg: &GateConfig<f32>,
    enable_auto_learn: bool,
    alpha: f32,
    score: &mut ScoreState<f32>,
    events: &mut Vec<AutoLearnEvent<f32>>,
) {
    mellonella::pipeline::apply_refresh_result(
        embedding,
        f0_mu,
        trigger_frame,
        consecutive_speech_ms,
        pool,
        &cohort.to_vec(),
        gate_cfg,
        enable_auto_learn,
        alpha,
        1e-12,
        &sqrt,
        &exp,
        score,
        events,
    );
}

fn resample_to(audio: &[f32], src: u32, dst: u32) -> Result<Vec<f32>, ResampleError> {
    mellonella::resample::resample_to(audio, src, dst, &interpolate)
}

#[test]
fn scale_to_audio_rate_identity() {
    assert_eq!(scale_to_audio_rate(0, 16_000, 16_000), 0);
    assert_eq!(scale_to_audio_rate(512, 16_000, 16_000), 512);
    assert_eq!(scale_to_audio_rate(1_000_000, 48_000, 48_000), 1_000_000);
}

#[test]
fn scale_to_audio_rate_16k_to_48k_is_exact_triple() {
    // 16 kHz → 48 kHz is the audio-path ratio when the CLI runs
    // the pipeline. Multiplication is exact integer, no rounding.
    assert_eq!(scale_to_audio_rate(0, 16_000, 48_000), 0);
    assert_eq!(scale_to_audio_rate(512, 16_000, 48_000), 1536);
    assert_eq!(scale_to_audio_rate(8000, 16_000, 48_000), 24_000);
}

#[test]
fn scale_to_audio_rate_rounds_half_up() {
    // 16 kHz → 44.1 kHz is non-integer; verify boundary at 0.5
    // rounds up (avoids the always-floor drift bias).
    // 1 * 44100 / 16000 = 2.75625 → 3
    assert_eq!(scale_to_audio_rate(1, 16_000, 44_100), 3);
    // 100 * 44100 / 16000 = 275.625 → 276
    assert_eq!(scale_to_audio_rate(100, 16_000, 44_100), 276);
}

#[test]
fn apply_envelope_dual_rate_identity_matches_apply_envelope() {
    // When audio_sr == decision_sr the helper must be a pure
    // pass-through to `apply_envelope`.
    let audio = vec![0.5_f32; 1024];
    let decisions = vec![(0_usize, true)];
    let gate_cfg = GateConfig::default();
    let envelope_direct = apply_envelope(&audio, &decisions, 16_000, gate_cfg).expect("direct");
    let envelope_dual =
        apply_envelope_dual_rate(&audio, &decisions, 16_000, 16_000, gate_cfg).expect("dual");
    assert_eq!(envelope_direct, envelope_dual);
}

#[test]
fn apply_envelope_dual_rate_output_length_matches_audio_rate() {
    // 1 s of 48 kHz audio (= 48 000 samples) with a single decision
    // at 16 kHz boundary 0 must yield exactly 48 000 output samples.
    let audio_48k = vec![0.5_f32; 48_000];
    let decisions_16k = vec![(0_usize, true)];
    let gate_cfg = GateConfig::default();
    let out = apply_envelope_dual_rate(&audio_48k, &decisions_16k, 48_000, 16_000, gate_cfg)
        .expect("dual-rate envelope");
    assert_eq!(out.len(), 48_000);
}

#[test]
fn apply_envelope_dual_rate_collapses_rounding_dupes() {
    // Two consecutive decisions whose decision-rate indices map to
    // the same audio-rate sample after rounding (rare but possible
    // for non-integer ratios with very dense decisions) must
    // collapse so the monotonic-boundary precondition of
    // `apply_envelope` holds. Construct an artificial case at a
    // weird ratio.
    let audio = vec![0.5_f32; 64];
    // Decisions at 0 and 1 sample @ 16 kHz, output rate 1 kHz: both
    // map to sample 0. After dedup we keep the first only and
    // `apply_envelope` accepts the input.
    let decisions = vec![(0_usize, false), (1_usize, true)];
    let gate_cfg = GateConfig::default();
    let out = apply_envelope_dual_rate(&audio, &decisions, 1_000, 16_000, gate_cfg)
        .expect("dual-rate envelope tolerates collapsed boundaries");
    assert_eq!(out.len(), 64);
}

#[test]
fn shift_off_on_noop_when_shift_is_zero() {
    let mut d = vec![(0_usize, false), (1000, true), (2000, false)];
    let snapshot = d.clone();
    shift_off_on_decisions_back(&mut d, 0);
    assert_eq!(d, snapshot);
}

#[test]
fn shift_off_on_moves_only_on_boundaries() {
    // OFF at 0, ON at 1000, OFF at 2000 → shift 300 → ON moves to
    // 700, the OFFs stay put.
    let mut d = vec![(0_usize, false), (1000, true), (2000, false)];
    shift_off_on_decisions_back(&mut d, 300);
    assert_eq!(d, vec![(0, false), (700, true), (2000, false)]);
}

#[test]
fn shift_off_on_floors_at_prev_boundary() {
    // ON at 500 with shift 1000 would underflow into the prior OFF
    // region (0..500). The shift floors at 0 (the previous
    // boundary), and the collapsed OFF entry at 0 is removed.
    let mut d = vec![(0_usize, false), (500, true)];
    shift_off_on_decisions_back(&mut d, 1000);
    assert_eq!(d, vec![(0, true)]);
}

#[test]
fn shift_off_on_collapses_zero_length_runs() {
    // OFF at 0, ON at 500, OFF at 600, ON at 800 → shift 200 →
    // second ON lands on 600 (== prior OFF). The OFF disappears.
    let mut d = vec![(0_usize, false), (500, true), (600, false), (800, true)];
    shift_off_on_decisions_back(&mut d, 200);
    assert_eq!(d, vec![(0, false), (300, true), (600, true)]);
}

#[test]
fn pre_roll_samples_decision_matches_default() {
    // pre_roll_ms = 100 at 16 kHz = 1600 samples.
    let cfg = PipelineConfig::<f32>::default();
    assert_eq!(cfg.pre_roll_ms, 100);
    assert_eq!(cfg.pre_roll_samples_decision(), 1_600);
}

#[test]
fn audio_for_decisions_borrows_when_rates_match() {
    let audio = vec![0.1_f32, 0.2, 0.3];
    let cow = audio_for_decisions(&audio, 16_000, 16_000).unwrap();
    assert!(matches!(cow, DecisionAudio::Borrowed(_)));
    assert_eq!(cow.as_slice(), audio.as_slice());
}

#[test]
fn audio_for_decisions_resamples_when_rates_differ() {
    // 1 s @ 48 kHz of silence → roughly 16 kHz worth of samples after
    // the windowed-sinc downsampler. The exact length is bounded by
    // `resample_to`'s tests; we just verify the borrow/owned split.
    let audio = vec![0.0_f32; 48_000];
    let cow = audio_for_decisions(&audio, 48_000, 16_000).unwrap();
    assert!(matches!(cow, DecisionAudio::Owned(_)));
    let dec = cow.as_slice();
    let expected = 16_000_i32;
    let slack = expected / 100;
    let got = dec.len() as i32;
    assert!(
        (got - expected).abs() <= slack,
        "expected ≈ {expected} samples (±{slack}), got {got}"
    );
}

fn unit_vec(v: &[f32]) -> Vec<f32> {
    let n = v.iter().map(|x| x * x).sum::<f32>().sqrt();
    v.iter().map(|x| x / n).collect()
}

#[test]
fn apply_refresh_result_bootstrap_seeds_first_anchor() {
    let mut pool = EmbeddingPool::new(EmbeddingPoolConfig {
        allow_bootstrap_from_runtime: true,
        ..EmbeddingPoolConfig::default()
    });
    let gate_cfg = GateConfig::default();
    let mut score = ScoreState::new();
    let mut events: Vec<AutoLearnEvent<f32>> = Vec::new();
    let consecutive_speech_ms = gate_cfg.min_continuous_speech_sec * 1000.0;

    apply_refresh_result(
        unit_vec(&[1.0, 0.0, 0.0]),
        150.0, // f0_mu — non-zero so the voiced guard passes
        42,
        consecutive_speech_ms,
        &mut pool,
        &[],
        &gate_cfg,
        true,
        1.0,
        &mut score,
        &mut events,
    );

    assert_eq!(pool.anchors().len(), 1);
    assert!((pool.metadata().f0_mu - 150.0).abs() < 1e-5);
    assert_eq!(events.len(), 1);
    assert!(matches!(events[0].kind, AutoLearnKind::BootstrapSeed));
}

#[test]
fn apply_refresh_result_bootstrap_disabled_by_default() {
    // Without the opt-in flag, an empty pool emits no events and
    // adds no anchors regardless of how good the input looks.
    let mut pool = EmbeddingPool::new(EmbeddingPoolConfig::default());
    let gate_cfg = GateConfig::default();
    let mut score = ScoreState::new();
    let mut events: Vec<AutoLearnEvent<f32>> = Vec::new();

    apply_refresh_result(
        unit_vec(&[1.0, 0.0, 0.0]),
        150.0,
        0,
        10_000.0,
        &mut pool,
        &[],
        &gate_cfg,
        true,
        1.0,
        &mut score,
        &mut events,
    );

    assert!(pool.is_empty());
    assert!(events.is_empty());
}

#[test]
fn apply_refresh_result_bootstrap_requires_voiced_frame() {
    // Bootstrap mustn't seed off an unvoiced refresh (f0_mu == 0
    // or NaN), otherwise breath / background noise during a long
    // VAD-positive stretch would set the wrong anchor.
    let mut pool = EmbeddingPool::new(EmbeddingPoolConfig {
        allow_bootstrap_from_runtime: true,
        ..EmbeddingPoolConfig::default()
    });
    let gate_cfg = GateConfig::default();
    let mut score = ScoreState::new();
    let mut events: Vec<AutoLearnEvent<f32>> = Vec::new();

    apply_refresh_result(
        unit_vec(&[1.0, 0.0, 0.0]),
        0.0,
        0,
        10_000.0,
        &mut pool,
        &[],
        &gate_cfg,
        true,
        1.0,
        &mut score,
        &mut events,
    );

    assert!(pool.is_empty());
    assert!(events.is_empty());
}

#[test]
fn apply_refresh_result_bootstrap_requires_min_speech_run() {
    let mut pool = EmbeddingPool::new(EmbeddingPoolConfig {
        allow_bootstrap_from_runtime: true,
        ..EmbeddingPoolConfig::default()
    });
    let gate_cfg = GateConfig::default();
    let mut score = ScoreState::new();
    let mut events: Vec<AutoLearnEvent<f32>> = Vec::new();
    let too_short = gate_cfg.min_continuous_speech_sec * 1000.0 - 1.0;

    apply_refresh_result(
        unit_vec(&[1.0, 0.0, 0.0]),
        150.0,
        0,
        too_short,
        &mut pool,
        &[],
        &gate_cfg,
        true,
        1.0,
        &mut score,
        &mut events,
    );

    assert!(pool.is_empty());
    assert!(events.is_empty());
}

#[test]
fn identity_returns_input() {
    let audio = vec![0.1_f32, -0.2, 0.3];
    let out = resample_to(&audio, 16_000, 16_000).unwrap();
    assert_eq!(out, audio);
}

#[test]
fn empty_input_returns_empty() {
    let out = resample_to(&[], 44_100, 16_000).unwrap();
    assert!(out.is_empty());
}

#[test]
fn downsample_changes_length_proportionally() {
    // 1 s @ 48 kHz → ≈ 16 kHz worth of samples (allow ±1 % slack
    // because windowed-sinc with delay correction doesn't land on
    // an exact ratio).
    let audio = vec![0.0_f32; 48_000];
    let out = resample_to(&audio, 48_000, 16_000).unwrap();
    let expected = 16_000_i32;
    let slack = expected / 100; // ±1 %
    let got = out.len() as i32;
    assert!(
        (got - expected).abs() <= slack,
        "expected ≈ {expected} samples (±{slack}), got {got}"
    );
}
