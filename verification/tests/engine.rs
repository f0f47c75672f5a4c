use mellonella::apo::{
    choose_pool, object_config, resolve_enrollment_path, LockError, MellonellaApo, Negotiation,
    WaveFormat,
};
use mellonella::assembly::{PipelineComponents, StreamingPipeline};
use mellonella::chain::{ChainMode, Memory};
use mellonella::config::StreamingConfig;
use mellonella::dfn3::SAMPLES_PER_CHUNK;
use mellonella::embedding::{EmbeddingError, EMBEDDING_DIM};
use mellonella::enrollment::{EmbeddingPool, EmbeddingPoolConfig};
use mellonella::gating::GateConfig;
use mellonella::models::Model;
use mellonella::offline::ProcessResult;
use mellonella::overlap::OverlapReply;
use mellonella::pipeline::{enroll_from_recording, PipelineConfig, PipelineError};
use mellonella::refresh::{Received, RefreshChannel};
use mellonella::resample::ResampleError;
use mellonella::session::{LiveWorker, SessionEvent, WorkerStep};
use mellonella::streaming::{Kit, StreamingOutput, StreamingState};
use mellonella::tse::{Tensor, TseConfig, TseError, TseReply};
use mellonella::tse_stage::TseStageConfig;
use mellonella::vad::{SileroVad, VadReply, CHUNK_SAMPLES_16K, STATE_HIDDEN};
use std::cell::RefCell;
use std::collections::VecDeque;

const TSE_CHUNK: usize = 160;

// ---- stand-ins for the networks -------------------------------------------

/// Loud is speech.
fn vad_run(x: &Vec<f32>, state: &Vec<f32>, _sr: u32) -> Result<VadReply<f32>, EmbeddingError> {
    let level = x.iter().map(|v| v.abs()).sum::<f32>() / x.len() as f32;
    Ok(VadReply {
        dims: vec![1, 1],
        data: vec![if level > 0.02 { 0.9 } else { 0.1 }],
        state_dims: vec![2, 1, STATE_HIDDEN as i64],
        state_data: state.clone(),
    })
}

/// Very loud is the target's voice, the rest is somebody else's.
fn embed_run(w: &Vec<f32>) -> Result<(Vec<f32>, f32), EmbeddingError> {
    let peak = w.iter().fold(0.0_f32, |m, v| m.max(v.abs()));
    let mut e = vec![0.0; EMBEDDING_DIM];
    if peak > 0.4 {
        e[0] = 1.0;
    } else {
        e[1] = 1.0;
    }
    Ok((e, 150.0))
}

fn send_none(_: Vec<f32>) -> bool {
    false
}

fn receive_none(_: bool) -> Received<f32> {
    Received::Disconnected
}

fn pitch_run(w: &Vec<f32>) -> Option<f32> {
    let peak = w.iter().fold(0.0_f32, |m, v| m.max(v.abs()));
    if peak > 0.02 {
        Some(150.0)
    } else {
        None
    }
}

/// Overlap wherever the window is negative on average.
fn infer_run(w: &Vec<f32>) -> Result<OverlapReply<f32>, EmbeddingError> {
    let mean = w.iter().sum::<f32>() / w.len() as f32;
    let class = if mean < 0.0 { 5 } else { 1 };
    let mut data = vec![-20.0; 7];
    data[class] = 20.0;
    Ok(OverlapReply {
        dims: vec![1, 1, 7],
        data,
    })
}

fn extract_run(
    chunk: &[f32],
    _cond: &[f32],
    state: &Vec<Tensor<f32>>,
) -> Result<TseReply<f32>, TseError> {
    let state = state
        .iter()
        .map(|t| Tensor {
            shape: t.shape.clone(),
            data: t.data.clone(),
        })
        .collect();
    Ok(TseReply {
        dims: vec![1, chunk.len() as i64],
        extracted: chunk.iter().map(|v| v * 0.5).collect(),
        state,
    })
}

fn enhance_run(chunk: &Vec<f32>) -> Result<Vec<f32>, EmbeddingError> {
    let mut out: Vec<f32> = chunk.iter().map(|v| v * 0.25).collect();
    out.resize(SAMPLES_PER_CHUNK, 0.0);
    Ok(out)
}

fn enhance_fails(_: &Vec<f32>) -> Result<Vec<f32>, EmbeddingError> {
    Err(EmbeddingError::Ort("no model".to_string()))
}

fn next_input_run() -> usize {
    3 * CHUNK_SAMPLES_16K
}

fn resample_run(x: &Vec<f32>) -> Result<Vec<f32>, String> {
    Ok(x.iter().step_by(3).copied().collect())
}

fn exp(x: f32) -> f32 {
    x.exp()
}

fn sqrt(x: f32) -> f32 {
    x.sqrt()
}

fn pow10(x: f32) -> f32 {
    10.0_f32.powf(x)
}

fn tanh(x: f32) -> f32 {
    x.tanh()
}

type V = fn(&Vec<f32>, &Vec<f32>, u32) -> Result<VadReply<f32>, EmbeddingError>;
type R = fn(&Vec<f32>) -> Result<(Vec<f32>, f32), EmbeddingError>;
type S = Box<dyn Fn(Vec<f32>) -> bool>;
type C = Box<dyn Fn(bool) -> Received<f32>>;
type P = fn(&Vec<f32>) -> Option<f32>;
type O = fn(&Vec<f32>) -> Result<OverlapReply<f32>, EmbeddingError>;
type M = fn(&[f32], &[f32], &Vec<Tensor<f32>>) -> Result<TseReply<f32>, TseError>;
type D = fn(&Vec<f32>) -> Result<Vec<f32>, EmbeddingError>;
type I = fn() -> usize;
type J = fn(&Vec<f32>) -> Result<Vec<f32>, String>;
type F = fn(f32) -> f32;
type Z = Box<dyn Fn(Memory)>;
type TestKit = Kit<f32, V, R, S, C, P, O, M, D, I, J, F, F, F, F, Z>;
type TestPipeline = StreamingPipeline<f32, V, R, S, C, P, O, M, D, I, J, F, F, F, F, Z>;
type TestWorker = LiveWorker<f32, V, R, S, C, P, O, M, D, I, J, F, F, F, F, Z, D>;
type TestApo = MellonellaApo<f32, V, R, S, C, P, O, M, D, I, J, F, F, F, F, Z>;

fn kit() -> TestKit {
    Kit {
        vad: vad_run,
        embed: embed_run,
        send: Box::new(send_none),
        receive: Box::new(receive_none),
        lost: "async worker disconnected".to_string(),
        pitch: pitch_run,
        infer: infer_run,
        extract: extract_run,
        enhance: enhance_run,
        next_input: next_input_run,
        resample: resample_run,
        exp,
        sqrt,
        pow10,
        tanh,
        forget: Box::new(|_| {}),
        eps: 1e-12,
    }
}

/// A kit with a worker that answers at once.
fn worker_kit() -> TestKit {
    let queue: std::rc::Rc<RefCell<VecDeque<Vec<f32>>>> = Default::default();
    let inbox = queue.clone();
    Kit {
        send: Box::new(move |w: Vec<f32>| {
            inbox.borrow_mut().push_back(w);
            true
        }),
        receive: Box::new(move |_| match queue.borrow_mut().pop_front() {
            Some(w) => Received::Ready(embed_run(&w)),
            None => Received::Empty,
        }),
        ..kit()
    }
}

fn components() -> PipelineComponents<f32> {
    PipelineComponents {
        vad: SileroVad::new(16_000),
        cohort: Vec::new(),
        tse: None,
    }
}

fn pool() -> EmbeddingPool<f32> {
    let mut p = EmbeddingPool::new(EmbeddingPoolConfig::default());
    let mut anchor = vec![0.0; EMBEDDING_DIM];
    anchor[0] = 1.0;
    p.add_anchors(vec![anchor]);
    p.set_f0_stats(150.0, 20.0);
    p
}

fn load_tse(path: &str) -> Result<(), TseError> {
    if path == "/dev/null" {
        Err(TseError::Ort("not a model".to_string()))
    } else {
        Ok(())
    }
}

fn load(path: &str) -> Result<(), EmbeddingError> {
    if path == "/dev/null" {
        Err(EmbeddingError::Ort("not a model".to_string()))
    } else {
        Ok(())
    }
}

fn bridge(_: u32, _: u32) -> Result<(), String> {
    Ok(())
}

fn spawn() -> Result<(), String> {
    Ok(())
}

fn build(cfg: StreamingConfig<f32>, kit: TestKit) -> Result<TestPipeline, PipelineError> {
    StreamingPipeline::new(pool(), cfg, components(), kit, &load_tse, &load, &bridge, &spawn)
}

fn started(cfg: StreamingConfig<f32>, kit: TestKit) -> TestPipeline {
    match build(cfg, kit) {
        Ok(p) => p,
        Err(e) => panic!("{}", e.message()),
    }
}

fn interpolate(a: &[f32], src: u32, dst: u32) -> Result<Vec<Vec<f32>>, ResampleError> {
    let n = a.len() * dst as usize / src as usize;
    Ok(vec![(0..n).map(|i| a[i * src as usize / dst as usize]).collect()])
}

fn offline(
    audio: &[f32],
    sr: u32,
    cfg: &PipelineConfig<f32>,
    kit: &TestKit,
    comp: &mut PipelineComponents<f32>,
) -> Result<ProcessResult<f32>, PipelineError> {
    kit.process_offline(
        audio,
        sr,
        &mut pool(),
        cfg,
        &GateConfig::default(),
        comp,
        &load_tse,
        &bridge,
        &interpolate,
    )
}

fn ok<T>(r: Result<T, PipelineError>) -> T {
    match r {
        Ok(v) => v,
        Err(e) => panic!("{}", e.message()),
    }
}

/// Harmonics of `f0`, at most half of full scale.
fn synth_waveform(sr: u32, secs: f32, f0: f32) -> Vec<f32> {
    let n = (sr as f32 * secs) as usize;
    let mut wave = vec![0.0_f32; n];
    for (i, slot) in wave.iter_mut().enumerate() {
        let t = i as f32 / sr as f32;
        let mut v = 0.0;
        for h in 1..=5 {
            v += (2.0 * std::f32::consts::PI * f0 * h as f32 * t).sin() / h as f32;
        }
        *slot = v;
    }
    let peak = wave.iter().map(|v| v.abs()).fold(0.0_f32, f32::max);
    for v in &mut wave {
        *v = *v / peak * 0.5;
    }
    wave
}

/// Silence, the target's voice, silence, somebody else's voice.
fn scene(sr: u32) -> Vec<f32> {
    let s = sr as usize;
    let mut a = vec![0.0; s / 2];
    a.extend(synth_waveform(sr, 2.0, 150.0));
    a.extend(vec![0.0; s / 2]);
    a.extend(synth_waveform(sr, 2.5, 210.0).iter().map(|v| v * 0.5));
    a
}

fn concat_outputs(parts: Vec<StreamingOutput<f32>>) -> StreamingOutput<f32> {
    let mut it = parts.into_iter();
    let mut acc = it.next().unwrap();
    for p in it {
        acc.append(p);
    }
    acc
}

fn config(sr: u32) -> StreamingConfig<f32> {
    StreamingConfig {
        audio_sample_rate: sr,
        diagnostics: true,
        ..StreamingConfig::default()
    }
}

fn run_streaming_once(cfg: StreamingConfig<f32>, audio: &[f32]) -> StreamingOutput<f32> {
    let mut p = started(cfg, kit());
    let a = ok(p.push_samples(audio));
    let b = ok(p.flush());
    concat_outputs(vec![a, b])
}

// ---- recordings and streams ------------------------------------------------

#[test]
fn state_new_identity_rate_has_no_resampler() {
    let mut cfg = StreamingConfig::<f32>::default();
    cfg.audio_sample_rate = cfg.pipeline.sample_rate;
    let state = ok(StreamingState::new(&cfg, &bridge, &(exp as F)));
    assert!(!state.0.dual_rate);
    assert_eq!(kit().input_per_frame(state.0.dual_rate), CHUNK_SAMPLES_16K);
    // Where the rates differ, the resampler says what it wants.
    let cfg = StreamingConfig::<f32>::default();
    let state = ok(StreamingState::new(&cfg, &bridge, &(exp as F)));
    assert_eq!(kit().input_per_frame(state.0.dual_rate), next_input_run());
}

#[test]
fn process_offline_runs_end_to_end() {
    let audio = synth_waveform(16_000, 2.0, 180.0);
    let result = ok(offline(&audio, 16_000, &PipelineConfig::default(), &kit(), &mut components()));

    // Output audio is the same length as input.
    assert_eq!(result.audio.len(), audio.len());

    // Per-frame arrays are aligned.
    assert_eq!(result.gate_per_frame.len(), result.score_per_frame.len());
    assert_eq!(result.gate_per_frame.len(), result.cos_sim_max_per_frame.len());
    assert_eq!(result.gate_per_frame.len(), result.f0_match_per_frame.len());

    // Every full frame, plus one zero-padded frame for the rest.
    let n_frames_expected = audio.len().div_ceil(CHUNK_SAMPLES_16K);
    assert_eq!(result.gate_per_frame.len(), n_frames_expected);

    // Decisions always start at sample 0.
    assert!(!result.gate_decisions.is_empty());
    assert_eq!(result.gate_decisions[0].0, 0);

    // No NaNs leaked into the gated output.
    assert!(result.audio.iter().all(|v| v.is_finite()));
}

#[test]
fn process_offline_async_runs_end_to_end() {
    let audio = synth_waveform(16_000, 2.0, 180.0);
    let cfg = PipelineConfig {
        async_refresh: true,
        ..PipelineConfig::default()
    };
    let result = ok(offline(&audio, 16_000, &cfg, &worker_kit(), &mut components()));

    assert_eq!(result.audio.len(), audio.len());
    assert_eq!(result.gate_per_frame.len(), result.score_per_frame.len());
    // The rest that fills no frame is dropped here.
    let n_frames_expected = audio.len() / CHUNK_SAMPLES_16K;
    assert_eq!(result.gate_per_frame.len(), n_frames_expected);
    assert!(!result.gate_decisions.is_empty());
    assert_eq!(result.gate_decisions[0].0, 0);
    assert!(result.audio.iter().all(|v| v.is_finite()));
    assert!(result.score_per_frame.iter().all(|v| v.is_finite()));
    assert!(result.gate_per_frame.iter().any(|&g| g));
}

#[test]
fn process_offline_default_is_byte_identical_with_tse_off() {
    let audio = synth_waveform(16_000, 2.0, 180.0);
    let cfg = PipelineConfig::default();
    let result_a = ok(offline(&audio, 16_000, &cfg, &kit(), &mut components()));
    let result_b = ok(offline(&audio, 16_000, &cfg, &kit(), &mut components()));
    assert!(!result_a.tse_applied);
    assert!(!result_b.tse_applied);
    assert_eq!(result_a.audio.len(), audio.len());
    assert_eq!(result_b.audio.len(), audio.len());
    assert_eq!(result_a.audio, result_b.audio, "non-TSE runs diverged");
    assert_eq!(result_a.gate_per_frame, result_b.gate_per_frame);
}

fn tse_config(path: &str) -> PipelineConfig<f32> {
    PipelineConfig {
        tse: Some(TseStageConfig {
            onnx_path: path.to_string(),
            chunk_samples: TSE_CHUNK,
            model: TseConfig::poc_16k(),
        }),
        ..PipelineConfig::default()
    }
}

#[test]
fn process_offline_with_tse_extracts_non_trivial_audio() {
    let audio = synth_waveform(16_000, 2.0, 180.0);
    let cfg = tse_config("tse_smoke.onnx");
    let mut comp = components();
    let result = ok(offline(&audio, 16_000, &cfg, &kit(), &mut comp));
    assert!(result.tse_applied);
    assert_eq!(result.audio.len(), audio.len());
    assert!(result.audio.iter().all(|v| v.is_finite()));
    assert!(result.audio != audio, "TSE output equals input — model did not run");

    // The stage is kept for the next run.
    assert!(comp.tse.is_some());
    let result_2 = ok(offline(&audio, 16_000, &cfg, &kit(), &mut comp));
    assert!(result_2.tse_applied);
    assert_eq!(result_2.audio.len(), audio.len());
    assert!(result_2.audio.iter().all(|v| v.is_finite()));
    assert_eq!(result.audio, result_2.audio);
}

#[test]
fn process_offline_with_tse_rejects_non_16k_audio_rate() {
    let audio = synth_waveform(48_000, 0.5, 180.0);
    match offline(&audio, 48_000, &tse_config("/dev/null"), &kit(), &mut components()) {
        Err(err) => match err {
            PipelineError::TseRateMismatch {
                audio_sr,
                expected_sr,
            } => {
                assert_eq!(audio_sr, 48_000);
                assert_eq!(expected_sr, 16_000);
                let msg = err.message();
                assert!(
                    msg.contains("16 kHz"),
                    "expected 16 kHz in error message, got {msg:?}"
                );
            }
            other => panic!("expected TseRateMismatch, got {other:?}"),
        },
        Ok(_) => panic!("TSE at 48 kHz must be rejected"),
    }
}

#[test]
fn streaming_identity_rate_per_frame_matches_offline() {
    let audio = scene(16_000);
    let off = ok(offline(&audio, 16_000, &PipelineConfig::default(), &kit(), &mut components()));
    let streaming = run_streaming_once(config(16_000), &audio);
    assert_eq!(streaming.gate_per_frame, off.gate_per_frame);
    for (i, (&s, &o)) in streaming
        .score_per_frame
        .iter()
        .zip(off.score_per_frame.iter())
        .enumerate()
    {
        assert!(
            (s - o).abs() <= 1e-6,
            "score_per_frame[{i}]: streaming={s} offline={o}"
        );
    }
    // The target opens it, somebody else does not.
    assert!(streaming.gate_per_frame.iter().any(|&g| g));
    assert!(!streaming.gate_per_frame.last().unwrap());
}

#[test]
fn streaming_turn_detect_identity_rate_matches_offline() {
    let audio = scene(16_000);
    let turn = || PipelineConfig {
        fast_cue_enabled: true,
        turn_detect_enabled: true,
        offset_fail_closed: true,
        ..PipelineConfig::default()
    };
    let off = ok(offline(&audio, 16_000, &turn(), &kit(), &mut components()));
    let cfg = StreamingConfig {
        pipeline: turn(),
        ..config(16_000)
    };
    let streaming = run_streaming_once(cfg, &audio);
    assert_eq!(streaming.gate_per_frame, off.gate_per_frame);
}

#[test]
fn streaming_identity_rate_chunk_invariance() {
    let audio = scene(16_000);
    let run = |chunk_size: usize| {
        let mut p = started(config(16_000), kit());
        let mut parts: Vec<StreamingOutput<f32>> =
            audio.chunks(chunk_size).map(|c| ok(p.push_samples(c))).collect();
        parts.push(ok(p.flush()));
        concat_outputs(parts)
    };
    let one_shot = run(audio.len());
    // Smaller than one frame (333), exactly one frame (512), prime and
    // not aligned (997), larger than a frame (1024).
    for size in [333, 512, 997, 1024] {
        let other = run(size);
        assert_eq!(one_shot.audio.len(), other.audio.len());
        assert_eq!(one_shot.gate_per_frame, other.gate_per_frame, "chunk size {size}");
        assert_eq!(one_shot.gate_decisions, other.gate_decisions, "chunk size {size}");
        for (i, (a, b)) in one_shot.audio.iter().zip(other.audio.iter()).enumerate() {
            assert!((a - b).abs() <= 1e-6, "audio[{i}] diverges for chunk size {size}");
        }
    }
}

#[test]
fn streaming_dual_rate_well_formed() {
    // 1 s of 48 kHz audio is about 31 frames of 32 ms.
    let audio = synth_waveform(48_000, 1.0, 180.0);
    let combined = run_streaming_once(config(48_000), &audio);
    let expected = audio.len() as i64;
    let got = combined.audio.len() as i64;
    let slack = expected / 20;
    assert!(
        (got - expected).abs() <= slack,
        "output length {got} far from input {expected} (slack {slack})",
    );
    assert!(combined.gate_per_frame.len() >= 20);
}

#[test]
fn streaming_default_is_byte_identical_with_tse_off() {
    let audio = synth_waveform(16_000, 2.0, 180.0);
    let result_a = run_streaming_once(config(16_000), &audio);
    let result_b = run_streaming_once(config(16_000), &audio);
    assert!(!result_a.tse_applied);
    assert!(!result_b.tse_applied);
    assert_eq!(result_a.audio, result_b.audio, "TSE-off streaming runs diverged");
    assert_eq!(result_a.gate_per_frame, result_b.gate_per_frame);
    assert_eq!(result_a.audio.len(), audio.len());
}

#[test]
fn streaming_with_tse_extracts_non_trivial_audio() {
    let audio = synth_waveform(16_000, 2.0, 180.0);
    let cfg = StreamingConfig {
        pipeline: tse_config("tse_smoke.onnx"),
        ..config(16_000)
    };
    let result = run_streaming_once(cfg, &audio);
    assert!(result.tse_applied, "TSE-on stream did not flag tse_applied");
    let expected = audio.len() as i64;
    let got = result.audio.len() as i64;
    let slack = (TSE_CHUNK as i64).max(expected / 50);
    assert!((got - expected).abs() <= slack, "{got} far from {expected}");
    assert!(result.audio.iter().all(|v| v.is_finite()));
    let same = result.audio.len() == audio.len()
        && result
            .audio
            .iter()
            .zip(audio.iter())
            .all(|(a, b)| (a - b).abs() <= 1e-9);
    assert!(!same, "TSE streaming output equals input — model did not run");
}

#[test]
fn streaming_with_tse_rejects_audio_sr_mismatch() {
    // The rate is checked before the model is read.
    let cfg = StreamingConfig {
        pipeline: tse_config("/dev/null"),
        ..config(48_000)
    };
    match build(cfg, kit()) {
        Err(PipelineError::TseRateMismatch {
            audio_sr,
            expected_sr,
        }) => {
            assert_eq!(audio_sr, 48_000);
            assert_eq!(expected_sr, 16_000);
            let err = PipelineError::TseRateMismatch {
                audio_sr,
                expected_sr,
            };
            let msg = err.message();
            assert!(msg.contains("16000") || msg.contains("16 kHz"), "{msg:?}");
        }
        Err(other) => panic!("expected TseRateMismatch, got {other:?}"),
        Ok(_) => panic!("expected TseRateMismatch, got Ok"),
    }

    // Refreshes on a worker go together with extraction; only the model
    // itself cannot be read.
    let mut p_cfg = tse_config("/dev/null");
    p_cfg.async_refresh = true;
    let cfg = StreamingConfig {
        pipeline: p_cfg,
        ..config(16_000)
    };
    match build(cfg, worker_kit()) {
        Err(PipelineError::TseStage(_)) => {}
        Err(other) => panic!("expected TseStage(...) error from /dev/null, got {other:?}"),
        Ok(_) => panic!("expected TseStage error from /dev/null, got Ok"),
    }
}

#[test]
fn streaming_with_tse_matches_offline_within_tolerance() {
    let audio = synth_waveform(16_000, 2.0, 180.0);
    let off = ok(offline(&audio, 16_000, &tse_config("m.onnx"), &kit(), &mut components()));
    assert!(off.tse_applied);

    let cfg = StreamingConfig {
        pipeline: tse_config("m.onnx"),
        ..config(16_000)
    };
    let mut p = started(cfg, kit());
    let mut parts = Vec::new();
    let mut start = 0_usize;
    for &chunk in &[1024_usize, 333, 997, 512] {
        let end = (start + chunk).min(audio.len());
        parts.push(ok(p.push_samples(&audio[start..end])));
        start = end;
    }
    parts.push(ok(p.push_samples(&audio[start..])));
    parts.push(ok(p.flush()));
    let streaming = concat_outputs(parts);
    assert!(streaming.tse_applied);
    assert_eq!(streaming.gate_per_frame, off.gate_per_frame);
    let expected = off.audio.len() as i64;
    let got = streaming.audio.len() as i64;
    let slack = (TSE_CHUNK as i64).max(expected / 50);
    assert!((got - expected).abs() <= slack, "{got} far from {expected}");
}

#[test]
fn leading_silence_then_speech_does_not_produce_nan() {
    let mut signal: Vec<f32> = vec![0.0; 4_800];
    signal.extend(synth_waveform(48_000, 4.0, 150.0));
    let cfg = StreamingConfig {
        pipeline: PipelineConfig {
            tse: Some(TseStageConfig::new_prod_48k("m.onnx")),
            ..PipelineConfig::default()
        },
        dfn3_onnx_path: Some("d.onnx".to_string()),
        diagnostics: false,
        ..config(48_000)
    };
    let mut p = started(cfg, kit());
    let mut all_output: Vec<f32> = Vec::new();
    for chunk in signal.chunks(480) {
        all_output.extend(ok(p.push_samples(chunk)).audio);
    }
    all_output.extend(ok(p.flush()).audio);
    assert!(all_output.iter().all(|s| s.is_finite()));
    assert!(!all_output.is_empty());
}

#[test]
fn adaptive_chain_changes_over_and_back() {
    // One sign of the signal stands for one speaker, the other for two.
    let cfg = || StreamingConfig {
        pipeline: PipelineConfig {
            tse: Some(TseStageConfig::new_prod_48k("m.onnx")),
            ..PipelineConfig::default()
        },
        dfn3_onnx_path: Some("d.onnx".to_string()),
        overlap_onnx_path: Some("o.onnx".to_string()),
        ..config(48_000)
    };
    let mut p = started(cfg(), kit());
    assert_eq!(p.chain_mode(), ChainMode::Solo);
    ok(p.push_samples(&vec![0.3; 3 * 48_000]));
    assert_eq!(p.chain_mode(), ChainMode::Solo);
    ok(p.push_samples(&vec![-0.3; 3 * 48_000]));
    assert_eq!(p.chain_mode(), ChainMode::Overlap);
    ok(p.push_samples(&vec![0.3; 5 * 48_000]));
    assert_eq!(p.chain_mode(), ChainMode::Solo);
    p.reset();
    assert_eq!(p.chain_mode(), ChainMode::Solo);
}

#[test]
fn silence_closes_and_events_are_logged() {
    let cfg = StreamingConfig {
        pipeline: PipelineConfig {
            silence_force_off_ms: 100.0,
            ..PipelineConfig::default()
        },
        ..config(16_000)
    };
    let mut audio = synth_waveform(16_000, 2.0, 150.0);
    audio.extend(vec![0.0; 8_000]);
    let out = run_streaming_once(cfg, &audio);
    assert!(out.gate_per_frame.iter().any(|&g| g));
    assert!(!out.gate_per_frame.last().unwrap());
    assert!(!out.events.is_empty());
}

#[test]
fn worker_refreshes_match_those_at_once_in_the_end() {
    let mut cfg = config(16_000);
    cfg.pipeline.async_refresh = true;
    let mut p = started(cfg, worker_kit());
    let a = ok(p.push_samples(&scene(16_000)));
    let b = ok(p.flush());
    let out = concat_outputs(vec![a, b]);
    assert!(out.gate_per_frame.iter().any(|&g| g));
    let joined = || true;
    let (pool, comp) = ok(p.into_parts(&joined));
    assert!(!pool.is_empty());
    assert!(comp.tse.is_none());
}

#[test]
fn flush_waits_for_a_busy_worker() {
    let busy = || -> TestKit {
        let kit = worker_kit();
        let receive = kit.receive;
        Kit {
            receive: Box::new(move |wait| if wait { receive(true) } else { Received::Empty }),
            ..worker_kit_without(kit.send)
        }
    };
    let mut cfg = config(16_000);
    cfg.pipeline.async_refresh = true;
    cfg.gate.theta_pass = 2.0;
    let mut p = started(cfg, busy());
    let a = ok(p.push_samples(&synth_waveform(16_000, 2.0, 150.0)));
    // Nothing came back while the frames ran; the score moves at the end.
    assert!(a.score_per_frame.iter().all(|&s| s == a.score_per_frame[0]));
    let before = p.state.score.last_score;
    ok(p.flush());
    assert_ne!(p.state.score.last_score, before);
}

fn worker_kit_without(send: S) -> TestKit {
    Kit { send, ..kit() }
}

#[test]
fn memories_are_told_to_forget() {
    let told: std::rc::Rc<RefCell<Vec<Memory>>> = Default::default();
    let log = told.clone();
    let noted = Kit {
        forget: Box::new(move |m| log.borrow_mut().push(m)) as Z,
        ..kit()
    };
    let cfg = StreamingConfig {
        pipeline: PipelineConfig {
            tse: Some(TseStageConfig::new_prod_48k("m.onnx")),
            ..PipelineConfig::default()
        },
        dfn3_onnx_path: Some("d.onnx".to_string()),
        overlap_onnx_path: Some("o.onnx".to_string()),
        ..config(48_000)
    };
    let mut p = started(cfg, noted);
    ok(p.push_samples(&vec![0.3; 3 * 48_000]));
    assert!(told.borrow().is_empty());
    ok(p.push_samples(&vec![-0.3; 3 * 48_000]));
    assert_eq!(*told.borrow(), vec![Memory::Enhancer]);
    p.reset();
    assert_eq!(
        *told.borrow(),
        vec![Memory::Enhancer, Memory::Resampler, Memory::Enhancer]
    );
}

#[test]
fn lost_worker_is_reported() {
    let mut cfg = config(16_000);
    cfg.pipeline.async_refresh = true;
    let gone = Kit {
        send: Box::new(|_: Vec<f32>| true) as S,
        ..kit()
    };
    let mut p = started(cfg, gone);
    match p.push_samples(&synth_waveform(16_000, 2.0, 150.0)) {
        Err(PipelineError::Embedding(EmbeddingError::Ort(t))) => {
            assert_eq!(t, "async worker disconnected");
        }
        _ => panic!("the worker is gone"),
    }
}

#[test]
fn enrolled_voice_survives_a_stream() {
    let mut cfg = config(16_000);
    cfg.gate.theta_learn = 0.0;
    cfg.gate.theta_learn_as_norm = 0.0;
    cfg.gate.theta_f0 = 0.0;
    cfg.gate.min_continuous_speech_sec = 0.0;
    let mut p = started(cfg, kit());
    let anchors = p.pool().anchors().to_vec();
    let a = ok(p.push_samples(&scene(16_000)));
    let b = ok(p.flush());
    assert!(!concat_outputs(vec![a, b]).events.is_empty());
    assert!(!p.pool().auto_learn().is_empty());
    assert_eq!(p.pool().anchors(), &anchors[..]);
    assert_eq!(p.pool().metadata().f0_mu, 150.0);
}

#[test]
fn second_flush_gives_nothing() {
    let mut p = started(config(16_000), kit());
    ok(p.push_samples(&synth_waveform(16_000, 1.0, 150.0)));
    ok(p.flush());
    let again = ok(p.flush());
    assert!(again.audio.is_empty() && again.gate_per_frame.is_empty());
    assert!(again.gate_decisions.is_empty() && again.events.is_empty());
}

#[test]
fn extracted_voice_opens_where_the_decisions_say() {
    // Somebody else first, then the target, at three times the decision rate.
    let mut audio: Vec<f32> =
        synth_waveform(48_000, 1.5, 210.0).iter().map(|v| v * 0.5).collect();
    audio.extend(synth_waveform(48_000, 2.5, 150.0));
    let cfg = PipelineConfig {
        tse: Some(TseStageConfig::new_prod_48k("m.onnx")),
        ..PipelineConfig::default()
    };
    let result = ok(offline(&audio, 48_000, &cfg, &kit(), &mut components()));
    assert!(result.tse_applied);
    let opening = result.gate_decisions.iter().find(|d| d.1).unwrap().0;
    assert!(opening > 0 && 3 * opening > audio.len());
    assert!(result.audio[..opening].iter().all(|&s| s == 0.0));
    let after = &result.audio[opening..opening + 4_800];
    assert!(after.iter().any(|&s| s.abs() > 0.01));
}

#[test]
fn shut_chain_is_silent() {
    let cfg = StreamingConfig {
        dfn3_onnx_path: Some("d.onnx".to_string()),
        makeup_gain_db_solo: 12.0,
        ..config(48_000)
    };
    let mut p = started(cfg, kit());
    let voice: Vec<f32> = synth_waveform(48_000, 3.0, 210.0).iter().map(|v| v * 0.5).collect();
    let a = ok(p.push_samples(&voice));
    let b = ok(p.flush());
    let out = concat_outputs(vec![a, b]);
    assert!(out.gate_per_frame.iter().all(|&g| !g));
    assert!(out.audio.iter().all(|&s| s == 0.0));
}

#[test]
fn enrollment_takes_a_window_every_shift() {
    let embed = |w: &Vec<f32>| embed_run(w).map(|r| r.0);
    let pitch = |_: &[f32]| (140.0_f32, 12.0_f32);
    let audio = synth_waveform(16_000, 6.0, 150.0);
    let pool = enroll_from_recording(&audio, &embed, &pitch, EmbeddingPoolConfig::default());
    let pool = match pool {
        Ok(p) => p,
        Err(e) => panic!("{}", e.message()),
    };
    assert_eq!(pool.anchors().len(), 3);
    assert!(pool.has_dim(EMBEDDING_DIM));
    assert!(!pool.has_dim(3));
    assert_eq!(pool.metadata().f0_mu, 140.0);
    assert!(
        enroll_from_recording(&audio[..100], &embed, &pitch, EmbeddingPoolConfig::default())
            .is_err()
    );
}

#[test]
fn replaced_window_gives_up_its_frame() {
    let sent: RefCell<Vec<Vec<f32>>> = RefCell::new(Vec::new());
    let send = |w: Vec<f32>| {
        sent.borrow_mut().push(w);
        true
    };
    let answered = RefCell::new(0_usize);
    let receive = |_: bool| {
        let i = *answered.borrow();
        *answered.borrow_mut() += 1;
        Received::Ready(Ok((sent.borrow()[i].clone(), 0.0)))
    };
    let mut channel = RefreshChannel::new();
    channel.submit(vec![0.0_f32], 0, &send);
    channel.submit(vec![1.0], 1, &send);
    channel.submit(vec![2.0], 2, &send);
    let results = channel.drain_blocking(&send, &receive, "gone").unwrap();
    assert_eq!(results, vec![(0, vec![0.0], 0.0), (2, vec![2.0], 0.0)]);
    // Nothing is left over for the next window.
    channel.submit(vec![3.0], 3, &send);
    let results = channel.drain_blocking(&send, &receive, "gone").unwrap();
    assert_eq!(results, vec![(3, vec![3.0], 0.0)]);
    assert!(channel.drain_blocking(&send, &receive, "gone").unwrap().is_empty());
}

#[test]
fn pending_window_nobody_takes_has_no_result() {
    let taken = RefCell::new(0_usize);
    let send = |_: Vec<f32>| {
        *taken.borrow_mut() += 1;
        *taken.borrow() == 1
    };
    let receive = |_: bool| Received::Ready(Ok((vec![7.0_f32], 1.0)));
    let mut channel = RefreshChannel::new();
    channel.submit(vec![0.0_f32], 4, &send);
    channel.submit(vec![1.0], 5, &send);
    let results = channel.drain_blocking(&send, &receive, "gone").unwrap();
    assert_eq!(results, vec![(4, vec![7.0], 1.0)]);
}

#[test]
fn stage_comes_back_from_a_pipeline_with_a_worker() {
    for worker in [false, true] {
        let mut cfg = StreamingConfig {
            pipeline: tse_config("m.onnx"),
            ..config(16_000)
        };
        cfg.pipeline.async_refresh = worker;
        let mut p = started(cfg, worker_kit());
        ok(p.push_samples(&synth_waveform(16_000, 1.0, 150.0)));
        let (_, comp) = ok(p.into_parts(&|| true));
        assert!(comp.tse.is_some());
    }
    let mut cfg = config(16_000);
    cfg.pipeline.async_refresh = true;
    match started(cfg, worker_kit()).into_parts(&|| false) {
        Err(e) => assert!(e.message().contains("async worker panicked")),
        Ok(_) => panic!("the worker panicked"),
    }
}

#[test]
fn idle_stage_comes_back() {
    let with_stage = StreamingConfig {
        pipeline: tse_config("m.onnx"),
        ..config(16_000)
    };
    let (people, comp) = ok(started(with_stage, worker_kit()).into_parts(&|| true));
    assert!(comp.tse.is_some());
    let p = ok(StreamingPipeline::new(
        people,
        config(16_000),
        comp,
        worker_kit(),
        &load_tse,
        &load,
        &bridge,
        &spawn,
    ));
    let (_, comp) = ok(p.into_parts(&|| true));
    assert!(comp.tse.is_some());
}

#[test]
fn short_speaker_windows_run_without_turns() {
    let mut cfg = config(16_000);
    cfg.pipeline.sv_window_samples = 4_000;
    assert!(cfg.pipeline.sv_window_samples < cfg.pipeline.sv_turn_window_samples);
    let out = run_streaming_once(cfg, &scene(16_000));
    assert!(out.gate_per_frame.iter().any(|&g| g));

    let mut cfg = config(16_000);
    cfg.pipeline.sv_window_samples = 4_000;
    cfg.pipeline.turn_detect_enabled = true;
    let out = run_streaming_once(cfg, &scene(16_000));
    assert_eq!(out.audio.len(), scene(16_000).len());
}

#[test]
fn refused_recording_leaves_the_voice_alone() {
    let loaded = RefCell::new(0_usize);
    let counted = |path: &str| {
        *loaded.borrow_mut() += 1;
        load_tse(path)
    };
    let mut voice = pool();
    let audio = synth_waveform(48_000, 3.0, 150.0);
    let mut comp = components();
    let mut run = |sr: u32, path: &str| {
        kit().process_offline(
            &audio,
            sr,
            &mut voice,
            &tse_config(path),
            &GateConfig::default(),
            &mut comp,
            &counted,
            &bridge,
            &interpolate,
        )
    };
    assert!(matches!(
        run(48_000, "m.onnx"),
        Err(PipelineError::TseRateMismatch { audio_sr: 48_000, expected_sr: 16_000 })
    ));
    assert_eq!(*loaded.borrow(), 0);
    assert!(matches!(run(16_000, "/dev/null"), Err(PipelineError::TseStage(_))));
    assert_eq!(*loaded.borrow(), 1);
    assert!(comp.tse.is_none());
    assert_eq!(voice.anchors(), pool().anchors());
    assert!(voice.auto_learn().is_empty());
}

#[test]
fn recordings_have_a_record_per_frame() {
    for n in [0_usize, 1, 511, 512, 513, 1_024, 20_000] {
        let audio = vec![0.3; n];
        let cfg = PipelineConfig::default();
        let at_once = ok(offline(&audio, 16_000, &cfg, &kit(), &mut components()));
        assert_eq!(at_once.gate_per_frame.len(), n.div_ceil(CHUNK_SAMPLES_16K));
        assert_eq!(at_once.score_per_frame.len(), n.div_ceil(CHUNK_SAMPLES_16K));
        assert_eq!(at_once.audio.len(), n);
        let cfg = PipelineConfig {
            async_refresh: true,
            ..PipelineConfig::default()
        };
        let worker = ok(offline(&audio, 16_000, &cfg, &worker_kit(), &mut components()));
        assert_eq!(worker.gate_per_frame.len(), n / CHUNK_SAMPLES_16K);
        assert_eq!(worker.audio.len(), n);
    }
}

#[test]
fn nothing_is_learned_unless_asked() {
    let mut cfg = config(16_000);
    cfg.gate.theta_learn = 0.0;
    cfg.gate.theta_learn_as_norm = 0.0;
    cfg.gate.theta_f0 = 0.0;
    cfg.gate.min_continuous_speech_sec = 0.0;
    cfg.pipeline.enable_auto_learn = false;
    let mut p = started(cfg, kit());
    let a = ok(p.push_samples(&scene(16_000)));
    let b = ok(p.flush());
    assert!(concat_outputs(vec![a, b]).events.is_empty());
    assert!(p.pool().auto_learn().is_empty());
    assert_eq!(p.pool().anchors(), pool().anchors());
}

#[test]
fn stream_and_recording_agree_however_it_is_cut() {
    let mut audio = scene(16_000);
    audio.extend([0.25; 77]);
    let off = ok(offline(&audio, 16_000, &PipelineConfig::default(), &kit(), &mut components()));
    let whole = run_streaming_once(config(16_000), &audio);
    assert_eq!(whole.audio.len(), audio.len());
    for cut in [1_usize, 511, 4_000] {
        let mut p = started(config(16_000), kit());
        let mut parts: Vec<StreamingOutput<f32>> =
            audio.chunks(cut).map(|c| ok(p.push_samples(c))).collect();
        parts.push(ok(p.flush()));
        let out = concat_outputs(parts);
        assert_eq!(out.audio, whole.audio, "cut every {cut}");
        assert_eq!(out.gate_decisions, whole.gate_decisions, "cut every {cut}");
        assert_eq!(out.gate_per_frame, off.gate_per_frame, "cut every {cut}");
        assert_eq!(out.score_per_frame, off.score_per_frame, "cut every {cut}");
        assert_eq!(out.cos_sim_max_per_frame, off.cos_sim_max_per_frame, "cut every {cut}");
        assert_eq!(out.f0_match_per_frame, off.f0_match_per_frame, "cut every {cut}");
    }
}

#[test]
fn log_holds_the_changes_and_nothing_else() {
    let audio = scene(16_000);
    let mut p = started(config(16_000), kit());
    let mut parts: Vec<StreamingOutput<f32>> =
        audio.chunks(700).map(|c| ok(p.push_samples(c))).collect();
    parts.push(ok(p.flush()));
    let out = concat_outputs(parts);
    let mut expected = Vec::new();
    let mut last = None;
    for (i, &g) in out.gate_per_frame.iter().enumerate() {
        if last != Some(g) {
            expected.push((i * CHUNK_SAMPLES_16K, g));
            last = Some(g);
        }
    }
    assert!(expected.len() > 2);
    assert_eq!(out.gate_decisions, expected);
}

fn vad_stumbles(x: &Vec<f32>, state: &Vec<f32>, sr: u32) -> Result<VadReply<f32>, EmbeddingError> {
    if x.iter().any(|v| *v > 0.9) {
        Err(EmbeddingError::Ort("too loud".to_string()))
    } else {
        vad_run(x, state, sr)
    }
}

#[test]
fn stream_goes_on_after_a_failure() {
    let stumbling = Kit {
        vad: vad_stumbles as V,
        ..kit()
    };
    let mut p = started(config(16_000), stumbling);
    assert!(p.push_samples(&vec![0.95; 512]).is_err());
    let out = ok(p.push_samples(&synth_waveform(16_000, 2.0, 150.0)));
    assert_eq!(out.audio.len(), 62 * CHUNK_SAMPLES_16K);
    assert!(out.gate_per_frame.iter().any(|&g| g));
    ok(p.flush());
}

fn enhance_stumbles(chunk: &Vec<f32>) -> Result<Vec<f32>, EmbeddingError> {
    if chunk.iter().any(|v| *v > 0.9) {
        Err(EmbeddingError::Ort("too loud".to_string()))
    } else {
        enhance_run(chunk)
    }
}

#[test]
fn stages_go_on_after_a_failure() {
    let stumbling = Kit {
        enhance: enhance_stumbles as D,
        vad: vad_run as V,
        ..kit()
    };
    let mut cfg = StreamingConfig {
        dfn3_onnx_path: Some("d.onnx".to_string()),
        ..config(48_000)
    };
    // Open, whoever speaks.
    cfg.gate.theta_pass = f32::MIN;
    let mut p = started(cfg, stumbling);
    let loud = vec![0.95; 2 * SAMPLES_PER_CHUNK];
    assert!(p.push_samples(&loud).is_err());
    let quiet = vec![0.1; 4 * SAMPLES_PER_CHUNK];
    // What stood behind the failure may fail once more; then audio flows again.
    let _ = p.push_samples(&quiet);
    let _ = p.push_samples(&quiet);
    let out = ok(p.push_samples(&quiet));
    assert!(!out.audio.is_empty());
    ok(p.flush());
}

// ---- the live worker -------------------------------------------------------

fn live(dfn3: Option<&str>, enhance: D) -> TestWorker {
    let path = dfn3.map(str::to_string);
    match LiveWorker::assemble(
        pool(),
        config(48_000),
        components(),
        kit(),
        &path,
        enhance,
        &load_tse,
        &load,
        &bridge,
        &spawn,
    ) {
        Ok(w) => w,
        Err(e) => panic!("{}", e.message()),
    }
}

#[test]
fn worker_sends_what_the_pipeline_gives() {
    let mut w = live(None, enhance_run);
    let mut sent = 0;
    for chunk in synth_waveform(48_000, 1.0, 150.0).chunks(480) {
        if let WorkerStep::Send(a) = w.on_chunk(chunk) {
            sent += a.len();
            assert!(w.on_sent(a.len(), true));
        }
    }
    assert!(sent > 40_000);
    assert!(matches!(w.drain_enhancer(), WorkerStep::Wait));
    if let WorkerStep::Send(a) = w.drain_pipeline() {
        sent += a.len();
        w.on_drained(a.len());
    }
    assert_eq!(w.stats.samples_processed, sent as u64);
    assert!(!w.on_sent(5, false));
    assert_eq!(w.stats.samples_processed, sent as u64);
}

#[test]
fn worker_waits_for_noise_suppression() {
    let mut w = live(Some("d.onnx"), enhance_run);
    assert!(matches!(w.on_chunk(&[0.1; 480]), WorkerStep::Wait));
    let full = vec![0.1; SAMPLES_PER_CHUNK];
    assert!(matches!(w.on_chunk(&full), WorkerStep::Send(_)));
    // Less than a chunk is left; it is filled up and goes through.
    assert!(matches!(w.drain_enhancer(), WorkerStep::Send(_)));
}

#[test]
fn worker_reports_failures() {
    let mut w = live(Some("d.onnx"), enhance_fails);
    match w.on_chunk(&vec![0.1; SAMPLES_PER_CHUNK]) {
        WorkerStep::Report(SessionEvent::Error(t)) => {
            assert_eq!(t, "DFN3: ONNX Runtime error: no model");
        }
        _ => panic!("the model fails"),
    }
    let mut w = live(Some("d.onnx"), enhance_fails);
    w.on_chunk(&[0.1; 10]);
    match w.drain_enhancer() {
        WorkerStep::Report(SessionEvent::Error(t)) => {
            assert_eq!(t, "DFN3 flush: ONNX Runtime error: no model");
        }
        _ => panic!("the model fails"),
    }
    let path = Some("/dev/null".to_string());
    match TestWorker::assemble(
        pool(),
        config(48_000),
        components(),
        kit(),
        &path,
        enhance_run,
        &load_tse,
        &load,
        &bridge,
        &spawn,
    ) {
        Err(e) => assert_eq!(
            e.message(),
            "pipeline error: DFN3 load: ONNX Runtime error: not a model"
        ),
        Ok(_) => panic!("the model cannot be read"),
    }
}

fn enhance_nothing(chunk: &Vec<f32>) -> Result<Vec<f32>, EmbeddingError> {
    Ok(chunk.clone())
}

#[test]
fn worker_flushes_behind_a_failure() {
    let stumbling = Kit {
        vad: vad_stumbles as V,
        ..kit()
    };
    let assembled = TestWorker::assemble(
        pool(),
        config(48_000),
        components(),
        stumbling,
        &Some("d.onnx".to_string()),
        enhance_nothing,
        &load_tse,
        &load,
        &bridge,
        &spawn,
    );
    let mut w = match assembled {
        Ok(w) => w,
        Err(e) => panic!("{}", e.message()),
    };
    assert!(matches!(w.on_chunk(&[0.95; 10]), WorkerStep::Wait));
    // The first frame of what is left fails, which is not reported any more; the
    // others are still in the pipeline.
    assert!(matches!(w.drain_enhancer(), WorkerStep::Wait));
    match w.drain_pipeline() {
        WorkerStep::Send(a) => {
            let frames = SAMPLES_PER_CHUNK / next_input_run() - 1;
            assert_eq!(a.len(), frames * next_input_run());
        }
        _ => panic!("there is audio left"),
    }
}

// ---- the audio processing object -------------------------------------------

fn wave(sample_rate: u32, channels: u16, format_tag: u16) -> WaveFormat {
    WaveFormat {
        sample_rate,
        channels,
        format_tag,
    }
}

#[test]
fn object_suggests_the_one_format_it_takes() {
    let apo = TestApo::new();
    assert_eq!(
        apo.is_input_format_supported(&wave(48_000, 1, 3)),
        Negotiation::Accept
    );
    assert_eq!(
        apo.is_output_format_supported(&wave(44_100, 2, 1)),
        Negotiation::Suggest(wave(48_000, 1, 3))
    );
}

#[test]
fn object_passes_audio_until_it_is_locked() {
    let mut apo = TestApo::new();
    assert_eq!(apo.process(&[0.1, 0.2, 0.3], false, 2), vec![0.1, 0.2]);
    let make = |sr: u32| build(config(sr), kit()).map_err(|e| e.message());
    let good = wave(48_000, 1, 3);
    assert_eq!(
        apo.lock_for_process(&wave(44_100, 1, 3), &good, &make),
        Err(LockError::InvalidArg)
    );
    let fails = |_: u32| Err::<TestPipeline, String>("no".to_string());
    assert_eq!(apo.lock_for_process(&good, &good, &fails), Err(LockError::Fail));
    assert!(!apo.locked);
    assert_eq!(apo.lock_for_process(&good, &good, &make), Ok(()));
    assert!(apo.locked);

    // Silence stays silence; the first frames come out dry.
    assert_eq!(apo.process(&[0.1, 0.2], true, 2), vec![0.0, 0.0]);
    let dry = vec![0.3; 480];
    assert_eq!(apo.process(&dry, false, 480), dry);
    // Once a frame is complete its gated audio is served.
    let mut last = Vec::new();
    for _ in 0..10 {
        last = apo.process(&dry, false, 480);
    }
    assert_ne!(last, dry);
    apo.unlock_for_process();
    assert!(!apo.locked);
    assert_eq!(apo.process(&[0.5], false, 1), vec![0.5]);
}

#[test]
fn object_goes_on_after_a_failure() {
    let stumbling = || Kit {
        vad: vad_stumbles as V,
        ..kit()
    };
    let make = |sr: u32| build(config(sr), stumbling()).map_err(|e| e.message());
    let good = wave(48_000, 1, 3);
    let mut apo = TestApo::new();
    assert_eq!(apo.lock_for_process(&good, &good, &make), Ok(()));
    let loud = vec![0.95; 1_536];
    assert_eq!(apo.process(&loud, false, 1_536), loud);
    // Nobody's voice: once frames run again, it is shut out.
    let quiet = vec![0.3; 1_536];
    let mut last = quiet.clone();
    for _ in 0..4 {
        last = apo.process(&quiet, false, 1_536);
    }
    assert_ne!(last, quiet);
}

#[test]
fn object_without_a_voice_is_always_open() {
    let cfg = object_config(48_000, "d.onnx".to_string(), false, f32::MIN);
    assert_eq!(cfg.gate.theta_pass, f32::MIN);
    assert_eq!(cfg.gate.hangover_ms, 10_000.0);
    assert_eq!(cfg.pipeline.vad_threshold, -1.0);
    assert!(!cfg.pipeline.enable_auto_learn);
    assert_eq!(cfg.pipeline.silence_force_off_ms, 0.0);
    let cfg = object_config(48_000, "d.onnx".to_string(), true, f32::MIN);
    assert_eq!(cfg.pipeline.silence_force_off_ms, 400.0);
    assert_eq!(cfg.pipeline.score_ema_alpha, 0.7);
    assert_eq!(cfg.pipeline.sv_min_new_samples_after_silence, 1_600);
    assert!(cfg.pipeline.enable_auto_learn && cfg.pipeline.async_refresh);
}

#[test]
fn object_is_built_from_models_and_voice() {
    let ensure = |m: Model| Ok(format!("/{m:?}"));
    let read = |_: Model, _: &str| Ok(());
    let fbank = || Ok(());
    let stored = || Some(Ok(pool()));
    let nothing = || None;
    let broken = || Some(Err("bad file".to_string()));
    let built = TestApo::build_pipeline(
        48_000, f32::MIN, worker_kit(), &ensure, &read, &fbank, &stored, &load_tse, &load,
        &bridge, &spawn,
    );
    assert!(built.unwrap().1);
    let built = TestApo::build_pipeline(
        48_000, f32::MIN, worker_kit(), &ensure, &read, &fbank, &nothing, &load_tse, &load,
        &bridge, &spawn,
    );
    assert!(!built.unwrap().1);
    let built = TestApo::build_pipeline(
        44_100, f32::MIN, worker_kit(), &ensure, &read, &fbank, &broken, &load_tse, &load,
        &bridge, &spawn,
    );
    match built {
        Err(t) => assert!(t.starts_with("StreamingPipeline build: Stage C TSE audio_sr=44100"), "{t}"),
        Ok(_) => panic!("noise suppression runs at 48 kHz only"),
    }
    assert!(!choose_pool::<f32>(None, EmbeddingPoolConfig::default()).1);
}

#[test]
fn enrolled_voice_lies_where_the_environment_says() {
    let join = |a: &str, b: &str| std::path::Path::new(a).join(b).to_string_lossy().into_owned();
    assert_eq!(
        resolve_enrollment_path(Some("/v.json"), Some("/cfg"), &join).as_deref(),
        Some("/v.json")
    );
    assert_eq!(
        resolve_enrollment_path(None, Some("/cfg"), &join).as_deref(),
        Some("/cfg/mellonella/enrollment.json")
    );
    assert!(resolve_enrollment_path(None, None, &join).is_none());
}
