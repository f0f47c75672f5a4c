use mellonella::config::StreamingConfig;
use mellonella::engine::Intake;
use mellonella::f0::PitchMath;
use mellonella::pipeline::{PipelineConfig, PipelineError};
use mellonella::speech::{FastF0Cue, FAST_F0_RING_SAMPLES};
use mellonella::streaming::{fuse_fast_cue, StreamingState};
use mellonella::turn::{TurnDetector, TurnState};
use mellonella::vad::CHUNK_SAMPLES_16K;

fn exp(x: f32) -> f32 {
    x.exp()
}

fn bridge(_audio: u32, _decision: u32) -> Result<(), String> {
    Ok(())
}

fn state_new(
    cfg: &StreamingConfig<f32>,
) -> Result<(Intake<f32>, StreamingState<f32>), PipelineError> {
    StreamingState::new(cfg, &bridge, &exp)
}

fn autocorr(x: &Vec<f64>) -> Vec<f64> {
    let n = x.len();
    (0..n)
        .map(|tau| (0..n - tau).map(|i| x[i] * x[i + tau]).sum())
        .collect()
}

fn pitch(ring: &Vec<f32>) -> Option<f32> {
    let math = PitchMath {
        autocorr,
        trunc: |x: f64| x as usize,
        narrow: |x: f64| f64::from(x as f32),
    };
    let frame: Vec<f64> = ring.iter().map(|&v| f64::from(v)).collect();
    math.yin_frame(&frame, 16_000, 50.0, 500.0, 0.1)
        .map(|v| v as f32)
}

#[test]
fn streaming_config_default_is_dual_rate() {
    let cfg = StreamingConfig::<f32>::default();
    assert_eq!(cfg.audio_sample_rate, 48_000);
    assert_eq!(cfg.pipeline.sample_rate, 16_000);
    assert!(!cfg.diagnostics);
}

#[test]
fn state_new_dual_rate_builds_resampler() {
    let cfg = StreamingConfig::<f32>::default();
    let state = state_new(&cfg).unwrap();
    assert!(state.0.dual_rate);
}

#[test]
fn state_new_initialises_pre_roll_capacity_from_config() {
    let mut cfg = StreamingConfig::<f32>::default();
    cfg.audio_sample_rate = cfg.pipeline.sample_rate; // identity, simpler
    cfg.pipeline.pre_roll_ms = 200;
    let state = state_new(&cfg).unwrap();
    // 200 ms * 16 000 Hz / 1000 = 3 200 samples
    assert_eq!(state.1.speech.pre_roll_capacity(), 3_200);
    assert!(state.1.speech.pre_roll_ring().is_empty());
}

#[test]
fn push_pre_roll_caps_at_capacity() {
    let mut cfg = StreamingConfig::<f32>::default();
    cfg.audio_sample_rate = cfg.pipeline.sample_rate;
    cfg.pipeline.pre_roll_ms = 32; // 32 ms = 512 samples = 1 frame
    let mut state = state_new(&cfg).unwrap();
    let frame = vec![1.0_f32; CHUNK_SAMPLES_16K];
    state.1.speech.push_pre_roll(&frame);
    assert_eq!(state.1.speech.pre_roll_ring().len(), 512);
    // Pushing a second frame must keep the cap.
    let frame2 = vec![2.0_f32; CHUNK_SAMPLES_16K];
    state.1.speech.push_pre_roll(&frame2);
    assert_eq!(state.1.speech.pre_roll_ring().len(), 512);
    // After two pushes the ring should contain only the second
    // frame's samples (oldest popped).
    assert!(state.1.speech.pre_roll_ring().iter().all(|&s| (s - 2.0).abs() < 1e-9));
}

#[test]
fn push_pre_roll_is_noop_when_disabled() {
    let mut cfg = StreamingConfig::<f32>::default();
    cfg.audio_sample_rate = cfg.pipeline.sample_rate;
    cfg.pipeline.pre_roll_ms = 0;
    let mut state = state_new(&cfg).unwrap();
    let frame = vec![1.0_f32; CHUNK_SAMPLES_16K];
    state.1.speech.push_pre_roll(&frame);
    assert!(state.1.speech.pre_roll_ring().is_empty());
    assert_eq!(state.1.speech.pre_roll_capacity(), 0);
}

#[test]
fn prepend_pre_roll_pushes_ring_into_speech_buffer_back() {
    let mut cfg = StreamingConfig::<f32>::default();
    cfg.audio_sample_rate = cfg.pipeline.sample_rate;
    cfg.pipeline.pre_roll_ms = 32;
    let mut state = state_new(&cfg).unwrap();
    // Populate the ring with a marker value.
    let frame = vec![0.5_f32; CHUNK_SAMPLES_16K];
    state.1.speech.push_pre_roll(&frame);
    assert_eq!(state.1.speech.pre_roll_ring().len(), 512);
    // Speech buffer empty before the OFF→ON transition.
    assert!(state.1.speech.speech_buffer().is_empty());
    state.1.speech.prepend_pre_roll_to_speech_buffer(cfg.pipeline.sv_window_samples);
    // Ring contents are now at the back of the speech buffer in
    // chronological order. Subsequent frames append after.
    assert_eq!(state.1.speech.speech_buffer().len(), 512);
    assert!(state.1.speech.speech_buffer().iter().all(|&s| (s - 0.5).abs() < 1e-9));
}

#[test]
fn prepend_pre_roll_respects_sv_window_cap() {
    let mut cfg = StreamingConfig::<f32>::default();
    cfg.audio_sample_rate = cfg.pipeline.sample_rate;
    cfg.pipeline.pre_roll_ms = 32;
    let mut state = state_new(&cfg).unwrap();
    // Pre-fill the speech buffer to one short of the cap.
    let cap = cfg.pipeline.sv_window_samples;
    state.1.speech.hear(&vec![0.1_f32; cap - 100], true, cap, 32.0);
    // Fill the ring with 512 samples of a different marker.
    let frame = vec![0.9_f32; CHUNK_SAMPLES_16K];
    state.1.speech.push_pre_roll(&frame);
    state.1.speech.prepend_pre_roll_to_speech_buffer(cap);
    // Buffer length stays at the cap; the oldest entries got
    // dropped to make room.
    assert_eq!(state.1.speech.speech_buffer().len(), cap);
    let last_512: Vec<f32> = state
        .1
        .speech
        .speech_buffer()
        .iter()
        .rev()
        .take(512)
        .copied()
        .collect();
    assert!(last_512.iter().all(|&s| (s - 0.9).abs() < 1e-9));
}

#[test]
fn state_new_rejects_async_refresh_on_sync_path() {
    // Sync `new` is for `async_refresh = false` only. Async
    // mode requires `new_async` (which routes through the
    // worker-spawning path).
    let mut cfg = StreamingConfig::<f32>::default();
    cfg.pipeline.async_refresh = true;
    match state_new(&cfg) {
        Err(PipelineError::Embedding(_)) => {}
        Err(other) => panic!("expected Embedding error, got: {}", other.message()),
        Ok(_) => panic!("sync `new` must reject async_refresh = true"),
    }
}

#[test]
fn fuse_fast_cue_is_identity_at_neutral() {
    // "No evidence" feeds `fm_fast == neutral`, so the fused
    // score must equal `last_score` exactly.
    let neutral = 0.5_f32;
    for &ls in &[0.0_f32, 0.31, 0.7, -0.2] {
        assert_eq!(fuse_fast_cue(ls, neutral, 0.15, neutral), ls);
    }
}

#[test]
fn fuse_fast_cue_nudges_up_and_down() {
    // Above-neutral cue nudges up, below-neutral nudges down,
    // scaled by the weight.
    let up = fuse_fast_cue(0.3_f32, 1.0, 0.2, 0.5);
    let down = fuse_fast_cue(0.3_f32, 0.0, 0.2, 0.5);
    assert!((up - (0.3 + 0.2 * 0.5)).abs() < 1e-6);
    assert!((down - (0.3 - 0.2 * 0.5)).abs() < 1e-6);
    assert!(up > 0.3 && down < 0.3);
}

#[test]
fn fast_f0_cue_no_evidence_until_ring_full() {
    // The ring needs FAST_F0_RING_SAMPLES before YIN runs;
    // before that every frame is "no evidence".
    let mut cue = FastF0Cue::<f32>::new();
    let frame = vec![0.0_f32; CHUNK_SAMPLES_16K];
    let mut pushed = 0;
    while pushed + CHUNK_SAMPLES_16K <= FAST_F0_RING_SAMPLES {
        assert!(
            cue.push_frame(&frame, &pitch).is_none(),
            "ring not full yet at {pushed} samples"
        );
        pushed += CHUNK_SAMPLES_16K;
    }
    // One more frame fills the ring; silence is unvoiced so YIN
    // still returns None — but the point is the ring-fill gate
    // no longer suppresses it.
    let _ = cue.push_frame(&frame, &pitch);
}

#[test]
fn fast_f0_cue_recovers_pure_tone() {
    // A sustained 150 Hz tone through a full ring should give a
    // voiced estimate near 150 Hz.
    let mut cue = FastF0Cue::<f32>::new();
    let sr = 16_000_u32;
    let mut last: Option<f32> = None;
    for frame_idx in 0..16 {
        let mut frame = vec![0.0_f32; CHUNK_SAMPLES_16K];
        for (i, s) in frame.iter_mut().enumerate() {
            let n = frame_idx * CHUNK_SAMPLES_16K + i;
            *s = (std::f32::consts::TAU * 150.0 * n as f32 / sr as f32).sin();
        }
        last = cue.push_frame(&frame, &pitch);
    }
    let est = last.expect("voiced estimate once ring is full");
    assert!((est - 150.0).abs() / 150.0 < 0.05, "est={est}");
}

/// Turn-detection cfg helper: enabled, with the rest at defaults.
fn turn_cfg() -> PipelineConfig<f32> {
    PipelineConfig {
        turn_detect_enabled: true,
        ..PipelineConfig::<f32>::default()
    }
}

#[test]
fn turn_detector_inert_when_disabled() {
    // With `turn_detect_enabled = false` the detector never
    // leaves `Steady` and `effective_window` stays at
    // `sv_window_samples`, whatever the cue does.
    let cfg = PipelineConfig::<f32>::default();
    let mut det = TurnDetector::<f32>::new(cfg.sv_window_samples);
    for fm in [0.9_f32, 0.1, 0.9, 0.05, 0.95] {
        let d = det.observe(Some(fm), true, &cfg);
        assert!(!d.entered_shrunk && !d.shrunk);
        assert_eq!(det.state, TurnState::Steady);
        assert_eq!(det.effective_window, cfg.sv_window_samples);
    }
}

#[test]
fn turn_detector_shrinks_on_sharp_drop() {
    // Gate ON, baseline established high, then the cue collapses
    // → offset-suspect fires, window shrinks, `due_turn` would
    // fire (entered_shrunk == true).
    let cfg = turn_cfg();
    let mut det = TurnDetector::<f32>::new(cfg.sv_window_samples);
    // Seed + hold a high baseline while the speaker gate is ON.
    for _ in 0..40 {
        det.observe(Some(0.95), true, &cfg);
    }
    assert_eq!(det.state, TurnState::Steady);
    assert!(det.fm_fast_baseline > 0.8);
    // Sharp drop in the cue — push it well below
    // baseline - turn_drop_delta.
    let mut entered = false;
    for _ in 0..10 {
        let d = det.observe(Some(0.1), true, &cfg);
        entered |= d.entered_shrunk;
        if det.state == TurnState::Shrunk {
            break;
        }
    }
    assert!(entered, "expected an entered_shrunk edge");
    assert_eq!(det.state, TurnState::Shrunk);
    assert_eq!(det.effective_window, cfg.sv_turn_window_samples);
}

#[test]
fn turn_detector_offset_fail_closed_lifecycle() {
    // With `offset_fail_closed`, an offset-suspect sets
    // `offset_failclosed_active`; a refresh-completed note
    // clears it.
    let cfg = PipelineConfig {
        offset_fail_closed: true,
        ..turn_cfg()
    };
    let mut det = TurnDetector::<f32>::new(cfg.sv_window_samples);
    for _ in 0..40 {
        det.observe(Some(0.95), true, &cfg);
    }
    for _ in 0..10 {
        det.observe(Some(0.1), true, &cfg);
        if det.state == TurnState::Shrunk {
            break;
        }
    }
    assert_eq!(det.state, TurnState::Shrunk);
    assert!(
        det.offset_failclosed_active,
        "offset-suspect must arm fail-closed"
    );
    det.note_refresh_completed();
    assert!(
        !det.offset_failclosed_active,
        "a shrunk-window refresh must clear fail-closed"
    );
    assert!(det.shrunk_refresh_done);
}

#[test]
fn turn_detector_fail_closed_off_when_flag_unset() {
    // Turn detection on, but `offset_fail_closed` off — the
    // window still shrinks but the speaker gate-override flag never arms.
    let cfg = turn_cfg();
    let mut det = TurnDetector::<f32>::new(cfg.sv_window_samples);
    for _ in 0..40 {
        det.observe(Some(0.95), true, &cfg);
    }
    for _ in 0..10 {
        det.observe(Some(0.1), true, &cfg);
        if det.state == TurnState::Shrunk {
            break;
        }
    }
    assert_eq!(det.state, TurnState::Shrunk);
    assert!(!det.offset_failclosed_active);
}

#[test]
fn turn_detector_regrows_after_stable_and_refresh() {
    // Shrunk → Regrowing requires BOTH a completed shrunk-window
    // refresh AND `turn_stable_frames` of cue close to baseline;
    // Regrowing → Steady on the next frame, window restored.
    let cfg = turn_cfg();
    let mut det = TurnDetector::<f32>::new(cfg.sv_window_samples);
    for _ in 0..40 {
        det.observe(Some(0.95), true, &cfg);
    }
    for _ in 0..10 {
        det.observe(Some(0.1), true, &cfg);
        if det.state == TurnState::Shrunk {
            break;
        }
    }
    assert_eq!(det.state, TurnState::Shrunk);
    // The speaker gate has recovered onto the (new) target: feed
    // confirmed-target frames (gate ON) with the cue pinned at
    // baseline. The EMA climbs back up; WITHOUT a refresh note
    // the detector must NOT regrow no matter how stable it gets.
    let baseline = det.fm_fast_baseline;
    for _ in 0..60 {
        det.observe(Some(baseline), true, &cfg);
    }
    assert_eq!(
        det.state,
        TurnState::Shrunk,
        "no regrow without a completed shrunk-window refresh"
    );
    // Now note a refresh; the cue is already pinned at baseline,
    // so the next `turn_stable_frames` frames must trip the
    // regrow.
    det.note_refresh_completed();
    for _ in 0..=cfg.turn_stable_frames {
        det.observe(Some(baseline), true, &cfg);
    }
    assert!(matches!(
        det.state,
        TurnState::Regrowing | TurnState::Steady
    ));
    // One more frame settles to Steady with the window restored.
    det.observe(Some(baseline), true, &cfg);
    assert_eq!(det.state, TurnState::Steady);
    assert_eq!(det.effective_window, cfg.sv_window_samples);
}

#[test]
fn turn_detector_effective_window_shrink_then_grow() {
    // End-to-end window-length trace: starts at sv_window_samples,
    // shrinks to sv_turn_window_samples, returns to
    // sv_window_samples.
    let cfg = turn_cfg();
    let mut det = TurnDetector::<f32>::new(cfg.sv_window_samples);
    assert_eq!(det.effective_window, cfg.sv_window_samples);
    for _ in 0..40 {
        det.observe(Some(0.95), true, &cfg);
    }
    for _ in 0..10 {
        det.observe(Some(0.1), true, &cfg);
    }
    assert_eq!(det.effective_window, cfg.sv_turn_window_samples);
    det.note_refresh_completed();
    // Confirmed-target frames (gate ON) with the cue pinned at
    // baseline: the EMA climbs back, `turn_stable_frames` close
    // frames accumulate, the detector regrows and settles to
    // Steady with the window restored.
    let baseline = det.fm_fast_baseline;
    for _ in 0..80 {
        det.observe(Some(baseline), true, &cfg);
    }
    assert_eq!(det.effective_window, cfg.sv_window_samples);
}

#[test]
fn turn_detector_due_turn_fires_once_on_shrink_edge() {
    // `TurnDecision.entered_shrunk` is the `due_turn` refresh
    // trigger the streaming core ORs in — it must fire exactly
    // on the shrink edge, then stay false while `Shrunk`.
    let cfg = turn_cfg();
    let mut det = TurnDetector::<f32>::new(cfg.sv_window_samples);
    for _ in 0..40 {
        det.observe(Some(0.95), true, &cfg);
    }
    let mut edges = 0_u32;
    for _ in 0..20 {
        let d = det.observe(Some(0.05), true, &cfg);
        if d.entered_shrunk {
            edges += 1;
            assert!(d.shrunk, "entered_shrunk implies shrunk");
        }
    }
    assert_eq!(edges, 1, "due_turn must fire exactly once per turn");
    assert_eq!(det.state, TurnState::Shrunk);
}

#[test]
fn stage_b_disabled_leaves_gate_score_untouched() {
    // With every optional feature off `effective_window` stays at
    // `sv_window_samples`, the turn detector is inert, and the score
    // that feeds the speaker gate is `last_score` itself.
    let cfg = PipelineConfig::<f32>::default();
    assert!(!cfg.fast_cue_enabled);
    assert!(!cfg.turn_detect_enabled);
    assert!(!cfg.offset_fail_closed);
    let det = TurnDetector::<f32>::new(cfg.sv_window_samples);
    assert_eq!(det.effective_window, cfg.sv_window_samples);
    // The speaker gate-score selection the core makes when the cue is off.
    let last_score = 0.37_f32;
    let gate_score = if cfg.fast_cue_enabled {
        fuse_fast_cue(
            last_score,
            cfg.fast_cue_f0_neutral,
            cfg.fast_cue_weight,
            cfg.fast_cue_f0_neutral,
        )
    } else {
        last_score
    };
    assert_eq!(gate_score, last_score);
}
