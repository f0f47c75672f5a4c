use mellonella::dfn3::{
    enhance_spec, init_state_lerp, process, AnalysedFrame, Dfn3Streamer, SpecReply, DFN3_HOP,
    DFN3_SR, FRAMES_PER_CHUNK, NB_DF, N_ERB, N_FREQ, SAMPLES_PER_CHUNK,
};
use mellonella::embedding::{
    embedding_from_view, EcapaTdnn, EmbeddingError, GraphOutput, EMBEDDING_DIM,
};
use mellonella::overlap::{
    summarise, OverlapDetector, OverlapReply, DEFAULT_CADENCE, N_CLASSES, OVERLAP_WINDOW_SAMPLES,
};
use mellonella::tse::{
    make_initial_state, Tensor, TseConfig, TseError, TseReply, TseSession, TSE_COND_DIM,
};
use mellonella::tse_stage::{TseStage, TseStageConfig, TseStageError};
use mellonella::vad::{SileroVad, VadReply, CHUNK_SAMPLES_16K, CONTEXT_SAMPLES_16K, STATE_HIDDEN};
use std::cell::RefCell;

fn exp(x: f32) -> f32 {
    x.exp()
}

// ---- the extraction model ------------------------------------------------

#[test]
fn poc_config_invariants() {
    let cfg = TseConfig::poc_16k();
    assert_eq!(cfg.enc_stride, 16);
    assert_eq!(cfg.enc_overlap, 16);
    assert_eq!(cfg.hidden, 256);
    assert_eq!(cfg.tcn_kernel, 3);
    assert_eq!(cfg.n_blocks, 6);
    assert_eq!(cfg.n_repeats, 2);
    assert_eq!(cfg.total_blocks(), 12);
    // 1 enc + 3 input-norm + 7 * 12 blocks + 1 dec = 89.
    assert_eq!(cfg.n_state_tensors(), 89);
}

#[test]
fn prod_config_runs_at_48k() {
    let cfg = TseConfig::prod_48k();
    assert_eq!(cfg.sample_rate(), 48_000);
    assert_eq!(cfg.n_state_tensors(), 89);
    assert_eq!(TseConfig::poc_16k().sample_rate(), 16_000);
}

#[test]
fn dilation_schedule_matches_python() {
    let cfg = TseConfig::poc_16k();
    let expected: [usize; 6] = [1, 2, 4, 8, 16, 32];
    for (b, &want) in expected.iter().enumerate() {
        assert_eq!(TseConfig::block_dilation(b), want);
        assert_eq!(cfg.block_pad(b), (cfg.tcn_kernel - 1) * want);
    }
}

#[test]
fn initial_state_shapes_match_python() {
    let cfg = TseConfig::poc_16k();
    let state: Vec<Tensor<f32>> = make_initial_state(cfg);
    assert_eq!(state.len(), cfg.n_state_tensors());

    // enc overlap
    assert_eq!(state[0].shape, vec![1, 1, cfg.enc_overlap]);
    // input-norm sum/sqsum/count
    for tensor in state.iter().take(4).skip(1) {
        assert_eq!(tensor.shape, vec![1, 1, 1]);
    }
    // per block
    let mut idx = 4;
    for _r in 0..cfg.n_repeats {
        for b in 0..cfg.n_blocks {
            let pad = cfg.block_pad(b);
            assert_eq!(state[idx].shape, vec![1, cfg.hidden, pad]);
            idx += 1;
            for _ in 0..6 {
                assert_eq!(state[idx].shape, vec![1, 1, 1]);
                idx += 1;
            }
        }
    }
    // dec overlap
    assert_eq!(state[idx].shape, vec![1, 1, cfg.enc_overlap]);
    assert_eq!(idx + 1, cfg.n_state_tensors());
    assert!(state.iter().all(|t| t.data.iter().all(|&v| v == 0.0)));
}

#[test]
fn invalid_cond_length_rejected_in_from_session() {
    let err = TseStageError::InvalidCondLength {
        got: 64,
        expected: TSE_COND_DIM,
    };
    let s = err.message();
    assert!(s.contains("192"), "{s}");
    assert!(s.contains("64"), "{s}");
    let session: TseSession<f32> = TseSession::new(TseConfig::poc_16k());
    match TseStage::from_session(session, 160, &[0.0; 64]) {
        Err(TseStageError::InvalidCondLength { got: 64, expected }) => {
            assert_eq!(expected, TSE_COND_DIM);
        }
        _ => panic!("a short embedding must be refused"),
    }
}

#[test]
fn invalid_chunk_samples_rejected_in_display() {
    let cfg = TseConfig::poc_16k();
    let err = TseStageError::InvalidChunkSamples {
        got: 17,
        enc_stride: cfg.enc_stride,
    };
    let s = err.message();
    assert!(s.contains("17"), "{s}");
    assert!(s.contains("16"), "{s}");
    let session: TseSession<f32> = TseSession::new(cfg);
    assert!(matches!(
        TseStage::from_session(session, 17, &[0.0; TSE_COND_DIM]),
        Err(TseStageError::InvalidChunkSamples { got: 17, .. })
    ));
}

#[test]
fn config_default_chunk_samples_is_160() {
    let cfg = TseStageConfig::new("/dev/null");
    assert_eq!(cfg.chunk_samples, 160);
    assert_eq!(cfg.onnx_path, "/dev/null");
    let cfg = TseStageConfig::new_prod_48k("/dev/null");
    assert_eq!(cfg.chunk_samples, 480);
    assert_eq!(cfg.model.sample_rate(), 48_000);
}

/// Doubles the audio and counts chunks in the first state tensor.
fn doubler(
    chunk: &[f32],
    _cond: &[f32],
    state: &Vec<Tensor<f32>>,
) -> Result<TseReply<f32>, TseError> {
    let next: Vec<Tensor<f32>> = state
        .iter()
        .map(|t| Tensor {
            shape: t.shape.clone(),
            data: t.data.iter().map(|v| v + 1.0).collect(),
        })
        .collect();
    Ok(TseReply {
        dims: vec![1, chunk.len() as i64],
        extracted: chunk.iter().map(|v| v * 2.0).collect(),
        state: next,
    })
}

fn stage() -> TseStage<f32> {
    let session: TseSession<f32> = TseSession::new(TseConfig::poc_16k());
    match TseStage::from_session(session, 160, &[0.5; TSE_COND_DIM]) {
        Ok(s) => s,
        Err(e) => panic!("{}", e.message()),
    }
}

#[test]
fn stage_holds_back_what_fills_no_chunk() {
    let mut s = stage();
    let audio: Vec<f32> = (0..400).map(|i| i as f32).collect();
    let out = s.process(&audio, &doubler).unwrap();
    assert_eq!(out.len(), 320);
    assert_eq!(out[319], 638.0);
    let tail = s.flush(&doubler).unwrap();
    assert_eq!(tail.len(), 160);
    assert_eq!(tail[0], 640.0);
    assert_eq!(tail[79], 798.0);
    assert!(tail[80..].iter().all(|&v| v == 0.0));
    assert!(s.flush(&doubler).unwrap().is_empty());
}

#[test]
fn stage_in_parts_is_stage_at_once() {
    let audio: Vec<f32> = (0..1000).map(|i| (i as f32 * 0.1).sin()).collect();
    let mut whole = stage();
    let at_once = whole.process(&audio, &doubler).unwrap();
    let mut parts = stage();
    let mut pieced = Vec::new();
    for part in audio.chunks(73) {
        pieced.extend(parts.process(part, &doubler).unwrap());
    }
    assert_eq!(at_once, pieced);
    assert_eq!(whole.flush(&doubler).unwrap(), parts.flush(&doubler).unwrap());
}

#[test]
fn session_refuses_what_the_model_cannot_take() {
    let mut s: TseSession<f32> = TseSession::new(TseConfig::poc_16k());
    assert!(matches!(
        s.process_chunk_slice(&[0.0; 17], &[0.0; TSE_COND_DIM], &doubler),
        Err(TseError::InvalidChunkLength { got: 17, enc_stride: 16 })
    ));
    assert!(matches!(
        s.process_chunk_slice(&[0.0; 16], &[0.0; 3], &doubler),
        Err(TseError::InvalidCondLength { got: 3, expected: 192 })
    ));
}

#[test]
fn output_of_the_wrong_shape_is_named_in_quotes() {
    let short = |c: &[f32], _e: &[f32], s: &Vec<Tensor<f32>>| {
        let mut r = doubler(c, _e, s)?;
        r.dims = vec![1, 3];
        Ok(r)
    };
    let mut s: TseSession<f32> = TseSession::new(TseConfig::poc_16k());
    let err = match s.process_chunk_slice(&[0.0; 16], &[0.0; TSE_COND_DIM], &short) {
        Err(e) => e,
        Ok(_) => panic!("the shape is wrong"),
    };
    let text = err.message();
    assert!(text.contains("\"extracted_chunk\""), "{text}");
    assert!(text.contains("[1, 3]") && text.contains("[1, 16]"), "{text}");
    match err.into_embedding() {
        EmbeddingError::UnexpectedOutputShape { got, expected_dim } => {
            assert_eq!(got, vec![1, 3]);
            assert_eq!(expected_dim, 16);
        }
        other => panic!("{}", other.message()),
    }
    assert!(matches!(
        TseError::Ort("x".to_string()).into_embedding(),
        EmbeddingError::Ort(_)
    ));
    let shape = TseError::InvalidCondLength { got: 1, expected: 2 }.into_embedding();
    assert_eq!(
        shape.message(),
        "ndarray shape error: ShapeError/IncompatibleShape: incompatible shapes"
    );
}

// ---- voice activity ------------------------------------------------------

fn vad_reply(p: f32, state: &[f32]) -> VadReply<f32> {
    VadReply {
        dims: vec![1, 1],
        data: vec![p],
        state_dims: vec![2, 1, STATE_HIDDEN as i64],
        state_data: state.iter().map(|v| v + 0.25).collect(),
    }
}

fn loudness(x: &Vec<f32>, state: &Vec<f32>, _sr: u32) -> Result<VadReply<f32>, EmbeddingError> {
    let p = x.iter().map(|v| v.abs()).sum::<f32>() / x.len() as f32;
    Ok(vad_reply(p.min(1.0), state))
}

#[test]
fn loads_and_returns_probability_in_unit_interval() {
    let mut vad: SileroVad<f32> = SileroVad::new(16_000);
    let chunk = vec![0.0_f32; CHUNK_SAMPLES_16K];
    let prob = vad.score(&chunk, &loudness).unwrap();
    assert!((0.0..=1.0).contains(&prob), "prob={prob}");
}

#[test]
fn reset_zeroes_state() {
    let seen: RefCell<Vec<f32>> = RefCell::new(Vec::new());
    let run = |x: &Vec<f32>, s: &Vec<f32>, sr: u32| {
        *seen.borrow_mut() = s.clone();
        loudness(x, s, sr)
    };
    let mut vad: SileroVad<f32> = SileroVad::new(16_000);
    let mut chunk = vec![0.0_f32; CHUNK_SAMPLES_16K];
    for (i, s) in chunk.iter_mut().enumerate() {
        *s = (i as f32 * 0.05).sin() * 0.3;
    }
    vad.score(&chunk, &run).unwrap();
    vad.score(&chunk, &run).unwrap();
    assert!(seen.borrow().iter().any(|&v| v.abs() > 1e-6));
    vad.reset();
    vad.score(&chunk, &run).unwrap();
    assert!(seen.borrow().iter().all(|&v| v.abs() <= 0.0));
}

#[test]
fn rejects_wrong_chunk_size() {
    let mut vad: SileroVad<f32> = SileroVad::new(16_000);
    let chunk = vec![0.0_f32; 100];
    assert!(vad.score(&chunk, &loudness).is_err());
}

#[test]
fn context_is_the_tail_of_the_last_chunk() {
    let seen: RefCell<Vec<f32>> = RefCell::new(Vec::new());
    let run = |x: &Vec<f32>, s: &Vec<f32>, sr: u32| {
        *seen.borrow_mut() = x.clone();
        loudness(x, s, sr)
    };
    let mut vad: SileroVad<f32> = SileroVad::new(16_000);
    let first: Vec<f32> = (0..CHUNK_SAMPLES_16K).map(|i| i as f32).collect();
    vad.score(&first, &run).unwrap();
    vad.score(&vec![0.0; CHUNK_SAMPLES_16K], &run).unwrap();
    let fed = seen.borrow();
    assert_eq!(fed.len(), CONTEXT_SAMPLES_16K + CHUNK_SAMPLES_16K);
    assert_eq!(fed[..64], first[CHUNK_SAMPLES_16K - 64..]);
}

#[test]
fn vad_output_of_the_wrong_shape_is_refused() {
    let run = |_x: &Vec<f32>, s: &Vec<f32>, _sr: u32| {
        let mut r = vad_reply(0.5, s);
        r.dims = vec![2, 1];
        Ok(r)
    };
    let mut vad: SileroVad<f32> = SileroVad::new(16_000);
    match vad.score(&vec![0.0; CHUNK_SAMPLES_16K], &run) {
        Err(EmbeddingError::UnexpectedOutputShape { got, expected_dim: 1 }) => {
            assert_eq!(got, vec![2, 1]);
        }
        _ => panic!("the shape is wrong"),
    }
}

#[test]
fn vad_state_that_does_not_fill_its_shape_is_refused() {
    let told = |batch: i64, len: usize| {
        let run = move |_x: &Vec<f32>, _s: &Vec<f32>, _sr: u32| {
            let mut r = vad_reply(0.5, &vec![0.0; len]);
            r.state_dims = vec![2, batch, STATE_HIDDEN as i64];
            Ok(r)
        };
        let mut vad: SileroVad<f32> = SileroVad::new(16_000);
        vad.score(&vec![0.0; CHUNK_SAMPLES_16K], &run).map_err(|e| e.message())
    };
    assert_eq!(told(1, 256), Ok(0.5));
    assert_eq!(told(2, 512), Ok(0.5));
    let words = |kind: &str| Err(format!("ndarray shape error: ShapeError/{kind}"));
    assert_eq!(told(2, 256), words("OutOfBounds: out of bounds indexing"));
    assert_eq!(told(1, 300), words("IncompatibleShape: incompatible shapes"));
    assert_eq!(told(-1, 256), words("Overflow: arithmetic overflow"));
    assert_eq!(told(i64::MAX, 256), words("Overflow: arithmetic overflow"));
}

// ---- noise suppression ---------------------------------------------------

fn same_spec(spec: &[f32], _erb: &[f32], _df: &[f32]) -> Result<SpecReply<f32>, EmbeddingError> {
    Ok(SpecReply {
        dims: vec![1, 1, FRAMES_PER_CHUNK as i64, N_FREQ as i64, 2],
        data: spec.to_vec(),
    })
}

#[test]
fn loads_and_runs_zero_input() {
    let spec = vec![0.0_f32; FRAMES_PER_CHUNK * N_FREQ * 2];
    let feat_erb = vec![0.0_f32; FRAMES_PER_CHUNK * N_ERB];
    let feat_spec = vec![0.0_f32; FRAMES_PER_CHUNK * NB_DF * 2];
    let out = enhance_spec(&spec, &feat_erb, &feat_spec, &same_spec).unwrap();
    assert_eq!(out.len(), spec.len());
    assert!(out.iter().all(|v| v.is_finite()), "non-finite values in output");
}

#[test]
fn rejects_mis_shaped_inputs() {
    let bad = vec![0.0_f32; 10];
    let feat_erb = vec![0.0_f32; FRAMES_PER_CHUNK * N_ERB];
    let feat_spec = vec![0.0_f32; FRAMES_PER_CHUNK * NB_DF * 2];
    let res = enhance_spec(&bad, &feat_erb, &feat_spec, &same_spec);
    assert!(res.is_err());
}

#[test]
fn streamer_invariants_dont_need_onnx() {
    // The chunk-size contract: call sites rely on the 1.02 s figure.
    assert_eq!(SAMPLES_PER_CHUNK, FRAMES_PER_CHUNK * DFN3_HOP);
    assert_eq!(SAMPLES_PER_CHUNK, 48_960);
    // 1.02 s @ 48 kHz, to two decimals.
    let secs = SAMPLES_PER_CHUNK as f32 / DFN3_SR as f32;
    assert!((secs - 1.02).abs() < 0.01, "expected ~1.02 s, got {secs}");
}

fn halve(chunk: &Vec<f32>) -> Result<Vec<f32>, EmbeddingError> {
    Ok(chunk.iter().map(|v| v * 0.5).collect())
}

#[test]
fn streamer_push_and_flush_round_trip() {
    let mut streamer: Dfn3Streamer<f32> = Dfn3Streamer::new();
    // Push less than one chunk — should emit nothing.
    let head = vec![0.0_f32; 1024];
    let out = streamer.push_samples(&head, &halve).unwrap();
    assert!(out.is_empty(), "first sub-chunk push must hold output");
    assert_eq!(streamer.buffered_samples(), 1024);

    // Push enough to complete one chunk (1024 + remainder = SAMPLES_PER_CHUNK).
    let body = vec![0.0_f32; SAMPLES_PER_CHUNK - 1024];
    let out = streamer.push_samples(&body, &halve).unwrap();
    assert_eq!(out.len(), SAMPLES_PER_CHUNK, "one full chunk should emit");
    assert_eq!(streamer.buffered_samples(), 0);

    // Trailing residue + flush.
    let tail = vec![0.0_f32; 480];
    let out = streamer.push_samples(&tail, &halve).unwrap();
    assert!(out.is_empty(), "residue smaller than one chunk shouldn't emit");
    let flushed = streamer.flush(&halve).unwrap();
    assert_eq!(flushed.len(), SAMPLES_PER_CHUNK, "flush zero-pads to a full chunk");
    // After flush the queue is empty; a second flush yields nothing.
    let again = streamer.flush(&halve).unwrap();
    assert!(again.is_empty());
}

#[test]
fn streamer_in_parts_is_streamer_at_once() {
    let audio: Vec<f32> = (0..100_000).map(|i| i as f32).collect();
    let mut a: Dfn3Streamer<f32> = Dfn3Streamer::new();
    let at_once = a.push_samples(&audio, &halve).unwrap();
    let mut b: Dfn3Streamer<f32> = Dfn3Streamer::new();
    let mut pieced = Vec::new();
    for part in audio.chunks(7_919) {
        pieced.extend(b.push_samples(part, &halve).unwrap());
    }
    assert_eq!(at_once, pieced);
    assert_eq!(at_once.len(), 2 * SAMPLES_PER_CHUNK);
    assert_eq!(at_once[10], 5.0);
    assert_eq!(a.buffered_samples(), b.buffered_samples());
}

#[test]
fn chunk_goes_through_analysis_network_and_synthesis() {
    let analyse = |hop: &Vec<f32>| {
        let mut spec = vec![0.0; N_FREQ * 2];
        spec[0] = hop[0];
        AnalysedFrame {
            spectrum: spec,
            erb: vec![0.0; N_ERB],
            df: vec![0.0; NB_DF * 2],
        }
    };
    let synthesise = |spec: &Vec<f32>| vec![spec[0]; DFN3_HOP];
    let audio: Vec<f32> = (0..1000).map(|i| i as f32).collect();
    let out = process(&audio, &analyse, &same_spec, &synthesise).unwrap();
    assert_eq!(out.len(), SAMPLES_PER_CHUNK);
    assert_eq!(out[0], 0.0);
    assert_eq!(out[DFN3_HOP], DFN3_HOP as f32);
    assert_eq!(out[3 * DFN3_HOP], 0.0);
}

#[test]
fn initial_statistics_are_evenly_spaced() {
    assert_eq!(init_state_lerp(-60.0_f32, -90.0, 3), vec![-60.0, -75.0, -90.0]);
    assert_eq!(init_state_lerp(1.0_f32, 2.0, 1), vec![1.0]);
    assert!(init_state_lerp(1.0_f32, 2.0, 0).is_empty());
}

// ---- embeddings ----------------------------------------------------------

type Session = fn(&Vec<f32>, usize, usize) -> Result<GraphOutput<f32>, EmbeddingError>;

fn synthetic_fbank(n_frames: usize, n_mels: usize) -> Vec<f32> {
    let mut feats = vec![0.0_f32; n_frames * n_mels];
    for (i, slot) in feats.iter_mut().enumerate() {
        *slot = (i as f32 * 0.01).sin();
    }
    feats
}

/// The means of the first entries of all frames.
fn whole(x: &Vec<f32>, frames: usize, mels: usize) -> Result<GraphOutput<f32>, EmbeddingError> {
    let data = (0..EMBEDDING_DIM)
        .map(|d| {
            (0..frames)
                .map(|f| x[f * mels + d % mels] * (1.0 + d as f32))
                .sum::<f32>()
                / frames as f32
        })
        .collect();
    Ok(GraphOutput {
        dims: vec![1, EMBEDDING_DIM as i64],
        data,
    })
}

/// One channel per entry of an embedding, channel by channel.
fn encoder(x: &Vec<f32>, frames: usize, mels: usize) -> Result<GraphOutput<f32>, EmbeddingError> {
    let mut data = Vec::new();
    for d in 0..EMBEDDING_DIM {
        for f in 0..frames {
            data.push(x[f * mels + d % mels] * (1.0 + d as f32));
        }
    }
    Ok(GraphOutput {
        dims: vec![1, EMBEDDING_DIM as i64, frames as i64],
        data,
    })
}

/// The mean of every channel.
fn pooler(x: &Vec<f32>, channels: usize, frames: usize) -> Result<GraphOutput<f32>, EmbeddingError> {
    let data = (0..channels)
        .map(|c| x[c * frames..(c + 1) * frames].iter().sum::<f32>() / frames as f32)
        .collect();
    Ok(GraphOutput {
        dims: vec![channels as i64],
        data,
    })
}

fn load(path: &str) -> Result<Session, EmbeddingError> {
    match path {
        "whole" => Ok(whole),
        "encoder" => Ok(encoder),
        "pooler" => Ok(pooler),
        _ => Err(EmbeddingError::Ort(format!("no such file: {path}"))),
    }
}

fn cosine(a: &[f32], b: &[f32]) -> f32 {
    let dot: f32 = a.iter().zip(b).map(|(x, y)| x * y).sum();
    let na: f32 = a.iter().map(|x| x * x).sum::<f32>().sqrt();
    let nb: f32 = b.iter().map(|x| x * x).sum::<f32>().sqrt();
    dot / (na * nb).max(1e-12)
}

#[test]
fn loads_and_runs_against_local_onnx() {
    let model = EcapaTdnn::from_onnx_path("whole", &load).unwrap();
    assert!(!model.supports_split());

    let (n_frames, n_mels) = (100, 80);
    let feats = synthetic_fbank(n_frames, n_mels);

    let emb = model.embed_features(&feats, n_frames, n_mels).unwrap();
    assert_eq!(emb.len(), EMBEDDING_DIM);
    assert!(emb.iter().all(|v| v.is_finite()), "non-finite values in embedding");
    // The embedding is non-trivial — at least one element above noise.
    assert!(emb.iter().any(|&v| v.abs() > 1e-6));
}

#[test]
fn rejects_mis_shaped_features() {
    let model = EcapaTdnn::from_onnx_path("whole", &load).unwrap();
    // 100 * 80 = 8000, but we hand it 1000.
    let feats = vec![0.0_f32; 1000];
    let res = model.embed_features(&feats, 100, 80);
    assert!(res.is_err());
    assert_eq!(
        res.unwrap_err().message(),
        "ndarray shape error: ShapeError/OutOfBounds: out of bounds indexing"
    );
    let res = model.embed_features(&feats, 3, 80);
    assert_eq!(
        res.unwrap_err().message(),
        "ndarray shape error: ShapeError/IncompatibleShape: incompatible shapes"
    );
    let res = model.embed_features(&feats, usize::MAX, 2);
    assert_eq!(
        res.unwrap_err().message(),
        "ndarray shape error: ShapeError/Overflow: arithmetic overflow"
    );
}

#[test]
fn split_methods_error_on_monolithic_model() {
    let model = EcapaTdnn::from_onnx_path("whole", &load).unwrap();
    let feats = synthetic_fbank(100, 80);
    assert!(matches!(
        model.encode_features(&feats, 100, 80),
        Err(EmbeddingError::NotSplit)
    ));
    assert!(matches!(
        model.pool_frame_features(&[0.0; 16], 1, 16),
        Err(EmbeddingError::NotSplit)
    ));
}

#[test]
fn split_encoder_pooler_matches_monolithic() {
    let mono = EcapaTdnn::from_onnx_path("whole", &load).unwrap();
    let split = EcapaTdnn::from_split_onnx_paths("encoder", "pooler", &load).unwrap();
    assert!(split.supports_split());

    let (n_frames, n_mels) = (140, 80);
    let feats = synthetic_fbank(n_frames, n_mels);

    let emb_mono = mono.embed_features(&feats, n_frames, n_mels).unwrap();
    // Via the combined split path.
    let emb_split = split.embed_features(&feats, n_frames, n_mels).unwrap();
    // Via the independent encoder + pooler halves.
    let frames = split.encode_features(&feats, n_frames, n_mels).unwrap();
    assert_eq!(frames.n_frames, n_frames);
    assert!(frames.c_mfa > 0);
    let emb_halves = split
        .pool_frame_features(&frames.data, frames.n_frames, frames.c_mfa)
        .unwrap();
    assert!(cosine(&emb_mono, &emb_split) > 1.0 - 1e-4);
    assert!(cosine(&emb_mono, &emb_halves) > 1.0 - 1e-4);
}

#[test]
fn frame_features_come_frame_by_frame() {
    let split = EcapaTdnn::from_split_onnx_paths("encoder", "pooler", &load).unwrap();
    let feats = synthetic_fbank(5, 80);
    let f = split.encode_features(&feats, 5, 80).unwrap();
    assert_eq!((f.n_frames, f.c_mfa), (5, EMBEDDING_DIM));
    assert_eq!(f.data[3 * EMBEDDING_DIM + 7], feats[3 * 80 + 7] * 8.0);
    assert!(split.pool_frame_features(&f.data, 4, f.c_mfa).is_err());
}

#[test]
fn models_that_are_not_there_are_reported() {
    assert!(EcapaTdnn::from_onnx_path("nowhere", &load).is_err());
    assert!(EcapaTdnn::from_split_onnx_paths("encoder", "nowhere", &load).is_err());
    assert!(EcapaTdnn::from_split_onnx_paths("nowhere", "pooler", &load).is_err());
}

#[test]
fn embedding_of_the_wrong_shape_is_refused() {
    let data = vec![1.0_f32; 400];
    assert_eq!(embedding_from_view(&[192], &data).unwrap().len(), 192);
    assert_eq!(embedding_from_view(&[1, 192], &data).unwrap().len(), 192);
    let err = embedding_from_view(&[2, 192], &data).unwrap_err();
    assert_eq!(
        err.message(),
        "ECAPA ONNX output shape [2, 192] not compatible with expected dim 192"
    );
}

// ---- overlap -------------------------------------------------------------

/// Ten frames in which nobody speaks over anybody.
fn alone(_w: &Vec<f32>) -> Result<OverlapReply<f32>, EmbeddingError> {
    let mut data = Vec::new();
    for _ in 0..10 {
        data.extend([-9.0, 9.0, -9.0, -9.0, -9.0, -9.0, -9.0]);
    }
    Ok(OverlapReply {
        dims: vec![1, 10, N_CLASSES as i64],
        data,
    })
}

#[test]
fn detector_runs_and_returns_a_decision_after_one_second_of_audio() {
    let mut det: OverlapDetector<f32> = OverlapDetector::new();
    // First push: buffer still filling, no decision yet.
    let half_window = vec![0.01_f32; OVERLAP_WINDOW_SAMPLES / 2];
    assert!(
        det.push(&half_window, &alone, &exp).unwrap().is_none(),
        "no decision while the buffer is half-full"
    );
    // Second push completes the buffer; the cadence counter has
    // also accumulated past the default 4 000-sample cadence so the
    // detector fires on this call.
    let decision = det
        .push(&half_window, &alone, &exp)
        .unwrap()
        .expect("first inference fires once the buffer fills");
    assert!(decision.mean_overlap_prob < 0.1);
    assert_eq!(decision.total_frames, 10);
    assert_eq!(decision.overlap_frame_count, 0);
    // Then only once the cadence has passed.
    let quarter = vec![0.01_f32; DEFAULT_CADENCE - 1];
    assert!(det.push(&quarter, &alone, &exp).unwrap().is_none());
    assert!(det.push(&[0.01], &alone, &exp).unwrap().is_some());
}

#[test]
fn overlap_classes_are_the_last_three() {
    let frame = |c: usize| {
        let mut f = vec![-20.0_f32; N_CLASSES];
        f[c] = 20.0;
        f
    };
    let mut data = frame(5);
    data.extend(frame(2));
    let d = summarise(&[1, 2, 7], &data, &exp).unwrap();
    assert_eq!(d.overlap_frame_count, 1);
    assert_eq!(d.total_frames, 2);
    assert!((d.max_overlap_prob - 1.0).abs() < 1e-5);
    assert!((d.mean_overlap_prob - 0.5).abs() < 1e-5);
    assert_eq!(d.overlap_frame_fraction(), 0.5);
    assert!(summarise(&[1, 2, 6], &data, &exp).is_err());
}

#[test]
fn scores_that_are_no_numbers_name_no_class() {
    let (nan, low) = (f32::NAN, f32::NEG_INFINITY);
    let overlaps = |frame: [f32; 7]| {
        summarise(&[1, 1, 7], &frame, &exp).unwrap().overlap_frame_count
    };
    assert_eq!(overlaps([nan; 7]), 0);
    assert_eq!(overlaps([nan, nan, nan, nan, nan, low, low]), 0);
    assert_eq!(overlaps([low; 7]), 0);
    assert_eq!(overlaps([nan, nan, nan, nan, nan, 0.5, nan]), 1);
    assert_eq!(overlaps([nan, 2.0, nan, nan, 1.0, nan, low]), 0);
    assert_eq!(overlaps([1.0, 2.0, nan, 3.0, 3.5, nan, 3.5]), 1);
}

#[test]
fn pooler_wants_a_shape_that_can_be_had() {
    let got = mellonella::embedding::pooler_input::<f32>(&[], 0, usize::MAX);
    assert_eq!(
        got.unwrap_err().message(),
        "ndarray shape error: ShapeError/Overflow: arithmetic overflow"
    );
    let got = mellonella::embedding::pooler_input(&[1.0_f32, 2.0, 3.0, 4.0], 2, 2);
    assert_eq!(got.unwrap(), vec![1.0, 3.0, 2.0, 4.0]);
}

#[test]
fn detector_cadence_in_milliseconds() {
    let mut det: OverlapDetector<f32> = OverlapDetector::new();
    assert_eq!(det.cadence_ms(), 250.0);
    det.set_cadence_samples(0);
    assert_eq!(det.cadence_ms(), 0.0625);
    assert!(det.force_run(&alone, &exp).unwrap().is_none());
}

#[test]
fn session_is_opened_where_the_model_can_be_read() {
    let asked = std::cell::RefCell::new(Vec::new());
    let load = |path: &str| {
        asked.borrow_mut().push(path.to_string());
        if path == "tse.onnx" {
            Ok(())
        } else {
            Err(TseError::Ort("no such file".to_string()))
        }
    };
    let opened: Result<TseSession<f32>, TseError> = TseSession::from_onnx_path("tse.onnx", &load);
    let mut s = match opened {
        Ok(s) => s,
        Err(e) => panic!("{}", e.message()),
    };
    assert_eq!(s.config().enc_stride, 16);
    let out = s.process_chunk(&[0.5; 32], &[0.0; TSE_COND_DIM], &doubler).unwrap();
    assert_eq!(out, vec![1.0; 32]);

    let wide: Result<TseSession<f32>, TseError> =
        TseSession::from_onnx_path_with_config("tse.onnx", TseConfig::prod_48k(), &load);
    assert!(matches!(wide, Ok(s) if s.config().enc_stride == 48));
    let gone: Result<TseSession<f32>, TseError> = TseSession::from_onnx_path("none", &load);
    assert!(matches!(gone, Err(TseError::Ort(t)) if t == "no such file"));
    assert_eq!(asked.into_inner(), vec!["tse.onnx", "tse.onnx", "none"]);
}
