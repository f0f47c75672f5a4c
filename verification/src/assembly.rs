//! Putting a streaming engine together: which parts it has, in which order they
//! are checked and read, and what it starts from.
use crate::chain::{is_started_afresh, Chain, ChainMode, HoldView, Memory};
use crate::config::StreamingConfig;
use crate::dfn3::{Dfn3Streamer, DFN3_SR};
use crate::embedding::{EmbeddingError, EMBEDDING_DIM};
use crate::engine::{
    frames_at_most, in_turn, is_record_of, joined_output, Intake, Station,
};
use crate::enrollment::{uniform, EmbeddingPool, PoolView};
use crate::gating::{is_coef, EnvelopeState, GateState};
use crate::overlap::{OverlapDetector, OverlapReply, DEFAULT_CADENCE};
use crate::pipeline::{initial_score, is_spared, keeps_voice, pre_roll_samples, PipelineError, ScoreState};
use crate::refresh::{Received, RefreshChannel};
use crate::scalar::{lawful, num, total, Scalar};
use crate::speech::{FastF0Cue, SpeechTracker};
use crate::streaming::{
    is_cond, no_output, tse_cond_embedding, Kit, Moment, StreamingOutput,
    StreamingState,
};
use crate::tse::{is_initial_state, Tensor, TseConfig, TseError, TseReply};
use crate::tse_stage::{is_built, StageView, TseStage, TseStageConfig, TseStageError};
use crate::turn::{steady, TurnDetector, TurnState};
use crate::vad::{SileroVad, VadReply, CHUNK_SAMPLES_16K};
use std::collections::VecDeque;
use vstd::prelude::*;
use vstd::string::*;

verus! {

/// The parts around the networks: the state of voice activity, the impostor
/// cohort, and an extraction stage from an earlier run, if there is one.
pub struct PipelineComponents<N> {
    pub vad: SileroVad<N>,
    pub cohort: Vec<Vec<N>>,
    pub tse: Option<TseStage<N>>,
}

// ---------------------------------------------------------------------
// The state at the start
// ---------------------------------------------------------------------
/// An engine before any audio, without stages and without a worker.
pub open spec fn is_fresh_engine<N: Scalar, E: Fn(N) -> N>(
    config: StreamingConfig<N>,
    exp: E,
    s: StreamingState<N>,
) -> bool {
    &&& is_silent(config, exp, s)
    &&& s.speech@.pre_roll_capacity == pre_roll_samples(
        config.pipeline.pre_roll_ms,
        config.pipeline.sample_rate,
    )
    &&& s.chain@.tse is None
    &&& s.chain@.dfn3 is None
    &&& s.chain@.detector is None
    &&& is_unheld(s.chain@.hold)
    &&& s.channel is None
}

/// A chain starts in solo mode, and no verdict has counted yet.
pub open spec fn is_unheld<N: Scalar>(h: HoldView<N>) -> bool {
    &&& h.mode == ChainMode::Solo
    &&& lawful::<N>() ==> h.above_ms == num::<N>(0) && h.below_ms == num::<N>(0)
}

/// Nothing was heard, scored, decided or held back.
pub open spec fn is_silent<N: Scalar, E: Fn(N) -> N>(
    config: StreamingConfig<N>,
    exp: E,
    s: StreamingState<N>,
) -> bool {
    &&& s.speech@.buffer.len() == 0
    &&& s.speech@.pre_roll.len() == 0
    &&& s.speech@.since_update == 0
    &&& !s.speech@.silence_seen
    &&& s.speech@.new_speech == 0
    &&& !s.speech@.prev_speech
    &&& s.gate.rules() == config.gate
    &&& !s.gate@.on
    &&& s.current_decision is None
    &&& s.frame_idx == 0
    &&& s.audio_samples_emitted == 0
    &&& s.fast_f0_cue@.len() == 0
    &&& s.turn.state == TurnState::Steady
    &&& s.turn.effective_window == config.pipeline.sv_window_samples
    &&& !s.turn.offset_failclosed_active
    &&& s.turn.turn_stable_counter == 0
    &&& s.chain@.held_back() == 0
    &&& s.chain@.gains.len() == 0
    &&& s.chain@.raws.len() == 0
    &&& lawful::<N>() ==> {
        &&& s.speech@.speech_ms == num::<N>(0)
        &&& s.speech@.silence_ms == num::<N>(0)
        &&& s.score == initial_score::<N>()
        &&& s.gate@.elapsed == num::<N>(0)
        &&& s.envelope@.value == num::<N>(0)
        &&& is_coef(config.gate.attack_ms, config.audio_sample_rate, exp, s.envelope@.attack)
        &&& is_coef(config.gate.release_ms, config.audio_sample_rate, exp, s.envelope@.release)
        &&& s.turn == steady::<N>(config.pipeline.sv_window_samples)
    }
}

/// The resampler between two rates could be built or not.
pub open spec fn is_bridged<B: Fn(u32, u32) -> Result<(), String>>(
    audio_sr: u32,
    decision_sr: u32,
    bridge: B,
    r: Result<(), String>,
) -> bool {
    if audio_sr == decision_sr {
        r is Ok
    } else {
        call_ensures(bridge, (audio_sr, decision_sr), r)
    }
}

/// The text of a resampler that cannot be built.
pub open spec fn no_bridge(cause: Seq<char>) -> Seq<char> {
    "streaming resampler init failed: "@ + cause
}

/// The error with the given text.
pub open spec fn is_text(e: PipelineError, text: Seq<char>) -> bool {
    e matches PipelineError::Embedding(EmbeddingError::Ort(m)) && m@ == text
}

/// What [`StreamingState::new`] returns.
pub open spec fn is_started<N: Scalar, B: Fn(u32, u32) -> Result<(), String>, E: Fn(N) -> N>(
    config: StreamingConfig<N>,
    bridge: B,
    exp: E,
    r: Result<(Intake<N>, StreamingState<N>), PipelineError>,
) -> bool {
    if config.pipeline.async_refresh {
        r matches Err(e) && is_text(
            e,
            "StreamingState::new requires async_refresh = false; use StreamingState::new_async or StreamingPipeline::new for async"@,
        )
    } else {
        is_bridged_start(config, bridge, exp, r)
    }
}

/// A fresh engine, unless its resampler cannot be built.
pub open spec fn is_bridged_start<
    N: Scalar,
    B: Fn(u32, u32) -> Result<(), String>,
    E: Fn(N) -> N,
>(
    config: StreamingConfig<N>,
    bridge: B,
    exp: E,
    r: Result<(Intake<N>, StreamingState<N>), PipelineError>,
) -> bool {
    let audio_sr = config.audio_sample_rate;
    let decision_sr = config.pipeline.sample_rate;
    exists|bridged: Result<(), String>|
        {
            &&& #[trigger] is_bridged(audio_sr, decision_sr, bridge, bridged)
            &&& match bridged {
                Err(cause) => r matches Err(e) && is_text(e, no_bridge(cause@)),
                Ok(_) => {
                    &&& r matches Ok((intake, state))
                    &&& intake.audio_ring@.len() == 0
                    &&& intake.dual_rate == (audio_sr != decision_sr)
                    &&& is_fresh_engine(config, exp, state)
                },
            }
        }
}

fn text_error(text: String) -> (e: PipelineError)
    ensures
        is_text(e, text@),
{
    PipelineError::Embedding(EmbeddingError::Ort(text))
}

impl<N: Scalar> StreamingState<N> {
    /// An engine that computes embeddings itself. `bridge` builds the resampler
    /// where the rates differ.
    pub fn new<B: Fn(u32, u32) -> Result<(), String>, E: Fn(N) -> N>(
        config: &StreamingConfig<N>,
        bridge: &B,
        exp: &E,
    ) -> (r: Result<(Intake<N>, Self), PipelineError>)
        requires
            total::<N>(),
            pre_roll_samples(config.pipeline.pre_roll_ms, config.pipeline.sample_rate)
                <= usize::MAX,
            forall|a: u32, d: u32| call_requires(*bridge, (a, d)),
            forall|x: N| call_requires(*exp, (x,)),
        ensures
            is_started(*config, *bridge, *exp, r),
            r matches Ok((_, state)) ==> state.wf(config.pipeline),
    {
        if config.pipeline.async_refresh {
            return Err(
                text_error(
                    "StreamingState::new requires async_refresh = false; use StreamingState::new_async or StreamingPipeline::new for async".to_owned(),
                ),
            );
        }
        Self::start(config, bridge, exp)
    }

    fn start<B: Fn(u32, u32) -> Result<(), String>, E: Fn(N) -> N>(
        config: &StreamingConfig<N>,
        bridge: &B,
        exp: &E,
    ) -> (r: Result<(Intake<N>, Self), PipelineError>)
        requires
            total::<N>(),
            pre_roll_samples(config.pipeline.pre_roll_ms, config.pipeline.sample_rate)
                <= usize::MAX,
            forall|a: u32, d: u32| call_requires(*bridge, (a, d)),
            forall|x: N| call_requires(*exp, (x,)),
        ensures
            is_bridged_start(*config, *bridge, *exp, r),
            r matches Ok((_, state)) ==> state.wf(config.pipeline),
    {
        let decision_sr: u32 = config.pipeline.sample_rate;
        let audio_sr: u32 = config.audio_sample_rate;
        let bridged: Result<(), String> = if audio_sr == decision_sr {
            Ok(())
        } else {
            bridge(audio_sr, decision_sr)
        };
        assert(is_bridged(audio_sr, decision_sr, *bridge, bridged));
        if let Err(cause) = bridged {
            let text: String = "streaming resampler init failed: ".to_owned().concat(
                cause.as_str(),
            );
            return Err(text_error(text));
        }
        let pre_roll_capacity: usize = config.pipeline.pre_roll_samples_decision();
        let chain: Chain<N> = Chain::new(None, None, None);
        proof {
            chain.lemma_sound();
            chain.lemma_balanced();
        }
        let state: StreamingState<N> = StreamingState {
            speech: SpeechTracker::new(pre_roll_capacity),
            score: ScoreState::new(),
            gate: GateState::new(config.gate),
            envelope: EnvelopeState::new(config.gate, audio_sr, exp),
            current_decision: None,
            frame_idx: 0,
            audio_samples_emitted: 0,
            fast_f0_cue: FastF0Cue::new(),
            turn: TurnDetector::new(config.pipeline.sv_window_samples),
            chain,
            channel: None,
        };
        let intake: Intake<N> = Intake {
            audio_ring: VecDeque::new(),
            dual_rate: audio_sr != decision_sr,
        };
        Ok((intake, state))
    }

    /// An engine whose embeddings are computed by a worker. `spawn` starts it.
    pub fn new_async<
        B: Fn(u32, u32) -> Result<(), String>,
        G: Fn() -> Result<(), String>,
        E: Fn(N) -> N,
    >(config: &StreamingConfig<N>, bridge: &B, spawn: &G, exp: &E) -> (r: Result<
        (Intake<N>, Self),
        PipelineError,
    >)
        requires
            total::<N>(),
            pre_roll_samples(config.pipeline.pre_roll_ms, config.pipeline.sample_rate)
                <= usize::MAX,
            forall|a: u32, d: u32| call_requires(*bridge, (a, d)),
            call_requires(*spawn, ()),
            forall|x: N| call_requires(*exp, (x,)),
        ensures
            is_started_async(*config, *bridge, *spawn, *exp, r),
            r matches Ok((_, state)) ==> state.wf(config.pipeline),
    {
        if !config.pipeline.async_refresh {
            return Err(
                text_error("StreamingState::new_async requires async_refresh = true".to_owned()),
            );
        }
        let started: Result<(Intake<N>, Self), PipelineError> = Self::start(config, bridge, exp);
        assert(is_bridged_start(*config, *bridge, *exp, started));
        match started {
            Err(e) => Err(e),
            Ok((intake, state)) => {
                let spawned: Result<(), String> = spawn();
                assert(call_ensures(*spawn, (), spawned));
                if let Err(cause) = spawned {
                    let text: String = "spawn async worker: ".to_owned().concat(cause.as_str());
                    return Err(text_error(text));
                }
                let mut state: Self = state;
                state.channel = Some(RefreshChannel::new());
                Ok((intake, state))
            },
        }
    }

    /// Forgets all audio, scores and decisions. The pool, the stages and the
    /// worker stay, and so does the mode of the chain.
    pub fn reset<E: Fn(N) -> N, F: Fn(Memory)>(
        &mut self,
        config: &StreamingConfig<N>,
        exp: &E,
        forget: &F,
    )
        requires
            total::<N>(),
            old(self).sound(config.pipeline),
            forall|x: N| call_requires(*exp, (x,)),
            forall|m: Memory| call_requires(*forget, (m,)),
        ensures
            final(self).wf(config.pipeline),
            is_silent(*config, *exp, *final(self)),
            final(self).speech@.pre_roll_capacity == old(self).speech@.pre_roll_capacity,
            final(self).channel == old(self).channel,
            final(self).chain@.hold == old(self).chain@.hold,
            is_started_afresh(old(self).chain@, final(self).chain@),
            old(self).chain@.dfn3 is Some ==> call_ensures(*forget, (Memory::Enhancer,), ()),
    {
        self.speech.reset();
        self.score = ScoreState::new();
        self.gate = GateState::new(config.gate);
        self.envelope = EnvelopeState::new(config.gate, config.audio_sample_rate, exp);
        self.current_decision = None;
        self.frame_idx = 0;
        self.audio_samples_emitted = 0;
        self.fast_f0_cue.reset();
        self.turn.reset(config.pipeline.sv_window_samples);
        self.chain.reset(forget);
        proof {
            self.chain.lemma_sound();
        }
    }
}

/// What [`StreamingState::new_async`] returns.
pub open spec fn is_started_async<
    N: Scalar,
    B: Fn(u32, u32) -> Result<(), String>,
    G: Fn() -> Result<(), String>,
    E: Fn(N) -> N,
>(
    config: StreamingConfig<N>,
    bridge: B,
    spawn: G,
    exp: E,
    r: Result<(Intake<N>, StreamingState<N>), PipelineError>,
) -> bool {
    if !config.pipeline.async_refresh {
        r matches Err(e) && is_text(
            e,
            "StreamingState::new_async requires async_refresh = true"@,
        )
    } else {
        exists|started: Result<(Intake<N>, StreamingState<N>), PipelineError>|
            {
                &&& #[trigger] is_bridged_start(config, bridge, exp, started)
                &&& match started {
                    Err(e) => r == Err::<(Intake<N>, StreamingState<N>), PipelineError>(e),
                    Ok((intake, state)) => exists|spawned: Result<(), String>|
                        {
                            &&& #[trigger] call_ensures(spawn, (), spawned)
                            &&& match spawned {
                                Err(cause) => r matches Err(e) && is_text(
                                    e,
                                    "spawn async worker: "@ + cause@,
                                ),
                                Ok(_) => {
                                    &&& r matches Ok((i, s))
                                    &&& i == intake
                                    &&& s == (StreamingState { channel: s.channel, ..state })
                                    &&& s.channel matches Some(c)
                                    &&& c@.outstanding == 0
                                    &&& c@.pending is None
                                    &&& c@.frames.len() == 0
                                },
                            }
                        },
                }
            }
    }
}

// ---------------------------------------------------------------------
// The stages
// ---------------------------------------------------------------------
/// What a stage holds, if there is one.
pub open spec fn stage_view<N: Scalar>(stage: Option<TseStage<N>>) -> Option<StageView<N>> {
    match stage {
        Some(t) => Some(t@),
        None => None,
    }
}

/// There is extraction and noise suppression.
pub open spec fn has_both<N>(stage: Option<TseStage<N>>, quiet: bool) -> bool {
    stage is Some && quiet
}

/// What preparing extraction gives: nothing where it is not configured; an
/// error where the audio has another rate than the model, where nobody is
/// enrolled, or where the model cannot be read; a stage from an earlier run,
/// started afresh, where there is one; otherwise a new stage.
pub open spec fn is_tse_prepared<N: Scalar, L: Fn(&str) -> Result<(), TseError>>(
    cfg: Option<TseStageConfig>,
    audio_sr: u32,
    pool: PoolView<N>,
    existing: Option<StageView<N>>,
    load: L,
    r: Result<Option<TseStage<N>>, PipelineError>,
) -> bool {
    match cfg {
        None => r == Ok::<Option<TseStage<N>>, PipelineError>(None),
        Some(sc) => if audio_sr != sc.model.rate() {
            r == Err::<Option<TseStage<N>>, PipelineError>(
                PipelineError::TseRateMismatch { audio_sr, expected_sr: sc.model.rate() as u32 },
            )
        } else {
            exists|cond: Result<Vec<N>, PipelineError>|
                {
                    &&& #[trigger] is_cond(pool, cond)
                    &&& match cond {
                        Err(e) => r == Err::<Option<TseStage<N>>, PipelineError>(e),
                        Ok(c) => match existing {
                            Some(t) => {
                                &&& r matches Ok(Some(stage))
                                &&& is_restarted(t, c@, stage@)
                            },
                            None => is_newly_built(sc, c@, load, r),
                        },
                    }
                }
        },
    }
}

/// A stage from an earlier run, started afresh with another embedding.
pub open spec fn is_restarted<N: Scalar>(
    before: StageView<N>,
    cond: Seq<N>,
    after: StageView<N>,
) -> bool {
    &&& after == (StageView { carried: after.carried, cond, pending: Seq::empty(), ..before })
    &&& is_initial_state(after.model, after.carried@)
}

/// A stage was built from its configuration.
pub open spec fn is_newly_built<N: Scalar, L: Fn(&str) -> Result<(), TseError>>(
    config: TseStageConfig,
    cond: Seq<N>,
    load: L,
    r: Result<Option<TseStage<N>>, PipelineError>,
) -> bool {
    exists|built: Result<TseStage<N>, TseStageError>|
        {
            &&& #[trigger] is_built(config, cond, load, built)
            &&& match built {
                Err(e) => r == Err::<Option<TseStage<N>>, PipelineError>(
                    PipelineError::TseStage(e),
                ),
                Ok(stage) => r == Ok::<Option<TseStage<N>>, PipelineError>(Some(stage)),
            }
        }
}

/// Prepares extraction for a run.
pub fn prepare_tse<N: Scalar, L: Fn(&str) -> Result<(), TseError>>(
    cfg: &Option<TseStageConfig>,
    audio_sr: u32,
    pool: &EmbeddingPool<N>,
    existing: Option<TseStage<N>>,
    load: &L,
) -> (r: Result<Option<TseStage<N>>, PipelineError>)
    requires
        pool.wf(),
        existing matches Some(t) ==> t.wf(),
        *cfg matches Some(sc) ==> model_ok(sc.model),
        forall|path: &str| call_requires(*load, (path,)),
    ensures
        is_tse_prepared(
            *cfg,
            audio_sr,
            pool@,
            stage_view(existing),
            *load,
            r,
        ),
        r matches Ok(Some(stage)) ==> stage.wf() && stage@.pending.len() == 0,
{
    match cfg {
        None => Ok(None),
        Some(sc) => {
            let expected_sr: u32 = sc.model.sample_rate();
            if audio_sr != expected_sr {
                return Err(PipelineError::TseRateMismatch { audio_sr, expected_sr });
            }
            let cond: Result<Vec<N>, PipelineError> = tse_cond_embedding(pool);
            assert(is_cond(pool@, cond));
            match cond {
                Err(e) => Err(e),
                Ok(c) => match existing {
                    Some(t) => {
                        let mut stage: TseStage<N> = t;
                        stage.reset();
                        let set: Result<(), TseStageError> = stage.set_cond_embedding(
                            c.as_slice(),
                        );
                        match set {
                            Err(e) => Err(PipelineError::TseStage(e)),
                            Ok(()) => Ok(Some(stage)),
                        }
                    },
                    None => {
                        let built: Result<TseStage<N>, TseStageError> = TseStage::from_config(
                            sc,
                            c.as_slice(),
                            load,
                        );
                        assert(is_built(*sc, c@, *load, built));
                        match built {
                            Err(e) => Err(PipelineError::TseStage(e)),
                            Ok(stage) => Ok(Some(stage)),
                        }
                    },
                },
            }
        },
    }
}

/// The model at `path` was read with that outcome.
pub open spec fn is_opened_model<L: Fn(&str) -> Result<(), EmbeddingError>>(
    path: Seq<char>,
    load: L,
    r: Result<(), EmbeddingError>,
) -> bool {
    exists|p: &str| p@ == path && #[trigger] call_ensures(load, (p,), r)
}

/// What preparing noise suppression gives: nothing where it is not configured,
/// an error at another rate than the model's or where the model cannot be read.
pub open spec fn is_dfn3_prepared<N, L: Fn(&str) -> Result<(), EmbeddingError>>(
    config: StreamingConfig<N>,
    load: L,
    r: Result<bool, PipelineError>,
) -> bool {
    match config.dfn3_onnx_path {
        None => r == Ok::<bool, PipelineError>(false),
        Some(path) => if config.audio_sample_rate != DFN3_SR {
            r == Err::<bool, PipelineError>(
                PipelineError::TseRateMismatch {
                    audio_sr: config.audio_sample_rate,
                    expected_sr: DFN3_SR as u32,
                },
            )
        } else {
            exists|opened: Result<(), EmbeddingError>|
                {
                    &&& #[trigger] is_opened_model(path@, load, opened)
                    &&& match opened {
                        Err(e) => r == Err::<bool, PipelineError>(PipelineError::Embedding(e)),
                        Ok(_) => r == Ok::<bool, PipelineError>(true),
                    }
                }
        },
    }
}

/// Prepares noise suppression: whether there is any.
pub fn prepare_dfn3<N: Scalar, L: Fn(&str) -> Result<(), EmbeddingError>>(
    config: &StreamingConfig<N>,
    load: &L,
) -> (r: Result<bool, PipelineError>)
    requires
        forall|path: &str| call_requires(*load, (path,)),
    ensures
        is_dfn3_prepared(*config, *load, r),
{
    match &config.dfn3_onnx_path {
        None => Ok(false),
        Some(path) => {
            let expected_sr: u32 = DFN3_SR as u32;
            if config.audio_sample_rate != expected_sr {
                return Err(
                    PipelineError::TseRateMismatch {
                        audio_sr: config.audio_sample_rate,
                        expected_sr,
                    },
                );
            }
            let opened: Result<(), EmbeddingError> = load(path.as_str());
            assert(is_opened_model(path@, *load, opened));
            match opened {
                Err(e) => Err(PipelineError::Embedding(e)),
                Ok(()) => Ok(true),
            }
        },
    }
}

/// What preparing the overlap detector gives: nothing unless it is configured
/// and has both stages to choose between, an error where the model cannot be
/// read.
pub open spec fn is_overlap_prepared<N, L: Fn(&str) -> Result<(), EmbeddingError>>(
    config: StreamingConfig<N>,
    both_stages: bool,
    load: L,
    r: Result<bool, PipelineError>,
) -> bool {
    if config.overlap_onnx_path is Some && both_stages {
        exists|opened: Result<(), EmbeddingError>|
            {
                &&& #[trigger] is_opened_model(config.overlap_onnx_path->0@, load, opened)
                &&& match opened {
                    Err(e) => r == Err::<bool, PipelineError>(PipelineError::Embedding(e)),
                    Ok(_) => r == Ok::<bool, PipelineError>(true),
                }
            }
    } else {
        r == Ok::<bool, PipelineError>(false)
    }
}

/// Prepares the overlap detector: whether there is one.
pub fn prepare_overlap<N: Scalar, L: Fn(&str) -> Result<(), EmbeddingError>>(
    config: &StreamingConfig<N>,
    both_stages: bool,
    load: &L,
) -> (r: Result<bool, PipelineError>)
    requires
        forall|path: &str| call_requires(*load, (path,)),
    ensures
        is_overlap_prepared(*config, both_stages, *load, r),
{
    match &config.overlap_onnx_path {
        None => Ok(false),
        Some(path) => {
            if !both_stages {
                return Ok(false);
            }
            let opened: Result<(), EmbeddingError> = load(path.as_str());
            assert(is_opened_model(config.overlap_onnx_path->0@, *load, opened));
            match opened {
                Err(e) => Err(PipelineError::Embedding(e)),
                Ok(()) => Ok(true),
            }
        },
    }
}

/// An architecture that can be run here.
pub open spec fn model_ok(m: TseConfig) -> bool {
    m.enc_stride > 0 && m.fits() && m.rate() <= u32::MAX
}

// ---------------------------------------------------------------------
// The pipeline
// ---------------------------------------------------------------------
/// A single-target speaker gate driven by pushes of audio of any length.
pub struct StreamingPipeline<N, V, R, S, C, P, O, M, D, I, J, E, Q, W, T, F> {
    pub kit: Kit<N, V, R, S, C, P, O, M, D, I, J, E, Q, W, T, F>,
    pub intake: Intake<N>,
    pub state: StreamingState<N>,
    pub vad: SileroVad<N>,
    pub cohort: Vec<Vec<N>>,
    /// A stage from an earlier run that this run has no use for.
    pub idle_tse: Option<TseStage<N>>,
    pub pool: EmbeddingPool<N>,
    pub config: StreamingConfig<N>,
}

impl<
    N: Scalar,
    V: Fn(&Vec<N>, &Vec<N>, u32) -> Result<VadReply<N>, EmbeddingError>,
    R: Fn(&Vec<N>) -> Result<(Vec<N>, N), EmbeddingError>,
    S: Fn(Vec<N>) -> bool,
    C: Fn(bool) -> Received<N>,
    P: Fn(&Vec<N>) -> Option<N>,
    O: Fn(&Vec<N>) -> Result<OverlapReply<N>, EmbeddingError>,
    M: Fn(&[N], &[N], &Vec<Tensor<N>>) -> Result<TseReply<N>, TseError>,
    D: Fn(&Vec<N>) -> Result<Vec<N>, EmbeddingError>,
    I: Fn() -> usize,
    J: Fn(&Vec<N>) -> Result<Vec<N>, String>,
    E: Fn(N) -> N,
    Q: Fn(N) -> N,
    W: Fn(N) -> N,
    T: Fn(N) -> N,
    F: Fn(Memory),
> StreamingPipeline<N, V, R, S, C, P, O, M, D, I, J, E, Q, W, T, F> {
    /// The parts fit together: the pipeline can take audio.
    pub open spec fn sound(&self) -> bool {
        &&& self.kit.ready()
        &&& self.state.sound(self.config.pipeline)
        &&& self.vad.wf()
        &&& self.pool.wf()
        &&& self.pool@.uniform(EMBEDDING_DIM as nat)
        &&& uniform(self.cohort@, EMBEDDING_DIM as nat)
    }

    /// No stage has failed since the pipeline was built or last reset.
    pub open spec fn wf(&self) -> bool {
        self.sound() && self.state.wf(self.config.pipeline)
    }

    /// The counters have room for `n` more samples.
    pub open spec fn room(&self, n: nat) -> bool {
        &&& self.state.room(
            frames_at_most(self.intake.dual_rate, self.intake.audio_ring@.len() + n),
        )
        &&& self.state.audio_samples_emitted + self.intake.audio_ring@.len() + n <= usize::MAX
    }

    /// Whether the counters have room for `n` more samples.
    pub fn has_room(&self, n: usize) -> (r: bool)
        ensures
            r == self.room(n as nat),
    {
        let held: usize = self.intake.audio_ring.len();
        if n > usize::MAX - held {
            return false;
        }
        let ahead: usize = held + n;
        let frames: usize = if self.intake.dual_rate {
            ahead
        } else {
            ahead / CHUNK_SAMPLES_16K
        };
        self.state.has_room(frames) && ahead <= usize::MAX - self.state.audio_samples_emitted
    }

    /// Room for more is room for less.
    pub proof fn lemma_room_shrinks(&self, n: nat, m: nat)
        requires
            self.room(m),
            n <= m,
        ensures
            self.room(n),
    {
        let len = self.intake.audio_ring@.len();
        let dual = self.intake.dual_rate;
        assert(frames_at_most(dual, len + n) <= frames_at_most(dual, len + m)) by {
            vstd::arithmetic::div_mod::lemma_div_is_ordered(
                (len + n) as int,
                (len + m) as int,
                CHUNK_SAMPLES_16K as int,
            );
        }
    }

    /// How many samples were taken in and have not come out yet.
    pub open spec fn waiting(&self) -> nat {
        self.state.chain@.held_back() + self.intake.audio_ring@.len()
    }

    /// Where the pipeline stands.
    pub open spec fn station(&self) -> Station<N> {
        Station {
            ring: self.intake.audio_ring@,
            at: Moment { state: self.state, vad: self.vad@, pool: self.pool@ },
        }
    }

    /// Only what moves with the audio differs.
    pub open spec fn same_parts(&self, other: &Self) -> bool {
        &&& self.kit == other.kit
        &&& self.intake.dual_rate == other.intake.dual_rate
        &&& self.cohort == other.cohort
        &&& self.idle_tse == other.idle_tse
        &&& self.config == other.config
    }

    /// What [`StreamingPipeline::new`] checks and reads, in order: extraction,
    /// noise suppression, the overlap detector, and then the engine, with a
    /// worker or without. The first error is returned.
    pub open spec fn is_assembled<
        L: Fn(&str) -> Result<(), TseError>,
        K: Fn(&str) -> Result<(), EmbeddingError>,
        B: Fn(u32, u32) -> Result<(), String>,
        G: Fn() -> Result<(), String>,
    >(
        pool: EmbeddingPool<N>,
        config: StreamingConfig<N>,
        components: PipelineComponents<N>,
        kit: Kit<N, V, R, S, C, P, O, M, D, I, J, E, Q, W, T, F>,
        load_tse: L,
        load: K,
        bridge: B,
        spawn: G,
        r: Result<Self, PipelineError>,
    ) -> bool {
        exists|tse: Result<Option<TseStage<N>>, PipelineError>|
            {
                &&& #[trigger] is_tse_prepared(
                    config.pipeline.tse,
                    config.audio_sample_rate,
                    pool@,
                    stage_view(components.tse),
                    load_tse,
                    tse,
                )
                &&& match tse {
                    Err(e) => r == Err::<Self, PipelineError>(e),
                    Ok(stage) => exists|dfn3: Result<bool, PipelineError>|
                        {
                            &&& #[trigger] is_dfn3_prepared(config, load, dfn3)
                            &&& match dfn3 {
                                Err(e) => r == Err::<Self, PipelineError>(e),
                                Ok(quiet) => exists|overlap: Result<bool, PipelineError>|
                                    {
                                        &&& #[trigger] is_overlap_prepared(
                                            config,
                                            has_both(stage, quiet),
                                            load,
                                            overlap,
                                        )
                                        &&& match overlap {
                                            Err(e) => r == Err::<Self, PipelineError>(e),
                                            Ok(detects) => Self::is_set_up(
                                                pool,
                                                config,
                                                components,
                                                kit,
                                                stage,
                                                quiet,
                                                detects,
                                                bridge,
                                                spawn,
                                                r,
                                            ),
                                        }
                                    },
                            }
                        },
                }
            }
    }

    /// The engine was started and given its stages.
    pub open spec fn is_set_up<
        B: Fn(u32, u32) -> Result<(), String>,
        G: Fn() -> Result<(), String>,
    >(
        pool: EmbeddingPool<N>,
        config: StreamingConfig<N>,
        components: PipelineComponents<N>,
        kit: Kit<N, V, R, S, C, P, O, M, D, I, J, E, Q, W, T, F>,
        stage: Option<TseStage<N>>,
        quiet: bool,
        detects: bool,
        bridge: B,
        spawn: G,
        r: Result<Self, PipelineError>,
    ) -> bool {
        exists|started: Result<(Intake<N>, StreamingState<N>), PipelineError>|
            {
                &&& #[trigger] is_started_as_asked(config, bridge, spawn, kit.exp, started)
                &&& match started {
                    Err(e) => r == Err::<Self, PipelineError>(e),
                    Ok((intake, state)) => {
                        &&& r matches Ok(p)
                        &&& p == (StreamingPipeline {
                            kit,
                            intake,
                            state: StreamingState { chain: p.state.chain, ..state },
                            vad: components.vad,
                            cohort: components.cohort,
                            idle_tse: if config.pipeline.tse is None {
                                components.tse
                            } else {
                                None
                            },
                            pool,
                            config,
                        })
                        &&& p.state.chain@.tse == stage_view(stage)
                        &&& p.state.chain@.dfn3 is Some <==> quiet
                        &&& p.state.chain@.detector is Some <==> detects
                        &&& p.state.chain@.dfn3 matches Some(d) ==> d.len() == 0
                        &&& p.state.chain@.detector matches Some(d) ==> d.window.len() == 0
                            && d.since_last_run == 0 && d.cadence == DEFAULT_CADENCE
                        &&& p.state.chain@.gains.len() == 0
                        &&& p.state.chain@.raws.len() == 0
                        &&& is_unheld(p.state.chain@.hold)
                    },
                }
            }
    }

    /// Builds a pipeline. `load_tse` and `load` read models, `bridge` builds the
    /// resampler, `spawn` starts the worker.
    pub fn new<
        L: Fn(&str) -> Result<(), TseError>,
        K: Fn(&str) -> Result<(), EmbeddingError>,
        B: Fn(u32, u32) -> Result<(), String>,
        G: Fn() -> Result<(), String>,
    >(
        pool: EmbeddingPool<N>,
        config: StreamingConfig<N>,
        components: PipelineComponents<N>,
        kit: Kit<N, V, R, S, C, P, O, M, D, I, J, E, Q, W, T, F>,
        load_tse: &L,
        load: &K,
        bridge: &B,
        spawn: &G,
    ) -> (r: Result<Self, PipelineError>)
        requires
            total::<N>(),
            kit.ready(),
            pre_roll_samples(config.pipeline.pre_roll_ms, config.pipeline.sample_rate)
                <= usize::MAX,
            config.pipeline.tse matches Some(sc) ==> model_ok(sc.model),
            pool.wf(),
            pool@.uniform(EMBEDDING_DIM as nat),
            components.vad.wf(),
            uniform(components.cohort@, EMBEDDING_DIM as nat),
            components.tse matches Some(t) ==> t.wf(),
            forall|path: &str| call_requires(*load_tse, (path,)),
            forall|path: &str| call_requires(*load, (path,)),
            forall|a: u32, d: u32| call_requires(*bridge, (a, d)),
            call_requires(*spawn, ()),
        ensures
            r matches Ok(p) ==> p.wf(),
            Self::is_assembled(
                pool,
                config,
                components,
                kit,
                *load_tse,
                *load,
                *bridge,
                *spawn,
                r,
            ),
    {
        let PipelineComponents { vad, cohort, tse: existing } = components;
        let (wanted, idle_tse): (Option<TseStage<N>>, Option<TseStage<N>>) =
            if config.pipeline.tse.is_some() {
            (existing, None)
        } else {
            (None, existing)
        };
        let tse: Result<Option<TseStage<N>>, PipelineError> = prepare_tse(
            &config.pipeline.tse,
            config.audio_sample_rate,
            &pool,
            wanted,
            load_tse,
        );
        assert(is_tse_prepared(
            config.pipeline.tse,
            config.audio_sample_rate,
            pool@,
            stage_view(components.tse),
            *load_tse,
            tse,
        ));
        let stage: Option<TseStage<N>> = match tse {
            Err(e) => {
                return Err(e);
            },
            Ok(s) => s,
        };
        let dfn3: Result<bool, PipelineError> = prepare_dfn3(&config, load);
        assert(is_dfn3_prepared(config, *load, dfn3));
        let quiet: bool = match dfn3 {
            Err(e) => {
                return Err(e);
            },
            Ok(q) => q,
        };
        let overlap: Result<bool, PipelineError> = prepare_overlap(
            &config,
            stage.is_some() && quiet,
            load,
        );
        assert(is_overlap_prepared(config, has_both(stage, quiet), *load, overlap));
        let detects: bool = match overlap {
            Err(e) => {
                return Err(e);
            },
            Ok(d) => d,
        };
        let started: Result<(Intake<N>, StreamingState<N>), PipelineError> = if config.pipeline
            .async_refresh {
            StreamingState::new_async(&config, bridge, spawn, &kit.exp)
        } else {
            StreamingState::new(&config, bridge, &kit.exp)
        };
        assert(is_started_as_asked(config, *bridge, *spawn, kit.exp, started));
        match started {
            Err(e) => {
                let r: Result<Self, PipelineError> = Err(e);
                assert(Self::is_set_up(
                    pool,
                    config,
                    components,
                    kit,
                    stage,
                    quiet,
                    detects,
                    *bridge,
                    *spawn,
                    r,
                ));
                r
            },
            Ok((intake, state)) => {
                let mut state: StreamingState<N> = state;
                let dfn3_stream: Option<Dfn3Streamer<N>> = if quiet {
                    Some(Dfn3Streamer::new())
                } else {
                    None
                };
                let overlap_detector: Option<OverlapDetector<N>> = if detects {
                    Some(OverlapDetector::new())
                } else {
                    None
                };
                let ghost staged = stage;
                state.chain = Chain::new(stage, dfn3_stream, overlap_detector);
                proof {
                    state.chain.lemma_sound();
                }
                let r: Result<Self, PipelineError> = Ok(
                    StreamingPipeline { kit, intake, state, vad, cohort, idle_tse, pool, config },
                );
                assert(Self::is_set_up(
                    pool,
                    config,
                    components,
                    kit,
                    staged,
                    quiet,
                    detects,
                    *bridge,
                    *spawn,
                    r,
                ));
                r
            },
        }
    }

    /// What [`StreamingPipeline::push_samples`] does and returns.
    pub open spec fn is_push(
        before: Self,
        samples: Seq<N>,
        after: Self,
        r: Result<StreamingOutput<N>, PipelineError>,
    ) -> bool {
        &&& after.sound()
        &&& after.same_parts(&before)
        &&& is_spared(before.config.pipeline.enable_auto_learn, before.pool@, after.pool@)
        &&& match r {
            Ok(out) => {
                &&& before.wf() ==> after.wf()
                &&& after.room(0)
                &&& is_record_of(
                    out@,
                    after.state.frame_idx - before.state.frame_idx,
                    before.config.diagnostics,
                )
                &&& !before.config.pipeline.enable_auto_learn ==> out@.events.len() == 0
                &&& forall|k: nat|
                    before.state.room(
                        k + frames_at_most(
                            before.intake.dual_rate,
                            before.intake.audio_ring@.len() + samples.len(),
                        ),
                    ) ==> #[trigger] after.state.room(
                        k + frames_at_most(
                            before.intake.dual_rate,
                            after.intake.audio_ring@.len(),
                        ),
                    )
                &&& in_turn(
                    out@.gate_decisions,
                    before.state.audio_samples_emitted,
                    after.state.audio_samples_emitted,
                )
                &&& before.kit.is_dry(
                    before.intake.dual_rate,
                    after.intake.audio_ring@,
                )
                &&& after.state.chain@.adaptive() == before.state.chain@.adaptive()
                &&& before.wf() && !before.state.chain@.adaptive() ==> out@.audio.len()
                    + after.waiting() == before.waiting() + samples.len()
                &&& before.kit.is_way(
                    before.intake.dual_rate,
                    Station {
                        ring: before.intake.audio_ring@ + samples,
                        at: before.station().at,
                    },
                    after.station(),
                    out@,
                    before.cohort@,
                    before.config,
                )
            },
            Err(e) => before.kit.is_dead_end(
                before.intake.dual_rate,
                Station {
                    ring: before.intake.audio_ring@ + samples,
                    at: before.station().at,
                },
                after.station(),
                before.cohort@,
                before.config,
                e,
            ),
        }
    }

    /// What [`StreamingPipeline::flush`] does and returns.
    pub open spec fn is_flush(
        before: Self,
        after: Self,
        r: Result<StreamingOutput<N>, PipelineError>,
    ) -> bool {
        &&& after.sound()
        &&& after.same_parts(&before)
        &&& is_spared(before.config.pipeline.enable_auto_learn, before.pool@, after.pool@)
        &&& match r {
            Ok(out) => {
                &&& before.wf() ==> after.wf() && after.state.chain@.held_back() == 0
                &&& is_record_of(
                    out@,
                    after.state.frame_idx - before.state.frame_idx,
                    before.config.diagnostics,
                )
                &&& !before.config.pipeline.enable_auto_learn ==> out@.events.len() == 0
                &&& before.wf() && !before.intake.dual_rate && !before.state.chain@.adaptive()
                    && before.kit.is_dry(before.intake.dual_rate, before.intake.audio_ring@)
                    ==> out@.audio.len() == before.waiting()
                &&& in_turn(
                    out@.gate_decisions,
                    before.state.audio_samples_emitted,
                    after.state.audio_samples_emitted,
                )
                &&& before.kit.is_flushed(
                    before.intake.dual_rate,
                    before.station(),
                    after.station(),
                    out@,
                    before.cohort@,
                    before.config,
                )
            },
            Err(e) => before.kit.is_flush_failure(
                before.intake.dual_rate,
                before.station(),
                after.station(),
                before.cohort@,
                before.config,
                e,
            ),
        }
    }

    /// Where the rates agree and no detector switches stages, what is pushed
    /// and flushed comes out with its length unchanged: as many samples as were
    /// waiting before and were pushed.
    pub proof fn lemma_stream_keeps_length(
        before: Self,
        samples: Seq<N>,
        between: Self,
        after: Self,
        head: StreamingOutput<N>,
        tail: StreamingOutput<N>,
    )
        requires
            before.wf(),
            !before.intake.dual_rate,
            !before.state.chain@.adaptive(),
            Self::is_push(before, samples, between, Ok(head)),
            Self::is_flush(between, after, Ok(tail)),
        ensures
            joined_output(head@, tail@).audio.len() == before.waiting() + samples.len(),
    {
    }

    /// Flushing again does nothing: with no audio waiting, nothing held back and
    /// the worker idle, a flush gives no output and changes neither pool nor score.
    pub proof fn lemma_flush_again_does_nothing(
        before: Self,
        after: Self,
        out: StreamingOutput<N>,
    )
        requires
            before.kit.ready(),
            before.waiting() == 0,
            before.state.chain@.gains.len() == 0,
            before.state.channel matches Some(c) ==> c@.outstanding == 0 && c@.pending is None,
            Self::is_flush(before, after, Ok(out)),
        ensures
            out@ == no_output::<N>(),
            after.waiting() == 0,
            after.pool@ == before.pool@,
            after.vad@ == before.vad@,
            after.state.score == before.state.score,
            after.state.chain@ == before.state.chain@,
    {
        before.kit.lemma_flush_of_nothing(
            before.intake.dual_rate,
            before.station(),
            after.station(),
            out@,
            before.cohort@,
            before.config,
        );
    }

    /// An enrolled voice stays: no audio takes its anchors or its pitch away or
    /// changes them, and none does even where it fails.
    pub proof fn lemma_enrolled_voice_stays(
        before: Self,
        samples: Seq<N>,
        after: Self,
        r: Result<StreamingOutput<N>, PipelineError>,
    )
        requires
            Self::is_push(before, samples, after, r) || Self::is_flush(before, after, r),
        ensures
            keeps_voice(before.pool@, after.pool@),
    {
    }

    /// Takes in audio of any length and returns what it completes. After an error
    /// more can be pushed.
    pub fn push_samples(&mut self, samples: &[N]) -> (r: Result<StreamingOutput<N>, PipelineError>)
        requires
            total::<N>(),
            old(self).sound(),
            old(self).room(samples@.len()),
        ensures
            Self::is_push(*old(self), samples@, *final(self), r),
    {
        let r: Result<StreamingOutput<N>, PipelineError> = self.kit.push_block(
            &mut self.intake,
            &mut self.state,
            &mut self.vad,
            &mut self.pool,
            samples,
            &self.cohort,
            &self.config,
        );
        proof {
            if r is Ok {
                assert(self.state.room(
                    0 + frames_at_most(self.intake.dual_rate, self.intake.audio_ring@.len()),
                ));
            }
        }
        r
    }

    /// Ends the stream and returns what was still on its way.
    pub fn flush(&mut self) -> (r: Result<StreamingOutput<N>, PipelineError>)
        requires
            total::<N>(),
            old(self).sound(),
            old(self).room(0),
            forall|n: usize| #[trigger]
                old(self).kit.needs(old(self).intake.dual_rate, n) ==> old(self).room(n as nat),
        ensures
            Self::is_flush(*old(self), *final(self), r),
    {
        self.kit.flush(
            &mut self.intake,
            &mut self.state,
            &mut self.vad,
            &mut self.pool,
            &self.cohort,
            &self.config,
        )
    }

    /// The enrolled pool.
    pub fn pool(&self) -> (r: &EmbeddingPool<N>)
        ensures
            *r == self.pool,
    {
        &self.pool
    }

    /// The enrolled pool, to be changed between calls.
    pub fn pool_mut(&mut self) -> (r: &mut EmbeddingPool<N>)
        ensures
            *r == old(self).pool,
            *final(self) == (StreamingPipeline { pool: *final(r), ..*old(self) }),
    {
        &mut self.pool
    }

    /// Which part of an adaptive chain is at work.
    pub fn chain_mode(&self) -> (r: ChainMode)
        ensures
            r == self.state.chain@.hold.mode,
    {
        self.state.chain.mode()
    }

    /// Forgets the audio, the scores and the decisions; the pool stays.
    pub fn reset(&mut self)
        requires
            total::<N>(),
            old(self).sound(),
        ensures
            final(self).wf(),
            final(self).same_parts(old(self)),
            final(self).pool == old(self).pool,
            final(self).vad == old(self).vad,
            final(self).intake.audio_ring@.len() == 0,
            is_silent(old(self).config, old(self).kit.exp, final(self).state),
            final(self).state.chain@.hold == old(self).state.chain@.hold,
            is_started_afresh(old(self).state.chain@, final(self).state.chain@),
            old(self).state.chain@.dfn3 is Some ==> call_ensures(
                old(self).kit.forget,
                (Memory::Enhancer,),
                (),
            ),
            old(self).intake.dual_rate ==> call_ensures(
                old(self).kit.forget,
                (Memory::Resampler,),
                (),
            ),
    {
        self.intake.audio_ring.clear();
        if self.intake.dual_rate {
            (self.kit.forget)(Memory::Resampler);
        }
        self.state.reset(&self.config, &self.kit.exp, &self.kit.forget);
    }

    /// Takes the pipeline apart: the pool, and the components with the extraction
    /// stage of the run, or with the one that lay idle. `join` waits for the worker;
    /// one that panicked is reported.
    pub fn into_parts<G: Fn() -> bool>(self, join: &G) -> (r: Result<
        (EmbeddingPool<N>, PipelineComponents<N>),
        PipelineError,
    >)
        requires
            call_requires(*join, ()),
        ensures
            match r {
                Ok((pool, components)) => {
                    &&& pool == self.pool
                    &&& components.vad == self.vad
                    &&& components.cohort == self.cohort
                    &&& self.state.chain@.tse is Some ==> stage_view(components.tse)
                        == self.state.chain@.tse
                    &&& self.state.chain@.tse is None ==> components.tse == self.idle_tse
                    &&& self.config.pipeline.async_refresh ==> call_ensures(*join, (), true)
                },
                Err(e) => {
                    &&& self.config.pipeline.async_refresh
                    &&& call_ensures(*join, (), false)
                    &&& is_text(e, "async worker panicked"@)
                },
            },
    {
        let StreamingPipeline { kit, intake, state, vad, cohort, idle_tse, pool, config } = self;
        if config.pipeline.async_refresh {
            let joined: bool = join();
            if !joined {
                return Err(text_error("async worker panicked".to_owned()));
            }
        }
        let live: Option<TseStage<N>> = state.chain.into_tse();
        let tse: Option<TseStage<N>> = if live.is_some() {
            live
        } else {
            idle_tse
        };
        Ok((pool, PipelineComponents { vad, cohort, tse }))
    }
}

/// The engine was started with a worker or without, as configured.
pub open spec fn is_started_as_asked<
    N: Scalar,
    B: Fn(u32, u32) -> Result<(), String>,
    G: Fn() -> Result<(), String>,
    E: Fn(N) -> N,
>(
    config: StreamingConfig<N>,
    bridge: B,
    spawn: G,
    exp: E,
    r: Result<(Intake<N>, StreamingState<N>), PipelineError>,
) -> bool {
    if config.pipeline.async_refresh {
        is_started_async(config, bridge, spawn, exp, r)
    } else {
        is_started(config, bridge, exp, r)
    }
}

} // verus!
