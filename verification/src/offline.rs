//! Whole recordings: the streaming engine run over them once, and the envelope
//! applied again with openings moved back and, where it is configured, over the
//! extracted voice.
use crate::assembly::{
    is_restarted, is_started, is_tse_prepared, model_ok, stage_view, PipelineComponents,
};
use crate::chain::{is_tse_tail, is_tse_tail_failure, Memory};
use crate::config::StreamingConfig;
use crate::decisions::{
    apply_envelope_dual_rate, at_audio_rate, lemma_rate_keeps_head, lemma_settled, scale_fits,
    settle, settled, within,
};
use crate::embedding::{EmbeddingError, EMBEDDING_DIM};
use crate::engine::{frames_at_most, is_record_of, joined_output, Intake, Station};
use crate::enrollment::{uniform, EmbeddingPool, PoolView};
use crate::gating::{is_enveloped, ApplyEnvelopeError, GateConfig};
use crate::overlap::OverlapReply;
use crate::pipeline::{is_spared, pre_roll_samples, AutoLearnEvent, PipelineConfig, PipelineError};
use crate::refresh::{Received, RefreshChannel};
use crate::resample::{is_resampled, resample_to, ResampleError};
use crate::scalar::{total, Scalar};
use crate::streaming::{
    is_cond, tse_cond_embedding, Kit, Moment, OutputView, StreamingOutput,
    StreamingState,
};
use crate::tse::{Tensor, TseError, TseReply};
use crate::tse_stage::{
    append_samples, is_built, is_fed, is_padded, pad_to, StageView, TseStage, TseStageConfig,
    TseStageError,
};
use crate::vad::{VadReply, VadView, CHUNK_SAMPLES_16K};
use vstd::prelude::*;

verus! {

/// What processing a recording gives.
#[derive(Debug)]
pub struct ProcessResult<N> {
    /// Gated audio at the rate of the recording.
    pub audio: Vec<N>,
    /// Where the speaker gate changes.
    pub gate_decisions: Vec<(usize, bool)>,
    /// Gate, score, similarity and pitch match of each frame.
    pub gate_per_frame: Vec<bool>,
    pub score_per_frame: Vec<N>,
    pub cos_sim_max_per_frame: Vec<N>,
    pub f0_match_per_frame: Vec<N>,
    /// What auto-learn did.
    pub auto_learn_events: Vec<AutoLearnEvent<N>>,
    /// Whether the audio went through extraction.
    pub tse_applied: bool,
}

impl<N> Default for ProcessResult<N> {
    /// Nothing.
    fn default() -> (r: Self)
        ensures
            r.audio@.len() == 0,
            r.gate_decisions@.len() == 0,
            r.gate_per_frame@.len() == 0,
            r.score_per_frame@.len() == 0,
            r.cos_sim_max_per_frame@.len() == 0,
            r.f0_match_per_frame@.len() == 0,
            r.auto_learn_events@.len() == 0,
            !r.tse_applied,
    {
        ProcessResult {
            audio: Vec::new(),
            gate_decisions: Vec::new(),
            gate_per_frame: Vec::new(),
            score_per_frame: Vec::new(),
            cos_sim_max_per_frame: Vec::new(),
            f0_match_per_frame: Vec::new(),
            auto_learn_events: Vec::new(),
            tse_applied: false,
        }
    }
}

/// Audio at the decision rate: the recording itself where the rates agree.
pub enum DecisionAudio<'a, N> {
    Borrowed(&'a [N]),
    Owned(Vec<N>),
}

impl<'a, N> DecisionAudio<'a, N> {
    /// The samples.
    pub open spec fn samples(self) -> Seq<N> {
        match self {
            DecisionAudio::Borrowed(s) => s@,
            DecisionAudio::Owned(v) => v@,
        }
    }

    /// The samples.
    pub fn as_slice(&self) -> (r: &[N])
        ensures
            r@ == self.samples(),
    {
        match self {
            DecisionAudio::Borrowed(s) => s,
            DecisionAudio::Owned(v) => v.as_slice(),
        }
    }
}

/// Brings a recording to the decision rate. `run` interpolates; it is not asked
/// where the rates agree.
pub fn audio_for_decisions<
    'a,
    N: Copy,
    X: Fn(&[N], u32, u32) -> Result<Vec<Vec<N>>, ResampleError>,
>(audio: &'a [N], audio_sr: u32, decision_sr: u32, run: &X) -> (r: Result<
    DecisionAudio<'a, N>,
    ResampleError,
>)
    requires
        forall|a: &[N], s: u32, d: u32| call_requires(*run, (a, s, d)),
    ensures
        audio_sr == decision_sr ==> (r matches Ok(DecisionAudio::Borrowed(s)) && s@ == audio@),
        audio_sr != decision_sr ==> match r {
            Ok(DecisionAudio::Owned(v)) => is_resampled(audio, audio_sr, decision_sr, *run, Ok(v)),
            Ok(DecisionAudio::Borrowed(_)) => false,
            Err(e) => is_resampled(
                audio,
                audio_sr,
                decision_sr,
                *run,
                Err::<Vec<N>, ResampleError>(e),
            ),
        },
{
    if audio_sr == decision_sr {
        return Ok(DecisionAudio::Borrowed(audio));
    }
    match resample_to(audio, audio_sr, decision_sr, run) {
        Err(e) => Err(e),
        Ok(v) => Ok(DecisionAudio::Owned(v)),
    }
}

// ---------------------------------------------------------------------
// Extraction
// ---------------------------------------------------------------------
/// `r` is `s` cut or padded with silence to `n` samples.
pub open spec fn is_fitted<N: Scalar>(s: Seq<N>, n: nat, r: Seq<N>) -> bool {
    if s.len() >= n {
        r == s.take(n as int)
    } else {
        is_padded(s, n, r)
    }
}

/// Extraction of a recording: from a fresh start, with what the stage holds back
/// at the end, cut to the length of the recording.
pub open spec fn is_extracted_whole<
    N: Scalar,
    M: Fn(&[N], &[N], &Vec<Tensor<N>>) -> Result<TseReply<N>, TseError>,
>(before: StageView<N>, audio: Seq<N>, run: M, after: StageView<N>, out: Seq<N>) -> bool {
    exists|fresh: StageView<N>, fed: StageView<N>, body: Vec<N>, tail: Vec<N>|
        {
            &&& is_restarted(before, before.cond, fresh)
            &&& #[trigger] is_fed(fresh, audio, run, fed, Ok(body))
            &&& #[trigger] is_tse_tail(Some(fed), run, Some(after), tail)
            &&& is_fitted(body@ + tail@, audio.len(), out)
        }
}

/// Extraction of a recording fails, on the recording or on what the stage holds
/// back at its end.
pub open spec fn is_extraction_failure<
    N: Scalar,
    M: Fn(&[N], &[N], &Vec<Tensor<N>>) -> Result<TseReply<N>, TseError>,
>(before: StageView<N>, audio: Seq<N>, run: M, after: StageView<N>, e: PipelineError) -> bool {
    &&& e matches PipelineError::TseStage(cause)
    &&& exists|fresh: StageView<N>, fed: StageView<N>, r: Result<Vec<N>, TseStageError>|
        {
            &&& is_restarted(before, before.cond, fresh)
            &&& #[trigger] is_fed(fresh, audio, run, fed, r)
            &&& match r {
                Err(first) => cause == first && after == fed,
                Ok(_) => is_tse_tail_failure(Some(fed), run, Some(after), cause),
            }
        }
}

/// Extracts the voice of a whole recording.
pub fn run_tse_offline<
    N: Scalar,
    M: Fn(&[N], &[N], &Vec<Tensor<N>>) -> Result<TseReply<N>, TseError>,
>(stage: &mut TseStage<N>, audio: &[N], run: &M) -> (r: Result<Vec<N>, PipelineError>)
    requires
        old(stage).wf(),
        forall|a: &[N], b: &[N], c: &Vec<Tensor<N>>| call_requires(*run, (a, b, c)),
    ensures
        final(stage).wf(),
        r matches Ok(out) ==> out@.len() == audio@.len() && is_extracted_whole(
            old(stage)@,
            audio@,
            *run,
            final(stage)@,
            out@,
        ),
        r matches Err(e) ==> is_extraction_failure(
            old(stage)@,
            audio@,
            *run,
            final(stage)@,
            e,
        ),
{
    stage.reset();
    let ghost fresh = stage@;
    let n: usize = audio.len();
    let fed: Result<Vec<N>, TseStageError> = stage.process(audio, run);
    assert(is_restarted(old(stage)@, old(stage)@.cond, fresh));
    assert(is_fed(fresh, audio@, *run, stage@, fed));
    let mut out: Vec<N> = match fed {
        Err(e) => {
            return Err(PipelineError::TseStage(e));
        },
        Ok(v) => v,
    };
    let ghost fed = stage@;
    let ghost body = out;
    let tail: Vec<N> = match stage.flush(run) {
        Err(e) => {
            return Err(PipelineError::TseStage(e));
        },
        Ok(v) => v,
    };
    proof {
        assert(is_fed(fresh, audio@, *run, fed, Ok(body)));
        assert(is_tse_tail(Some(fed), *run, Some(stage@), tail));
    }
    append_samples(&mut out, tail.as_slice(), 0, tail.len());
    assert(tail@.subrange(0, tail@.len() as int) =~= tail@);
    let ghost whole = out@;
    out.truncate(n);
    if out.len() < n {
        let zero: N = N::from(0u16);
        pad_to(&mut out, n, zero);
        assert(whole =~= out@.take(whole.len() as int));
        assert(is_padded(whole, n as nat, out@));
    } else {
        assert(out@ =~= whole.take(n as int));
    }
    Ok(out)
}

// ---------------------------------------------------------------------
// Configuration and limits
// ---------------------------------------------------------------------
/// The engine's configuration for a recording: no stages, no worker, and every
/// frame recorded.
pub open spec fn is_offline_config<N: Scalar>(
    cfg: PipelineConfig<N>,
    gate: GateConfig<N>,
    sample_rate: u32,
    c: StreamingConfig<N>,
) -> bool {
    &&& c.pipeline == cfg.bare()
    &&& c.gate == gate
    &&& c.audio_sample_rate == sample_rate
    &&& c.diagnostics
    &&& c.dfn3_onnx_path is None
    &&& c.overlap_onnx_path is None
}

fn offline_config<N: Scalar>(cfg: &PipelineConfig<N>, gate: &GateConfig<N>, sample_rate: u32) -> (r:
    StreamingConfig<N>)
    requires
        total::<N>(),
    ensures
        is_offline_config(*cfg, *gate, sample_rate, r),
{
    let mut c: StreamingConfig<N> = StreamingConfig::default();
    c.pipeline = cfg.without_stages();
    c.gate = *gate;
    c.audio_sample_rate = sample_rate;
    c.diagnostics = true;
    c
}

/// The rate at which the decisions on a recording count their samples: a worker
/// hears it at the decision rate, the engine without one as it is.
pub open spec fn rate_of_decisions<N: Scalar>(cfg: PipelineConfig<N>, audio_sr: u32) -> u32 {
    if cfg.async_refresh {
        cfg.sample_rate
    } else {
        audio_sr
    }
}

/// The counters of a fresh engine can be held by the machine for `n` samples.
pub open spec fn engine_fits(n: nat, dual: bool) -> bool {
    &&& n <= usize::MAX
    &&& frames_at_most(dual, n) * CHUNK_SAMPLES_16K <= usize::MAX
    &&& frames_at_most(dual, n) <= u32::MAX
}

/// The counters of a fresh engine, and the decisions it leaves on `n` samples at
/// the decision rate, can be held by the machine.
pub open spec fn offline_fits(n: nat, audio_sr: u32, decision_sr: u32) -> bool {
    &&& engine_fits(n, false)
    &&& forall|s: nat| s <= n ==> #[trigger] scale_fits(s, decision_sr, audio_sr)
}

impl<
    N: Scalar,
    V: Fn(&Vec<N>, &Vec<N>, u32) -> Result<VadReply<N>, EmbeddingError>,
    R: Fn(&Vec<N>) -> Result<(Vec<N>, N), EmbeddingError>,
    S: Fn(Vec<N>) -> bool,
    C: Fn(bool) -> Received<N>,
    P: Fn(&Vec<N>) -> Option<N>,
    O: Fn(&Vec<N>) -> Result<OverlapReply<N>, EmbeddingError>,
    M: Fn(&[N], &[N], &Vec<Tensor<N>>) -> Result<TseReply<N>, TseError>,
    D: Fn(&Vec<N>) -> Result<Vec<N>, EmbeddingError>,
    I: Fn() -> usize,
    J: Fn(&Vec<N>) -> Result<Vec<N>, String>,
    E: Fn(N) -> N,
    Q: Fn(N) -> N,
    W: Fn(N) -> N,
    T: Fn(N) -> N,
    F: Fn(Memory),
> Kit<N, V, R, S, C, P, O, M, D, I, J, E, Q, W, T, F> {
    // -----------------------------------------------------------------
    // Recordings
    // -----------------------------------------------------------------
    /// The engine ran over a recording and was flushed.
    pub open spec fn is_pass<B: Fn(u32, u32) -> Result<(), String>>(
        &self,
        audio: Seq<N>,
        config: StreamingConfig<N>,
        bridge: B,
        before: (VadView<N>, PoolView<N>),
        cohort: Seq<Vec<N>>,
        after: (VadView<N>, PoolView<N>),
        out: OutputView<N>,
    ) -> bool {
        let dual = config.dual();
        exists|
            intake: Intake<N>,
            state: StreamingState<N>,
            mid: Station<N>,
            head: OutputView<N>,
            end: Station<N>,
            tail: OutputView<N>,
        |
            {
                &&& #[trigger] is_started(config, bridge, self.exp, Ok((intake, state)))
                &&& #[trigger] self.is_way(
                    dual,
                    Station { ring: audio, at: Moment { state, vad: before.0, pool: before.1 } },
                    mid,
                    head,
                    cohort,
                    config,
                )
                &&& self.is_dry(dual, mid.ring)
                &&& #[trigger] self.is_flushed(dual, mid, end, tail, cohort, config)
                &&& out == joined_output(head, tail)
                &&& after == (end.at.vad, end.at.pool)
            }
    }

    /// The engine could not be run over a recording: it could not be set up, it
    /// got stuck, or it could not be flushed.
    pub open spec fn is_pass_failure<B: Fn(u32, u32) -> Result<(), String>>(
        &self,
        audio: Seq<N>,
        config: StreamingConfig<N>,
        bridge: B,
        before: (VadView<N>, PoolView<N>),
        cohort: Seq<Vec<N>>,
        after: (VadView<N>, PoolView<N>),
        e: PipelineError,
    ) -> bool {
        exists|started: Result<(Intake<N>, StreamingState<N>), PipelineError>|
            {
                &&& #[trigger] is_started(config, bridge, self.exp, started)
                &&& match started {
                    Err(cause) => e == cause && after == before,
                    Ok((_, state)) => self.is_run_failure(
                        Station {
                            ring: audio,
                            at: Moment { state, vad: before.0, pool: before.1 },
                        },
                        cohort,
                        config,
                        after,
                        e,
                    ),
                }
            }
    }

    /// The engine got stuck on the way from a station, or could not be flushed
    /// where it had run dry.
    pub open spec fn is_run_failure(
        &self,
        start: Station<N>,
        cohort: Seq<Vec<N>>,
        config: StreamingConfig<N>,
        after: (VadView<N>, PoolView<N>),
        e: PipelineError,
    ) -> bool {
        exists|end: Station<N>|
            {
                &&& after == (end.at.vad, end.at.pool)
                &&& #[trigger] self.is_run_failure_at(start, end, cohort, config, e)
            }
    }

    /// The engine got stuck at `end`, or could not be flushed and stands there.
    pub open spec fn is_run_failure_at(
        &self,
        start: Station<N>,
        end: Station<N>,
        cohort: Seq<Vec<N>>,
        config: StreamingConfig<N>,
        e: PipelineError,
    ) -> bool {
        ||| self.is_dead_end(config.dual(), start, end, cohort, config, e)
        ||| exists|mid: Station<N>, head: OutputView<N>|
            {
                &&& #[trigger] self.is_way(config.dual(), start, mid, head, cohort, config)
                &&& self.is_dry(config.dual(), mid.ring)
                &&& self.is_flush_failure(config.dual(), mid, end, cohort, config, e)
            }
    }

    /// Runs the engine over a recording and flushes it.
    fn pass<B: Fn(u32, u32) -> Result<(), String>>(
        &self,
        audio: &[N],
        pool: &mut EmbeddingPool<N>,
        components: &mut PipelineComponents<N>,
        config: &StreamingConfig<N>,
        bridge: &B,
    ) -> (r: Result<StreamingOutput<N>, PipelineError>)
        requires
            self.ready(),
            total::<N>(),
            !config.pipeline.async_refresh,
            pre_roll_samples(config.pipeline.pre_roll_ms, config.pipeline.sample_rate)
                <= usize::MAX,
            forall|a: u32, d: u32| call_requires(*bridge, (a, d)),
            old(pool).wf(),
            old(pool)@.uniform(EMBEDDING_DIM as nat),
            old(components).vad.wf(),
            uniform(old(components).cohort@, EMBEDDING_DIM as nat),
            self.recording_fits(audio@.len(), config.dual()),
        ensures
            r matches Err(e) ==> self.is_pass_failure(
                audio@,
                *config,
                *bridge,
                (old(components).vad@, old(pool)@),
                old(components).cohort@,
                (final(components).vad@, final(pool)@),
                e,
            ),
            final(pool).wf(),
            final(pool)@.uniform(EMBEDDING_DIM as nat),
            final(components).vad.wf(),
            final(components).cohort == old(components).cohort,
            final(components).tse == old(components).tse,
            is_spared(config.pipeline.enable_auto_learn, old(pool)@, final(pool)@),
            r matches Ok(out) ==> {
                &&& !config.pipeline.enable_auto_learn ==> out@.events.len() == 0
                &&& !config.dual() ==> {
                    &&& is_record_of(
                        out@,
                        frames_with_rest(audio@.len()) as int,
                        config.diagnostics,
                    )
                    &&& out@.audio.len() == audio@.len()
                }
                &&& self.is_pass(
                    audio@,
                    *config,
                    *bridge,
                    (old(components).vad@, old(pool)@),
                    old(components).cohort@,
                    (final(components).vad@, final(pool)@),
                    out@,
                )
            },
    {
        let ghost dual = config.dual();
        let ghost vad0 = components.vad@;
        let ghost pool0 = pool@;
        let started: Result<(Intake<N>, StreamingState<N>), PipelineError> = StreamingState::new(
            config,
            bridge,
            &self.exp,
        );
        assert(is_started(*config, *bridge, self.exp, started));
        let (mut intake, mut state): (Intake<N>, StreamingState<N>) = match started {
            Err(e) => {
                return Err(e);
            },
            Ok(pair) => pair,
        };
        let ghost m0 = Moment { state, vad: vad0, pool: pool0 };
        let ghost intake0 = intake;
        let ghost f0 = frames_at_most(dual, audio@.len());
        assert(intake.audio_ring@ + audio@ =~= audio@);
        assert(state.room(f0));
        let ghost start = Station { ring: audio@, at: m0 };
        let mut head: StreamingOutput<N> = match self.push_block(
            &mut intake,
            &mut state,
            &mut components.vad,
            pool,
            audio,
            &components.cohort,
            config,
        ) {
            Err(e) => {
                proof {
                    let end = Station {
                        ring: intake.audio_ring@,
                        at: Moment { state, vad: components.vad@, pool: pool@ },
                    };
                    assert(self.is_run_failure_at(start, end, components.cohort@, *config, e));
                }
                return Err(e);
            },
            Ok(o) => o,
        };
        let ghost mid = Station {
            ring: intake.audio_ring@,
            at: Moment { state, vad: components.vad@, pool: pool@ },
        };
        let ghost head_out = head@;
        proof {
            let f1 = frames_at_most(dual, mid.ring.len());
            assert(m0.state.room(0 + f0));
            assert(state.room(0 + f1));
            assert forall|n: usize| #[trigger] self.needs(dual, n) implies state.room(
                frames_at_most(dual, mid.ring.len() + n as nat),
            ) by {
                let k = frames_at_most(dual, n as nat);
                assert(frames_at_most(dual, audio@.len() + n as nat) == k + f0);
                assert(frames_at_most(dual, mid.ring.len() + n as nat) == k + f1);
                assert(m0.state.room(k + f0));
                assert(state.room(k + f1));
            }
        }
        let tail: StreamingOutput<N> = match self.flush(
            &mut intake,
            &mut state,
            &mut components.vad,
            pool,
            &components.cohort,
            config,
        ) {
            Err(e) => {
                proof {
                    let end = Station {
                        ring: intake.audio_ring@,
                        at: Moment { state, vad: components.vad@, pool: pool@ },
                    };
                    assert(self.is_way(dual, start, mid, head_out, components.cohort@, *config));
                    assert(self.is_run_failure_at(start, end, components.cohort@, *config, e));
                }
                return Err(e);
            },
            Ok(o) => o,
        };
        let ghost end = Station {
            ring: intake.audio_ring@,
            at: Moment { state, vad: components.vad@, pool: pool@ },
        };
        let ghost tail_out = tail@;
        head.append(tail);
        proof {
            assert(is_started(*config, *bridge, self.exp, Ok((intake0, m0.state))));
            assert(self.is_way(
                dual,
                Station { ring: audio@, at: Moment { state: m0.state, vad: vad0, pool: pool0 } },
                mid,
                head_out,
                components.cohort@,
                *config,
            ));
            assert(self.is_flushed(dual, mid, end, tail_out, components.cohort@, *config));
            if !dual {
                vstd::arithmetic::div_mod::lemma_fundamental_div_mod(
                    audio@.len() as int,
                    CHUNK_SAMPLES_16K as int,
                );
            }
        }
        Ok(head)
    }

    /// The engine, with a worker that is idle, ran over audio at the decision
    /// rate, and everything that the worker had was waited for.
    pub open spec fn is_async_pass<B: Fn(u32, u32) -> Result<(), String>>(
        &self,
        audio: Seq<N>,
        config: StreamingConfig<N>,
        bridge: B,
        before: (VadView<N>, PoolView<N>),
        cohort: Seq<Vec<N>>,
        after: (VadView<N>, PoolView<N>),
        out: OutputView<N>,
    ) -> bool {
        exists|
            intake: Intake<N>,
            state: StreamingState<N>,
            manned: StreamingState<N>,
            mid: Station<N>,
            head: OutputView<N>,
            drained: StreamingState<N>,
        |
            {
                &&& #[trigger] is_started(config, bridge, self.exp, Ok((intake, state)))
                &&& #[trigger] is_manned(state, manned)
                &&& #[trigger] self.is_way(
                    false,
                    Station {
                        ring: audio,
                        at: Moment { state: manned, vad: before.0, pool: before.1 },
                    },
                    mid,
                    head,
                    cohort,
                    config,
                )
                &&& self.is_dry(false, mid.ring)
                &&& #[trigger] self.is_drained(
                    mid.at.state,
                    mid.at.pool,
                    head,
                    cohort,
                    config,
                    drained,
                    after.1,
                    out,
                )
                &&& after.0 == mid.at.vad
            }
    }

    /// The engine with a worker could not be run over audio at the decision rate:
    /// it could not be set up, it got stuck, or the worker was lost.
    pub open spec fn is_async_pass_failure<B: Fn(u32, u32) -> Result<(), String>>(
        &self,
        audio: Seq<N>,
        config: StreamingConfig<N>,
        bridge: B,
        before: (VadView<N>, PoolView<N>),
        cohort: Seq<Vec<N>>,
        after: (VadView<N>, PoolView<N>),
        e: PipelineError,
    ) -> bool {
        exists|started: Result<(Intake<N>, StreamingState<N>), PipelineError>|
            {
                &&& #[trigger] is_started(config, bridge, self.exp, started)
                &&& match started {
                    Err(cause) => e == cause && after == before,
                    Ok((_, state)) => exists|manned: StreamingState<N>|
                        {
                            &&& #[trigger] is_manned(state, manned)
                            &&& self.is_manned_failure(
                                Station {
                                    ring: audio,
                                    at: Moment { state: manned, vad: before.0, pool: before.1 },
                                },
                                cohort,
                                config,
                                after,
                                e,
                            )
                        },
                }
            }
    }

    /// The engine got stuck on the way from a station, or its worker was lost once
    /// it had run dry.
    pub open spec fn is_manned_failure(
        &self,
        start: Station<N>,
        cohort: Seq<Vec<N>>,
        config: StreamingConfig<N>,
        after: (VadView<N>, PoolView<N>),
        e: PipelineError,
    ) -> bool {
        ||| exists|end: Station<N>|
            {
                &&& after == (end.at.vad, end.at.pool)
                &&& #[trigger] self.is_dead_end(false, start, end, cohort, config, e)
            }
        ||| exists|mid: Station<N>, head: OutputView<N>, left: StreamingState<N>|
            {
                &&& #[trigger] self.is_way(false, start, mid, head, cohort, config)
                &&& self.is_dry(false, mid.ring)
                &&& #[trigger] self.is_deserted(mid.at.state, left, e)
                &&& after == (mid.at.vad, mid.at.pool)
            }
    }

    /// Runs the engine with a worker over audio at the decision rate.
    fn async_pass<B: Fn(u32, u32) -> Result<(), String>>(
        &self,
        audio: &[N],
        pool: &mut EmbeddingPool<N>,
        components: &mut PipelineComponents<N>,
        config: &StreamingConfig<N>,
        bridge: &B,
    ) -> (r: Result<StreamingOutput<N>, PipelineError>)
        requires
            self.ready(),
            total::<N>(),
            !config.pipeline.async_refresh,
            !config.dual(),
            pre_roll_samples(config.pipeline.pre_roll_ms, config.pipeline.sample_rate)
                <= usize::MAX,
            forall|a: u32, d: u32| call_requires(*bridge, (a, d)),
            old(pool).wf(),
            old(pool)@.uniform(EMBEDDING_DIM as nat),
            old(components).vad.wf(),
            uniform(old(components).cohort@, EMBEDDING_DIM as nat),
            frames_at_most(false, audio@.len()) <= u32::MAX,
        ensures
            r matches Err(e) ==> self.is_async_pass_failure(
                audio@,
                *config,
                *bridge,
                (old(components).vad@, old(pool)@),
                old(components).cohort@,
                (final(components).vad@, final(pool)@),
                e,
            ),
            final(pool).wf(),
            final(pool)@.uniform(EMBEDDING_DIM as nat),
            final(components).vad.wf(),
            final(components).cohort == old(components).cohort,
            final(components).tse == old(components).tse,
            is_spared(config.pipeline.enable_auto_learn, old(pool)@, final(pool)@),
            r matches Ok(out) ==> {
                &&& !config.pipeline.enable_auto_learn ==> out@.events.len() == 0
                &&& is_record_of(
                    out@,
                    audio@.len() as int / CHUNK_SAMPLES_16K as int,
                    config.diagnostics,
                )
                &&& self.is_async_pass(
                    audio@,
                    *config,
                    *bridge,
                    (old(components).vad@, old(pool)@),
                    old(components).cohort@,
                    (final(components).vad@, final(pool)@),
                    out@,
                )
                &&& within(out@.gate_decisions, audio@.len())
            },
    {
        let n: usize = audio.len();
        let ghost vad0 = components.vad@;
        let ghost pool0 = pool@;
        let started: Result<(Intake<N>, StreamingState<N>), PipelineError> = StreamingState::new(
            config,
            bridge,
            &self.exp,
        );
        assert(is_started(*config, *bridge, self.exp, started));
        let (mut intake, mut state): (Intake<N>, StreamingState<N>) = match started {
            Err(e) => {
                return Err(e);
            },
            Ok(pair) => pair,
        };
        let ghost intake0 = intake;
        let ghost state0 = state;
        state.channel = Some(RefreshChannel::new());
        assert(is_manned(state0, state));
        let ghost m0 = Moment { state, vad: vad0, pool: pool0 };
        assert(intake.audio_ring@ + audio@ =~= audio@);
        assert(state.room(frames_at_most(false, n as nat)));
        let ghost start = Station { ring: audio@, at: m0 };
        let mut out: StreamingOutput<N> = match self.push_block(
            &mut intake,
            &mut state,
            &mut components.vad,
            pool,
            audio,
            &components.cohort,
            config,
        ) {
            Err(e) => {
                proof {
                    let end = Station {
                        ring: intake.audio_ring@,
                        at: Moment { state, vad: components.vad@, pool: pool@ },
                    };
                    assert(self.is_dead_end(false, start, end, components.cohort@, *config, e));
                }
                return Err(e);
            },
            Ok(o) => o,
        };
        let ghost mid = Station {
            ring: intake.audio_ring@,
            at: Moment { state, vad: components.vad@, pool: pool@ },
        };
        let ghost head = out@;
        let trailing: Result<(), PipelineError> = self.drain_trailing_refreshes(
            &mut state,
            pool,
            &components.cohort,
            config,
            &mut out,
        );
        if let Err(e) = trailing {
            proof {
                let after = (components.vad@, pool@);
                assert(self.is_way(false, start, mid, head, components.cohort@, *config));
                assert(self.is_deserted(mid.at.state, state, e));
                assert(self.is_manned_failure(start, components.cohort@, *config, after, e));
            }
            return Err(e);
        }
        proof {
            let before = (vad0, pool0);
            let after = (components.vad@, pool@);
            assert(is_started(*config, *bridge, self.exp, Ok((intake0, state0))));
            assert(is_manned(state0, m0.state));
            assert(self.is_way(
                false,
                Station {
                    ring: audio@,
                    at: Moment { state: m0.state, vad: before.0, pool: before.1 },
                },
                mid,
                head,
                components.cohort@,
                *config,
            ));
            assert(self.is_drained(
                mid.at.state,
                mid.at.pool,
                head,
                components.cohort@,
                *config,
                state,
                after.1,
                out@,
            ));
            assert(after.0 == mid.at.vad);
            assert(self.is_async_pass(
                audio@,
                *config,
                *bridge,
                before,
                components.cohort@,
                after,
                out@,
            ));
        }
        Ok(out)
    }

    /// What [`Kit::process_offline_async`] gives.
    pub open spec fn is_async_result<
        B: Fn(u32, u32) -> Result<(), String>,
        X: Fn(&[N], u32, u32) -> Result<Vec<Vec<N>>, ResampleError>,
    >(
        &self,
        audio: &[N],
        audio_sr: u32,
        cfg: PipelineConfig<N>,
        gate: GateConfig<N>,
        bridge: B,
        run: X,
        before: (VadView<N>, PoolView<N>),
        cohort: Seq<Vec<N>>,
        after: (VadView<N>, PoolView<N>),
        res: ProcessResult<N>,
    ) -> bool {
        exists|config: StreamingConfig<N>, dec: Vec<N>, out: OutputView<N>|
            {
                &&& #[trigger] is_offline_config(cfg, gate, cfg.sample_rate, config)
                &&& #[trigger] is_resampled(audio, audio_sr, cfg.sample_rate, run, Ok(dec))
                &&& #[trigger] self.is_async_pass(
                    dec@,
                    config,
                    bridge,
                    before,
                    cohort,
                    after,
                    out,
                )
                &&& res.gate_decisions@ == settled(
                    out.gate_decisions,
                    cfg.pre_roll_ms,
                    cfg.sample_rate,
                )
                &&& is_recorded(out, res)
                &&& is_enveloped(
                    audio@,
                    at_audio_rate(res.gate_decisions@, cfg.sample_rate, audio_sr, audio@.len()),
                    audio_sr,
                    gate,
                    self.exp,
                    Ok(res.audio),
                )
                &&& !res.tse_applied
            }
    }

    /// Why [`Kit::process_offline_async`] fails: the recording cannot be brought
    /// to the decision rate, or the engine cannot be run over it.
    pub open spec fn is_async_failure<
        B: Fn(u32, u32) -> Result<(), String>,
        X: Fn(&[N], u32, u32) -> Result<Vec<Vec<N>>, ResampleError>,
    >(
        &self,
        audio: &[N],
        audio_sr: u32,
        cfg: PipelineConfig<N>,
        gate: GateConfig<N>,
        bridge: B,
        run: X,
        before: (VadView<N>, PoolView<N>),
        cohort: Seq<Vec<N>>,
        after: (VadView<N>, PoolView<N>),
        e: PipelineError,
    ) -> bool {
        exists|dec: Result<Vec<N>, ResampleError>|
            {
                &&& #[trigger] is_resampled(audio, audio_sr, cfg.sample_rate, run, dec)
                &&& match dec {
                    Err(cause) => e == PipelineError::Resample(cause) && after == before,
                    Ok(dec) => exists|config: StreamingConfig<N>|
                        {
                            &&& #[trigger] is_offline_config(cfg, gate, cfg.sample_rate, config)
                            &&& self.is_async_pass_failure(
                                dec@,
                                config,
                                bridge,
                                before,
                                cohort,
                                after,
                                e,
                            )
                        },
                }
            }
    }

    /// Processes a recording with a worker: decisions at the decision rate, the
    /// envelope at the rate of the recording.
    pub fn process_offline_async<
        B: Fn(u32, u32) -> Result<(), String>,
        X: Fn(&[N], u32, u32) -> Result<Vec<Vec<N>>, ResampleError>,
    >(
        &self,
        audio: &[N],
        audio_sample_rate: u32,
        pool: &mut EmbeddingPool<N>,
        pipeline_cfg: &PipelineConfig<N>,
        gate_cfg: &GateConfig<N>,
        components: &mut PipelineComponents<N>,
        bridge: &B,
        run: &X,
    ) -> (r: Result<ProcessResult<N>, PipelineError>)
        requires
            self.ready(),
            total::<N>(),
            pipeline_cfg.sample_rate > 0,
            pre_roll_samples(pipeline_cfg.pre_roll_ms, pipeline_cfg.sample_rate) <= usize::MAX,
            forall|a: u32, d: u32| call_requires(*bridge, (a, d)),
            forall|a: &[N], s: u32, d: u32| call_requires(*run, (a, s, d)),
            old(pool).wf(),
            old(pool)@.uniform(EMBEDDING_DIM as nat),
            old(components).vad.wf(),
            uniform(old(components).cohort@, EMBEDDING_DIM as nat),
            forall|v: Vec<N>| #[trigger]
                is_resampled(audio, audio_sample_rate, pipeline_cfg.sample_rate, *run, Ok(v))
                    ==> offline_fits(v@.len(), audio_sample_rate, pipeline_cfg.sample_rate),
        ensures
            final(pool).wf(),
            final(pool)@.uniform(EMBEDDING_DIM as nat),
            final(components).vad.wf(),
            final(components).cohort == old(components).cohort,
            final(components).tse == old(components).tse,
            is_spared(pipeline_cfg.enable_auto_learn, old(pool)@, final(pool)@),
            r matches Ok(res) ==> {
                &&& res.audio@.len() == audio@.len()
                &&& !pipeline_cfg.enable_auto_learn ==> res.auto_learn_events@.len() == 0
                &&& audio_sample_rate == pipeline_cfg.sample_rate ==> has_records(
                    res,
                    audio@.len() / CHUNK_SAMPLES_16K as nat,
                )
                &&& res.gate_decisions@.len() > 0 && res.gate_decisions@[0].0 == 0
                &&& forall|i: int|
                    0 <= i < res.gate_decisions@.len() ==> scale_fits(
                        (#[trigger] res.gate_decisions@[i]).0 as nat,
                        pipeline_cfg.sample_rate,
                        audio_sample_rate,
                    )
                &&& self.is_async_result(
                    audio,
                    audio_sample_rate,
                    *pipeline_cfg,
                    *gate_cfg,
                    *bridge,
                    *run,
                    (old(components).vad@, old(pool)@),
                    old(components).cohort@,
                    (final(components).vad@, final(pool)@),
                    res,
                )
            },
            r matches Err(e) ==> self.is_async_failure(
                audio,
                audio_sample_rate,
                *pipeline_cfg,
                *gate_cfg,
                *bridge,
                *run,
                (old(components).vad@, old(pool)@),
                old(components).cohort@,
                (final(components).vad@, final(pool)@),
                e,
            ),
    {
        let sv_sr: u32 = pipeline_cfg.sample_rate;
        let n: usize = audio.len();
        let resampled: Result<Vec<N>, ResampleError> = resample_to(
            audio,
            audio_sample_rate,
            sv_sr,
            run,
        );
        assert(is_resampled(audio, audio_sample_rate, sv_sr, *run, resampled));
        let decision_audio: Vec<N> = match resampled {
            Err(e) => {
                return Err(PipelineError::Resample(e));
            },
            Ok(v) => v,
        };
        assert(is_resampled(audio, audio_sample_rate, sv_sr, *run, Ok(decision_audio)));
        let config: StreamingConfig<N> = offline_config(pipeline_cfg, gate_cfg, sv_sr);
        assert(is_offline_config(*pipeline_cfg, *gate_cfg, pipeline_cfg.sample_rate, config));
        let out: StreamingOutput<N> = match self.async_pass(
            decision_audio.as_slice(),
            pool,
            components,
            &config,
            bridge,
        ) {
            Err(e) => {
                return Err(e);
            },
            Ok(o) => o,
        };
        let ghost o = out@;
        let StreamingOutput {
            audio: _,
            gate_decisions,
            events,
            gate_per_frame,
            score_per_frame,
            cos_sim_max_per_frame,
            f0_match_per_frame,
            tse_applied: _,
        } = out;
        let mut decisions: Vec<(usize, bool)> = gate_decisions;
        settle(&mut decisions, pipeline_cfg.pre_roll_ms, sv_sr);
        proof {
            lemma_settled(
                o.gate_decisions,
                pipeline_cfg.pre_roll_ms,
                sv_sr,
                decision_audio@.len(),
            );
            lemma_within_fits(decisions@, decision_audio@.len(), audio_sample_rate, sv_sr);
            lemma_rate_keeps_head(decisions@, sv_sr, audio_sample_rate, n as nat);
        }
        match apply_envelope_dual_rate(
            audio,
            decisions.as_slice(),
            audio_sample_rate,
            sv_sr,
            *gate_cfg,
            &self.exp,
        ) {
            Err(e) => Err(PipelineError::Envelope(e)),
            Ok(gated) => {
                let res: ProcessResult<N> = ProcessResult {
                    audio: gated,
                    gate_decisions: decisions,
                    gate_per_frame,
                    score_per_frame,
                    cos_sim_max_per_frame,
                    f0_match_per_frame,
                    auto_learn_events: events,
                    tse_applied: false,
                };
                proof {
                    assert(is_offline_config(
                        *pipeline_cfg,
                        *gate_cfg,
                        pipeline_cfg.sample_rate,
                        config,
                    ));
                    assert(self.is_async_pass(
                        decision_audio@,
                        config,
                        *bridge,
                        (old(components).vad@, old(pool)@),
                        old(components).cohort@,
                        (components.vad@, pool@),
                        o,
                    ));
                    assert(is_recorded(o, res));
                }
                Ok(res)
            },
        }
    }

    /// What processing a recording without a worker and without extraction
    /// gives.
    pub open spec fn is_sync_result<B: Fn(u32, u32) -> Result<(), String>>(
        &self,
        audio: Seq<N>,
        audio_sr: u32,
        cfg: PipelineConfig<N>,
        gate: GateConfig<N>,
        bridge: B,
        before: (VadView<N>, PoolView<N>),
        cohort: Seq<Vec<N>>,
        after: (VadView<N>, PoolView<N>),
        res: ProcessResult<N>,
    ) -> bool {
        exists|config: StreamingConfig<N>, out: OutputView<N>|
            {
                &&& #[trigger] is_offline_config(cfg, gate, audio_sr, config)
                &&& #[trigger] self.is_pass(audio, config, bridge, before, cohort, after, out)
                &&& res.gate_decisions@ == settled(out.gate_decisions, cfg.pre_roll_ms, audio_sr)
                &&& is_recorded(out, res)
                &&& if cfg.pre_roll_ms > 0 {
                    is_enveloped(
                        audio,
                        res.gate_decisions@,
                        audio_sr,
                        gate,
                        self.exp,
                        Ok(res.audio),
                    )
                } else {
                    res.audio@ == out.audio
                }
                &&& !res.tse_applied
            }
    }

    /// Why processing a recording without a worker fails.
    pub open spec fn is_sync_failure<B: Fn(u32, u32) -> Result<(), String>>(
        &self,
        audio: Seq<N>,
        audio_sr: u32,
        cfg: PipelineConfig<N>,
        gate: GateConfig<N>,
        bridge: B,
        before: (VadView<N>, PoolView<N>),
        cohort: Seq<Vec<N>>,
        after: (VadView<N>, PoolView<N>),
        e: PipelineError,
    ) -> bool {
        exists|config: StreamingConfig<N>|
            {
                &&& #[trigger] is_offline_config(cfg, gate, audio_sr, config)
                &&& self.is_pass_failure(audio, config, bridge, before, cohort, after, e)
            }
    }

    fn process_offline_sync<B: Fn(u32, u32) -> Result<(), String>>(
        &self,
        audio: &[N],
        audio_sample_rate: u32,
        pool: &mut EmbeddingPool<N>,
        pipeline_cfg: &PipelineConfig<N>,
        gate_cfg: &GateConfig<N>,
        components: &mut PipelineComponents<N>,
        bridge: &B,
    ) -> (r: Result<ProcessResult<N>, PipelineError>)
        requires
            self.ready(),
            total::<N>(),
            pre_roll_samples(pipeline_cfg.pre_roll_ms, pipeline_cfg.sample_rate) <= usize::MAX,
            pre_roll_samples(pipeline_cfg.pre_roll_ms, audio_sample_rate) <= usize::MAX,
            forall|a: u32, d: u32| call_requires(*bridge, (a, d)),
            old(pool).wf(),
            old(pool)@.uniform(EMBEDDING_DIM as nat),
            old(components).vad.wf(),
            uniform(old(components).cohort@, EMBEDDING_DIM as nat),
            self.recording_fits(
                audio@.len(),
                audio_sample_rate != pipeline_cfg.sample_rate,
            ),
        ensures
            final(pool).wf(),
            final(pool)@.uniform(EMBEDDING_DIM as nat),
            final(components).vad.wf(),
            final(components).cohort == old(components).cohort,
            final(components).tse == old(components).tse,
            is_spared(pipeline_cfg.enable_auto_learn, old(pool)@, final(pool)@),
            r matches Ok(res) ==> {
                &&& res.gate_decisions@.len() > 0 && res.gate_decisions@[0].0 == 0
                &&& !pipeline_cfg.enable_auto_learn ==> res.auto_learn_events@.len() == 0
                &&& audio_sample_rate == pipeline_cfg.sample_rate ==> has_records(
                    res,
                    frames_with_rest(audio@.len()),
                )
                &&& audio_sample_rate == pipeline_cfg.sample_rate || pipeline_cfg.pre_roll_ms > 0
                    ==> res.audio@.len() == audio@.len()
                &&& self.is_sync_result(
                    audio@,
                    audio_sample_rate,
                    *pipeline_cfg,
                    *gate_cfg,
                    *bridge,
                    (old(components).vad@, old(pool)@),
                    old(components).cohort@,
                    (final(components).vad@, final(pool)@),
                    res,
                )
            },
            r matches Err(e) ==> self.is_sync_failure(
                audio@,
                audio_sample_rate,
                *pipeline_cfg,
                *gate_cfg,
                *bridge,
                (old(components).vad@, old(pool)@),
                old(components).cohort@,
                (final(components).vad@, final(pool)@),
                e,
            ),
    {
        let config: StreamingConfig<N> = offline_config(pipeline_cfg, gate_cfg, audio_sample_rate);
        assert(is_offline_config(*pipeline_cfg, *gate_cfg, audio_sample_rate, config));
        proof {
            assert(self.recording_fits(audio@.len(), config.dual()));
        }
        let out: StreamingOutput<N> = match self.pass(audio, pool, components, &config, bridge) {
            Err(e) => {
                return Err(e);
            },
            Ok(o) => o,
        };
        let ghost o = out@;
        let StreamingOutput {
            audio: streamed,
            gate_decisions,
            events,
            gate_per_frame,
            score_per_frame,
            cos_sim_max_per_frame,
            f0_match_per_frame,
            tse_applied: _,
        } = out;
        let mut decisions: Vec<(usize, bool)> = gate_decisions;
        settle(&mut decisions, pipeline_cfg.pre_roll_ms, audio_sample_rate);
        proof {
            let bound = usize::MAX as nat;
            assert(within(o.gate_decisions, bound));
            lemma_settled(o.gate_decisions, pipeline_cfg.pre_roll_ms, audio_sample_rate, bound);
        }
        let gated: Vec<N> = if pipeline_cfg.pre_roll_ms > 0 {
            match apply_envelope_dual_rate(
                audio,
                decisions.as_slice(),
                audio_sample_rate,
                audio_sample_rate,
                *gate_cfg,
                &self.exp,
            ) {
                Err(e) => {
                    return Err(PipelineError::Envelope(e));
                },
                Ok(v) => v,
            }
        } else {
            streamed
        };
        let res: ProcessResult<N> = ProcessResult {
            audio: gated,
            gate_decisions: decisions,
            gate_per_frame,
            score_per_frame,
            cos_sim_max_per_frame,
            f0_match_per_frame,
            auto_learn_events: events,
            tse_applied: false,
        };
        proof {
            assert(is_offline_config(*pipeline_cfg, *gate_cfg, audio_sample_rate, config));
            assert(self.is_pass(
                audio@,
                config,
                *bridge,
                (old(components).vad@, old(pool)@),
                old(components).cohort@,
                (components.vad@, pool@),
                o,
            ));
            assert(is_recorded(o, res));
        }
        Ok(res)
    }

    /// A recording of `n` samples, and what a flush pads it to, can be held by
    /// the machine.
    pub open spec fn recording_fits(
        &self,
        n: nat,
        dual: bool,
    ) -> bool {
        &&& engine_fits(n, dual)
        &&& forall|k: usize| #[trigger] self.needs(dual, k) ==> engine_fits(n + k as nat, dual)
    }

    /// The voice was extracted from the recording and enveloped with the
    /// decisions of the result.
    pub open spec fn is_revoiced(
        &self,
        stage: StageView<N>,
        stage_after: StageView<N>,
        audio: Seq<N>,
        audio_sr: u32,
        decision_sr: u32,
        gate: GateConfig<N>,
        res: ProcessResult<N>,
    ) -> bool {
        exists|voice: Seq<N>|
            {
                &&& #[trigger] is_extracted_whole(stage, audio, self.extract, stage_after, voice)
                &&& is_enveloped(
                    voice,
                    at_audio_rate(res.gate_decisions@, decision_sr, audio_sr, audio.len()),
                    audio_sr,
                    gate,
                    self.exp,
                    Ok(res.audio),
                )
            }
    }

    /// What [`Kit::process_offline`] gives, given the extraction stage it
    /// prepared: the result with a worker or without, as configured, and where
    /// there is a stage the audio replaced by the enveloped voice.
    pub open spec fn is_processed<
        B: Fn(u32, u32) -> Result<(), String>,
        X: Fn(&[N], u32, u32) -> Result<Vec<Vec<N>>, ResampleError>,
    >(
        &self,
        audio: &[N],
        audio_sr: u32,
        cfg: PipelineConfig<N>,
        gate: GateConfig<N>,
        bridge: B,
        run: X,
        before: (VadView<N>, PoolView<N>),
        cohort: Seq<Vec<N>>,
        stage: Option<StageView<N>>,
        stage_after: Option<StageView<N>>,
        after: (VadView<N>, PoolView<N>),
        res: ProcessResult<N>,
    ) -> bool {
        exists|plain: ProcessResult<N>|
            {
                &&& #[trigger] self.is_plain_result(
                    audio,
                    audio_sr,
                    cfg,
                    gate,
                    bridge,
                    run,
                    before,
                    cohort,
                    after,
                    plain,
                )
                &&& match stage {
                    None => res == plain,
                    Some(t) => {
                        &&& res == (ProcessResult { audio: res.audio, tse_applied: true, ..plain })
                        &&& stage_after matches Some(u)
                        &&& self.is_revoiced(
                            t,
                            u,
                            audio@,
                            audio_sr,
                            rate_of_decisions(cfg, audio_sr),
                            gate,
                            res,
                        )
                    },
                }
            }
    }

    /// The result without extraction, with a worker or without, as configured.
    pub open spec fn is_plain_result<
        B: Fn(u32, u32) -> Result<(), String>,
        X: Fn(&[N], u32, u32) -> Result<Vec<Vec<N>>, ResampleError>,
    >(
        &self,
        audio: &[N],
        audio_sr: u32,
        cfg: PipelineConfig<N>,
        gate: GateConfig<N>,
        bridge: B,
        run: X,
        before: (VadView<N>, PoolView<N>),
        cohort: Seq<Vec<N>>,
        after: (VadView<N>, PoolView<N>),
        res: ProcessResult<N>,
    ) -> bool {
        if cfg.async_refresh {
            self.is_async_result(
                audio,
                audio_sr,
                cfg,
                gate,
                bridge,
                run,
                before,
                cohort,
                after,
                res,
            )
        } else {
            self.is_sync_result(audio@, audio_sr, cfg, gate, bridge, before, cohort, after, res)
        }
    }

    /// Why there is no result without extraction.
    pub open spec fn is_plain_failure<
        B: Fn(u32, u32) -> Result<(), String>,
        X: Fn(&[N], u32, u32) -> Result<Vec<Vec<N>>, ResampleError>,
    >(
        &self,
        audio: &[N],
        audio_sr: u32,
        cfg: PipelineConfig<N>,
        gate: GateConfig<N>,
        bridge: B,
        run: X,
        before: (VadView<N>, PoolView<N>),
        cohort: Seq<Vec<N>>,
        after: (VadView<N>, PoolView<N>),
        e: PipelineError,
    ) -> bool {
        if cfg.async_refresh {
            self.is_async_failure(
                audio,
                audio_sr,
                cfg,
                gate,
                bridge,
                run,
                before,
                cohort,
                after,
                e,
            )
        } else {
            self.is_sync_failure(audio@, audio_sr, cfg, gate, bridge, before, cohort, after, e)
        }
    }

    /// There is a result without extraction, but the voice cannot be extracted.
    pub open spec fn is_voice_lost<
        B: Fn(u32, u32) -> Result<(), String>,
        X: Fn(&[N], u32, u32) -> Result<Vec<Vec<N>>, ResampleError>,
    >(
        &self,
        audio: &[N],
        audio_sr: u32,
        cfg: PipelineConfig<N>,
        gate: GateConfig<N>,
        bridge: B,
        run: X,
        before: (VadView<N>, PoolView<N>),
        cohort: Seq<Vec<N>>,
        stage: Option<StageView<N>>,
        stage_after: Option<StageView<N>>,
        after: (VadView<N>, PoolView<N>),
        e: PipelineError,
    ) -> bool {
        &&& stage matches Some(t)
        &&& stage_after matches Some(u)
        &&& is_extraction_failure(t, audio@, self.extract, u, e)
        &&& exists|plain: ProcessResult<N>| #[trigger]
            self.is_plain_result(
                audio,
                audio_sr,
                cfg,
                gate,
                bridge,
                run,
                before,
                cohort,
                after,
                plain,
            )
    }

    /// Processes a whole recording. `load_tse` reads the extraction model,
    /// `bridge` builds the engine's resampler, `run` resamples the recording for
    /// the engine with a worker.
    pub fn process_offline<
        L: Fn(&str) -> Result<(), TseError>,
        B: Fn(u32, u32) -> Result<(), String>,
        X: Fn(&[N], u32, u32) -> Result<Vec<Vec<N>>, ResampleError>,
    >(
        &self,
        audio: &[N],
        audio_sample_rate: u32,
        pool: &mut EmbeddingPool<N>,
        pipeline_cfg: &PipelineConfig<N>,
        gate_cfg: &GateConfig<N>,
        components: &mut PipelineComponents<N>,
        load_tse: &L,
        bridge: &B,
        run: &X,
    ) -> (r: Result<ProcessResult<N>, PipelineError>)
        requires
            self.ready(),
            total::<N>(),
            pipeline_cfg.sample_rate > 0,
            pipeline_cfg.tse matches Some(sc) ==> model_ok(sc.model),
            pre_roll_samples(pipeline_cfg.pre_roll_ms, pipeline_cfg.sample_rate) <= usize::MAX,
            pre_roll_samples(pipeline_cfg.pre_roll_ms, audio_sample_rate) <= usize::MAX,
            forall|path: &str| call_requires(*load_tse, (path,)),
            forall|a: u32, d: u32| call_requires(*bridge, (a, d)),
            forall|a: &[N], s: u32, d: u32| call_requires(*run, (a, s, d)),
            old(pool).wf(),
            old(pool)@.uniform(EMBEDDING_DIM as nat),
            old(components).vad.wf(),
            uniform(old(components).cohort@, EMBEDDING_DIM as nat),
            old(components).tse matches Some(t) ==> t.wf(),
            !pipeline_cfg.async_refresh ==> self.recording_fits(
                audio@.len(),
                audio_sample_rate != pipeline_cfg.sample_rate,
            ),
            pipeline_cfg.async_refresh ==> forall|v: Vec<N>| #[trigger]
                is_resampled(audio, audio_sample_rate, pipeline_cfg.sample_rate, *run, Ok(v))
                    ==> offline_fits(v@.len(), audio_sample_rate, pipeline_cfg.sample_rate),
        ensures
            final(pool).wf(),
            final(pool)@.uniform(EMBEDDING_DIM as nat),
            final(components).vad.wf(),
            final(components).cohort == old(components).cohort,
            final(components).tse matches Some(t) ==> t.wf(),
            is_spared(pipeline_cfg.enable_auto_learn, old(pool)@, final(pool)@),
            pipeline_cfg.tse is None ==> final(components).tse == old(components).tse,
            match r {
                Ok(res) => {
                    &&& res.gate_decisions@.len() > 0 && res.gate_decisions@[0].0 == 0
                    &&& res.tse_applied == (pipeline_cfg.tse is Some)
                    &&& !pipeline_cfg.enable_auto_learn ==> res.auto_learn_events@.len() == 0
                    &&& audio_sample_rate == pipeline_cfg.sample_rate ==> has_records(
                        res,
                        if pipeline_cfg.async_refresh {
                            audio@.len() / CHUNK_SAMPLES_16K as nat
                        } else {
                            frames_with_rest(audio@.len())
                        },
                    )
                    &&& res.tse_applied || pipeline_cfg.async_refresh || audio_sample_rate
                        == pipeline_cfg.sample_rate || pipeline_cfg.pre_roll_ms > 0
                        ==> res.audio@.len() == audio@.len()
                    &&& exists|prepared: Option<TseStage<N>>| #[trigger]
                        is_tse_prepared(
                            pipeline_cfg.tse,
                            audio_sample_rate,
                            old(pool)@,
                            stage_view(old(components).tse),
                            *load_tse,
                            Ok(prepared),
                        ) && self.is_processed(
                            audio,
                            audio_sample_rate,
                            *pipeline_cfg,
                            *gate_cfg,
                            *bridge,
                            *run,
                            (old(components).vad@, old(pool)@),
                            old(components).cohort@,
                            stage_view(prepared),
                            stage_view(final(components).tse),
                            (final(components).vad@, final(pool)@),
                            res,
                        )
                },
                Err(e) => exists|prepared: Result<Option<TseStage<N>>, PipelineError>|
                    {
                        &&& #[trigger] is_tse_prepared(
                            pipeline_cfg.tse,
                            audio_sample_rate,
                            old(pool)@,
                            stage_view(old(components).tse),
                            *load_tse,
                            prepared,
                        )
                        &&& match prepared {
                            Err(cause) => {
                                &&& e == cause
                                &&& final(pool)@ == old(pool)@
                                &&& final(components).vad@ == old(components).vad@
                                &&& stage_view(final(components).tse) == stage_view(
                                    old(components).tse,
                                )
                            },
                            Ok(stage) => {
                                ||| (pipeline_cfg.tse is Some ==> stage_view(
                                    final(components).tse,
                                ) == stage_view(stage)) && self.is_plain_failure(
                                    audio,
                                    audio_sample_rate,
                                    *pipeline_cfg,
                                    *gate_cfg,
                                    *bridge,
                                    *run,
                                    (old(components).vad@, old(pool)@),
                                    old(components).cohort@,
                                    (final(components).vad@, final(pool)@),
                                    e,
                                )
                                ||| self.is_voice_lost(
                                    audio,
                                    audio_sample_rate,
                                    *pipeline_cfg,
                                    *gate_cfg,
                                    *bridge,
                                    *run,
                                    (old(components).vad@, old(pool)@),
                                    old(components).cohort@,
                                    stage_view(stage),
                                    stage_view(final(components).tse),
                                    (final(components).vad@, final(pool)@),
                                    e,
                                )
                            },
                        }
                    },
            },
    {
        let ghost before = (components.vad@, pool@);
        let ghost existing = components.tse;
        let prepared: Result<(), PipelineError> = ensure_tse_stage(
            components,
            &pipeline_cfg.tse,
            audio_sample_rate,
            pool,
            load_tse,
        );
        if let Err(e) = prepared {
            assert(is_tse_prepared(
                pipeline_cfg.tse,
                audio_sample_rate,
                before.1,
                stage_view(existing),
                *load_tse,
                Err::<Option<TseStage<N>>, PipelineError>(e),
            ));
            return Err(e);
        }
        let ghost stage = if pipeline_cfg.tse is Some {
            components.tse
        } else {
            None
        };
        assert(is_tse_prepared(
            pipeline_cfg.tse,
            audio_sample_rate,
            before.1,
            stage_view(existing),
            *load_tse,
            Ok(stage),
        ));
        let plain: Result<ProcessResult<N>, PipelineError> = if pipeline_cfg.async_refresh {
            self.process_offline_async(
                audio,
                audio_sample_rate,
                pool,
                pipeline_cfg,
                gate_cfg,
                components,
                bridge,
                run,
            )
        } else {
            self.process_offline_sync(
                audio,
                audio_sample_rate,
                pool,
                pipeline_cfg,
                gate_cfg,
                components,
                bridge,
            )
        };
        let mut result: ProcessResult<N> = match plain {
            Err(e) => {
                return Err(e);
            },
            Ok(res) => res,
        };
        let ghost unvoiced = result;
        assert(self.is_plain_result(
            audio,
            audio_sample_rate,
            *pipeline_cfg,
            *gate_cfg,
            *bridge,
            *run,
            before,
            old(components).cohort@,
            (components.vad@, pool@),
            unvoiced,
        ));
        if pipeline_cfg.tse.is_some() {
            let n: usize = audio.len();
            let decision_rate: u32 = if pipeline_cfg.async_refresh {
                pipeline_cfg.sample_rate
            } else {
                audio_sample_rate
            };
            let existing_stage: Option<TseStage<N>> = components.tse.take();
            if let Some(live) = existing_stage {
                let mut live: TseStage<N> = live;
                let extracted: Result<Vec<N>, PipelineError> = run_tse_offline(
                    &mut live,
                    audio,
                    &self.extract,
                );
                components.tse = Some(live);
                let voice: Vec<N> = match extracted {
                    Err(e) => {
                        assert(self.is_voice_lost(
                            audio,
                            audio_sample_rate,
                            *pipeline_cfg,
                            *gate_cfg,
                            *bridge,
                            *run,
                            before,
                            old(components).cohort@,
                            stage_view(stage),
                            stage_view(components.tse),
                            (components.vad@, pool@),
                            e,
                        ));
                        return Err(e);
                    },
                    Ok(v) => v,
                };
                proof {
                    lemma_rate_keeps_head(
                        result.gate_decisions@,
                        decision_rate,
                        audio_sample_rate,
                        n as nat,
                    );
                }
                let gated: Result<Vec<N>, ApplyEnvelopeError> = apply_envelope_dual_rate(
                    voice.as_slice(),
                    result.gate_decisions.as_slice(),
                    audio_sample_rate,
                    decision_rate,
                    *gate_cfg,
                    &self.exp,
                );
                match gated {
                    Err(e) => {
                        return Err(PipelineError::Envelope(e));
                    },
                    Ok(v) => {
                        result.audio = v;
                        result.tse_applied = true;
                    },
                }
                assert(is_extracted_whole(
                    stage_view(stage)->0,
                    audio@,
                    self.extract,
                    stage_view(components.tse)->0,
                    voice@,
                ));
            }
        }
        assert(self.is_processed(
            audio,
            audio_sample_rate,
            *pipeline_cfg,
            *gate_cfg,
            *bridge,
            *run,
            before,
            old(components).cohort@,
            stage_view(stage),
            stage_view(components.tse),
            (components.vad@, pool@),
            result,
        ));
        Ok(result)
    }
}

/// Makes sure that there is an extraction stage, started afresh and conditioned
/// on the pool, where extraction is configured.
pub fn ensure_tse_stage<N: Scalar, L: Fn(&str) -> Result<(), TseError>>(
    components: &mut PipelineComponents<N>,
    cfg: &Option<TseStageConfig>,
    audio_sr: u32,
    pool: &EmbeddingPool<N>,
    load: &L,
) -> (r: Result<(), PipelineError>)
    requires
        pool.wf(),
        old(components).tse matches Some(t) ==> t.wf(),
        *cfg matches Some(sc) ==> model_ok(sc.model),
        forall|path: &str| call_requires(*load, (path,)),
    ensures
        final(components).vad == old(components).vad,
        final(components).cohort == old(components).cohort,
        final(components).tse matches Some(t) ==> t.wf(),
        match r {
            Ok(_) => {
                &&& *cfg is None ==> final(components).tse == old(components).tse
                &&& *cfg is Some ==> final(components).tse is Some && is_tse_prepared(
                    *cfg,
                    audio_sr,
                    pool@,
                    stage_view(old(components).tse),
                    *load,
                    Ok(final(components).tse),
                )
            },
            Err(e) => {
                &&& stage_view(final(components).tse) == stage_view(old(components).tse)
                &&& is_tse_prepared(
                    *cfg,
                    audio_sr,
                    pool@,
                    stage_view(old(components).tse),
                    *load,
                    Err::<Option<TseStage<N>>, PipelineError>(e),
                )
            },
        },
{
    match cfg {
        None => Ok(()),
        Some(sc) => {
            let expected_sr: u32 = sc.model.sample_rate();
            if audio_sr != expected_sr {
                return Err(PipelineError::TseRateMismatch { audio_sr, expected_sr });
            }
            let cond: Result<Vec<N>, PipelineError> = tse_cond_embedding(pool);
            assert(is_cond(pool@, cond));
            match cond {
                Err(e) => Err(e),
                Ok(c) => {
                    let existing: Option<TseStage<N>> = components.tse.take();
                    match existing {
                        Some(t) => {
                            let mut stage: TseStage<N> = t;
                            stage.reset();
                            let set: Result<(), TseStageError> = stage.set_cond_embedding(
                                c.as_slice(),
                            );
                            components.tse = Some(stage);
                            match set {
                                Err(e) => Err(PipelineError::TseStage(e)),
                                Ok(()) => Ok(()),
                            }
                        },
                        None => {
                            let built: Result<TseStage<N>, TseStageError> = TseStage::from_config(
                                sc,
                                c.as_slice(),
                                load,
                            );
                            assert(is_built(*sc, c@, *load, built));
                            match built {
                                Err(e) => Err(PipelineError::TseStage(e)),
                                Ok(stage) => {
                                    components.tse = Some(stage);
                                    Ok(())
                                },
                            }
                        },
                    }
                },
            }
        },
    }
}

/// How many frames `n` samples make, the last one padded.
pub open spec fn frames_with_rest(n: nat) -> nat {
    let full = n / CHUNK_SAMPLES_16K as nat;
    if n % CHUNK_SAMPLES_16K as nat == 0 {
        full
    } else {
        full + 1
    }
}

/// The result holds an entry for each of `frames` frames in each record.
pub open spec fn has_records<N>(res: ProcessResult<N>, frames: nat) -> bool {
    &&& res.gate_per_frame@.len() == frames
    &&& res.score_per_frame@.len() == frames
    &&& res.cos_sim_max_per_frame@.len() == frames
    &&& res.f0_match_per_frame@.len() == frames
}

/// The engine was given a worker, which is idle.
pub open spec fn is_manned<N>(before: StreamingState<N>, after: StreamingState<N>) -> bool {
    &&& after == (StreamingState { channel: after.channel, ..before })
    &&& after.channel matches Some(c)
    &&& c@.outstanding == 0
    &&& c@.pending is None
    &&& c@.frames.len() == 0
}

/// The records of the engine are those of the result.
pub open spec fn is_recorded<N>(out: OutputView<N>, res: ProcessResult<N>) -> bool {
    &&& res.gate_per_frame@ == out.gate_per_frame
    &&& res.score_per_frame@ == out.score_per_frame
    &&& res.cos_sim_max_per_frame@ == out.cos_sim_max_per_frame
    &&& res.f0_match_per_frame@ == out.f0_match_per_frame
    &&& res.auto_learn_events@ == out.events
}

proof fn lemma_within_fits(
    d: Seq<(usize, bool)>,
    bound: nat,
    audio_sr: u32,
    decision_sr: u32,
)
    requires
        within(d, bound),
        offline_fits(bound, audio_sr, decision_sr),
    ensures
        forall|i: int|
            0 <= i < d.len() ==> scale_fits((#[trigger] d[i]).0 as nat, decision_sr, audio_sr),
{
    assert forall|i: int| 0 <= i < d.len() implies scale_fits(
        (#[trigger] d[i]).0 as nat,
        decision_sr,
        audio_sr,
    ) by {
        assert(d[i].0 as nat <= bound);
    }
}

} // verus!
