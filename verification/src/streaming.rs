//! The streaming engine: one decision frame at a time, from voice activity over
//! the speaker score to the speaker gate, the envelope and the audio chain.
use crate::chain::{is_guided, is_route_failure, is_routed, Chain, ChainView, Memory};
use crate::config::StreamingConfig;
use crate::dfn3::returns_chunks;
use crate::embedding::{EmbeddingError, EMBEDDING_DIM};
use crate::enrollment::{centroid, uniform, EmbeddingPool, EnrollmentMetadata, PoolView};
use crate::gating::{
    f0_match, gate_step, glide, goal, is_f0_fit, EnvelopeState, EnvelopeView, GateState,
};
use crate::overlap::{listened, OverlapReply};
use crate::pipeline::{
    apply_refresh, is_pool_step, is_refreshed, is_spared, log_event, logged, AutoLearnEvent, AutoLearnKind,
    PipelineConfig, PipelineError, ScoreState,
};
use crate::refresh::{is_answered, is_submitted, next_frame, Received, RefreshChannel};
use crate::rings::{copied, keep_last};
use crate::scalar::{ge, gt, lawful, num, total, Scalar};
use crate::speech::{
    after_frame, cadence, estimated, refresh_is_due, refreshed, same_but_times, FastF0Cue,
    SpeechTracker, SpeechView, FAST_F0_RING_SAMPLES,
};
use crate::tse::{Tensor, TseError, TseReply, TSE_COND_DIM};
use crate::tse_stage::{append_samples, fills_its_label, StageView, TseStageError};
use crate::turn::{observed, TurnDecision, TurnDetector, TurnState};
use crate::vad::{is_scored, SileroVad, VadReply, VadView, CHUNK_SAMPLES_16K};
use vstd::prelude::*;
use vstd::std_specs::ops::{AddSpec, MulSpec, SubSpec};

verus! {

/// The score with the pitch of a single frame taken into account.
pub open spec fn fused<N: Scalar>(last_score: N, fm_fast: N, weight: N, neutral: N) -> N {
    last_score.add_spec(weight.mul_spec(fm_fast.sub_spec(neutral)))
}

/// Computes [`fused`].
pub fn fuse_fast_cue<N: Scalar>(last_score: N, fm_fast: N, weight: N, neutral: N) -> (r: N)
    requires
        total::<N>() || lawful::<N>() && fm_fast.sub_req(neutral) && weight.mul_req(
            fm_fast.sub_spec(neutral),
        ) && last_score.add_req(weight.mul_spec(fm_fast.sub_spec(neutral))),
    ensures
        lawful::<N>() ==> r == fused(last_score, fm_fast, weight, neutral),
{
    last_score + weight * (fm_fast - neutral)
}

/// A neutral pitch leaves the score as it is.
pub proof fn lemma_neutral_cue_is_identity(last_score: u64, weight: u64, neutral: u64)
    ensures
        fused(last_score, neutral, weight, neutral) == last_score,
{
    assert(weight * 0 == 0) by (nonlinear_arith);
}

// ---------------------------------------------------------------------
// Output
// ---------------------------------------------------------------------
/// What a call produced.
#[derive(Clone, Debug)]
pub struct StreamingOutput<N> {
    /// Gated audio.
    pub audio: Vec<N>,
    /// Where the speaker gate changed, in samples since the start.
    pub gate_decisions: Vec<(usize, bool)>,
    /// What auto-learn did.
    pub events: Vec<AutoLearnEvent<N>>,
    /// Gate, score, similarity and pitch match of each frame, if they are
    /// recorded.
    pub gate_per_frame: Vec<bool>,
    pub score_per_frame: Vec<N>,
    pub cos_sim_max_per_frame: Vec<N>,
    pub f0_match_per_frame: Vec<N>,
    /// Whether the audio went through extraction.
    pub tse_applied: bool,
}

/// The contents of an output.
#[verifier::ext_equal]
pub struct OutputView<N> {
    pub audio: Seq<N>,
    pub gate_decisions: Seq<(usize, bool)>,
    pub events: Seq<AutoLearnEvent<N>>,
    pub gate_per_frame: Seq<bool>,
    pub score_per_frame: Seq<N>,
    pub cos_sim_max_per_frame: Seq<N>,
    pub f0_match_per_frame: Seq<N>,
    pub tse_applied: bool,
}

impl<N> View for StreamingOutput<N> {
    type V = OutputView<N>;

    open spec fn view(&self) -> OutputView<N> {
        OutputView {
            audio: self.audio@,
            gate_decisions: self.gate_decisions@,
            events: self.events@,
            gate_per_frame: self.gate_per_frame@,
            score_per_frame: self.score_per_frame@,
            cos_sim_max_per_frame: self.cos_sim_max_per_frame@,
            f0_match_per_frame: self.f0_match_per_frame@,
            tse_applied: self.tse_applied,
        }
    }
}

/// Nothing yet.
pub open spec fn no_output<N>() -> OutputView<N> {
    OutputView {
        audio: Seq::empty(),
        gate_decisions: Seq::empty(),
        events: Seq::empty(),
        gate_per_frame: Seq::empty(),
        score_per_frame: Seq::empty(),
        cos_sim_max_per_frame: Seq::empty(),
        f0_match_per_frame: Seq::empty(),
        tse_applied: false,
    }
}

impl<N> StreamingOutput<N> {
    /// Nothing yet.
    pub fn new() -> (r: Self)
        ensures
            r@ == no_output::<N>(),
    {
        StreamingOutput {
            audio: Vec::new(),
            gate_decisions: Vec::new(),
            events: Vec::new(),
            gate_per_frame: Vec::new(),
            score_per_frame: Vec::new(),
            cos_sim_max_per_frame: Vec::new(),
            f0_match_per_frame: Vec::new(),
            tse_applied: false,
        }
    }
}

impl<N> Default for StreamingOutput<N> {
    /// Nothing yet.
    fn default() -> (r: Self)
        ensures
            r@ == no_output::<N>(),
    {
        StreamingOutput::new()
    }
}

// ---------------------------------------------------------------------
// State
// ---------------------------------------------------------------------
/// What the engine carries from frame to frame.
pub struct StreamingState<N> {
    pub speech: SpeechTracker<N>,
    pub score: ScoreState<N>,
    pub gate: GateState<N>,
    pub envelope: EnvelopeState<N>,
    /// The last decision of the speaker gate.
    pub current_decision: Option<bool>,
    pub frame_idx: usize,
    pub audio_samples_emitted: usize,
    pub fast_f0_cue: FastF0Cue<N>,
    pub turn: TurnDetector<N>,
    pub chain: Chain<N>,
    /// Refreshes on a worker, if that is how they run.
    pub channel: Option<RefreshChannel<N>>,
}

/// The window for suspected turns, where it is in use, is no longer than the other.
pub open spec fn shrinks<N>(cfg: PipelineConfig<N>) -> bool {
    cfg.turn_detect_enabled ==> cfg.sv_turn_window_samples <= cfg.sv_window_samples
}

impl<N: Scalar> StreamingState<N> {
    /// What holds whatever happened: every part is in order but for the queues
    /// of a chain that failed.
    pub open spec fn sound(&self, cfg: PipelineConfig<N>) -> bool {
        &&& shrinks(cfg) ==> self.in_window(cfg)
        &&& self.fast_f0_cue.wf()
        &&& self.chain.sound()
        &&& self.channel matches Some(c) ==> c.wf()
    }

    /// The window in force is one of the two, and the gathered speech fits it.
    pub open spec fn in_window(&self, cfg: PipelineConfig<N>) -> bool {
        &&& self.speech.wf(self.turn.effective_window as nat)
        &&& if cfg.turn_detect_enabled {
            cfg.sv_turn_window_samples <= self.turn.effective_window <= cfg.sv_window_samples
        } else {
            self.turn.effective_window == cfg.sv_window_samples
        }
    }

    /// What holds between frames as long as no stage has failed.
    pub open spec fn wf(&self, cfg: PipelineConfig<N>) -> bool {
        self.sound(cfg) && self.chain.wf()
    }

    /// The counters have room for `n` more frames.
    pub open spec fn room(&self, n: nat) -> bool {
        &&& self.speech@.since_update + n * CHUNK_SAMPLES_16K <= usize::MAX
        &&& self.speech@.new_speech + n * CHUNK_SAMPLES_16K <= usize::MAX
        &&& self.turn.turn_stable_counter + n <= u32::MAX
        &&& self.frame_idx + n <= usize::MAX
    }

    /// Whether the counters have room for `n` more frames.
    pub fn has_room(&self, n: usize) -> (r: bool)
        ensures
            r == self.room(n as nat),
    {
        if n as u64 > u64::MAX / CHUNK_SAMPLES_16K as u64 {
            return false;
        }
        let samples: u64 = n as u64 * CHUNK_SAMPLES_16K as u64;
        self.speech.has_room(samples) && self.turn.turn_stable_counter as u128 + n as u128
            <= u32::MAX as u128 && self.frame_idx as u128 + n as u128 <= usize::MAX as u128
    }
}

/// What is known of a frame before the speaker gate is asked.
pub struct FrameStart<N> {
    /// The frame is speech.
    pub now_speech: bool,
    /// How well its pitch matches, if it has one.
    pub fm_fast: Option<N>,
    pub turn: TurnDecision,
    /// The speech to compute an embedding from, if one is due.
    pub window: Option<Vec<N>>,
}

/// Everything the engine does not compute itself: the models, the worker, the
/// resampler, and the functions beyond arithmetic.
pub struct Kit<N, V, R, S, C, P, O, M, D, I, J, E, Q, W, T, F> {
    /// Voice activity.
    pub vad: V,
    /// Embedding and mean pitch of a window of speech.
    pub embed: R,
    /// Hands a window to the worker; whether it was taken.
    pub send: S,
    /// Asks the worker for a result, and waits for one if told to.
    pub receive: C,
    /// What a worker that is gone is reported as.
    pub lost: String,
    /// Pitch of the most recent samples, if they have one.
    pub pitch: P,
    /// Overlap of speakers in a window.
    pub infer: O,
    /// Extraction of a chunk.
    pub extract: M,
    /// Noise suppression of a chunk.
    pub enhance: D,
    /// Audio samples that the resampler needs next.
    pub next_input: I,
    /// A frame at the decision rate.
    pub resample: J,
    pub exp: E,
    pub sqrt: Q,
    /// Ten to the power of its argument.
    pub pow10: W,
    pub tanh: T,
    /// Lets the noise suppression or the resampler forget what it heard.
    pub forget: F,
    /// The smallest spread that scores are divided by.
    pub eps: N,
}

/// The pitch ring after a frame; it rests while nothing asks for the pitch.
pub open spec fn cue_ring<N>(ring: Seq<N>, frame: Seq<N>, active: bool) -> Seq<N> {
    if active {
        keep_last(ring + frame, FAST_F0_RING_SAMPLES as nat)
    } else {
        ring
    }
}

/// Whether the pitch of single frames is in use.
pub open spec fn wants_pitch<N>(cfg: PipelineConfig<N>) -> bool {
    cfg.fast_cue_enabled || cfg.turn_detect_enabled
}

/// The turn detector after a frame: it observes speech only, and only if it is
/// switched on.
pub open spec fn turned<N: Scalar>(
    t: TurnDetector<N>,
    now_speech: bool,
    fm: Option<N>,
    gate_on: bool,
    cfg: PipelineConfig<N>,
) -> TurnDetector<N> {
    if now_speech && cfg.turn_detect_enabled {
        observed(t, fm, gate_on, cfg.turn_rules())
    } else {
        t
    }
}

/// What the turn detector asks of the frame.
pub open spec fn turn_asks<N>(
    before: TurnDetector<N>,
    after: TurnDetector<N>,
    now_speech: bool,
    enabled: bool,
) -> TurnDecision {
    if !now_speech {
        TurnDecision { entered_shrunk: false, shrunk: before.state == TurnState::Shrunk }
    } else if !enabled {
        TurnDecision { entered_shrunk: false, shrunk: false }
    } else {
        TurnDecision {
            entered_shrunk: before.state == TurnState::Steady && after.state == TurnState::Shrunk,
            shrunk: after.state == TurnState::Shrunk,
        }
    }
}

/// The gathered speech once the window may have shrunk.
pub open spec fn narrowed<N>(s: SpeechView<N>, entered_shrunk: bool, window: nat) -> SpeechView<N> {
    if entered_shrunk {
        SpeechView { buffer: keep_last(s.buffer, window), ..s }
    } else {
        s
    }
}

/// A frame's embedding is due.
pub open spec fn frame_is_due<N: Scalar>(
    s: SpeechView<N>,
    now_speech: bool,
    turn: TurnDecision,
    window: nat,
    cfg: PipelineConfig<N>,
) -> bool {
    refresh_is_due(
        s,
        now_speech,
        turn,
        cadence(cfg, turn.shrunk),
        cfg.sv_min_new_samples_after_silence as nat,
        window,
    )
}

impl<
    N: Scalar,
    V: Fn(&Vec<N>, &Vec<N>, u32) -> Result<VadReply<N>, EmbeddingError>,
    R: Fn(&Vec<N>) -> Result<(Vec<N>, N), EmbeddingError>,
    S: Fn(Vec<N>) -> bool,
    C: Fn(bool) -> Received<N>,
    P: Fn(&Vec<N>) -> Option<N>,
    O: Fn(&Vec<N>) -> Result<OverlapReply<N>, EmbeddingError>,
    M: Fn(&[N], &[N], &Vec<Tensor<N>>) -> Result<TseReply<N>, TseError>,
    D: Fn(&Vec<N>) -> Result<Vec<N>, EmbeddingError>,
    I: Fn() -> usize,
    J: Fn(&Vec<N>) -> Result<Vec<N>, String>,
    E: Fn(N) -> N,
    Q: Fn(N) -> N,
    W: Fn(N) -> N,
    T: Fn(N) -> N,
    F: Fn(Memory),
> Kit<N, V, R, S, C, P, O, M, D, I, J, E, Q, W, T, F> {
    /// Everything can be called on anything; embeddings have their dimension,
    /// models return what their labels say, and the resampler asks for audio.
    pub open spec fn ready(&self) -> bool {
        &&& forall|a: &Vec<N>, b: &Vec<N>, c: u32| call_requires(self.vad, (a, b, c))
        &&& forall|v: &Vec<N>| call_requires(self.embed, (v,))
        &&& forall|v: Vec<N>| call_requires(self.send, (v,))
        &&& forall|wait: bool| call_requires(self.receive, (wait,))
        &&& forall|v: &Vec<N>| call_requires(self.pitch, (v,))
        &&& forall|v: &Vec<N>| call_requires(self.infer, (v,))
        &&& forall|a: &[N], b: &[N], c: &Vec<Tensor<N>>| call_requires(self.extract, (a, b, c))
        &&& forall|v: &Vec<N>| call_requires(self.enhance, (v,))
        &&& call_requires(self.next_input, ())
        &&& forall|v: &Vec<N>| call_requires(self.resample, (v,))
        &&& forall|x: N| call_requires(self.exp, (x,))
        &&& forall|x: N| call_requires(self.sqrt, (x,))
        &&& forall|x: N| call_requires(self.pow10, (x,))
        &&& forall|x: N| call_requires(self.tanh, (x,))
        &&& forall|m: Memory| call_requires(self.forget, (m,))
        &&& forall|v: &Vec<N>, e: Vec<N>, hz: N| #[trigger]
            call_ensures(self.embed, (v,), Ok((e, hz))) ==> e@.len() == EMBEDDING_DIM
        &&& forall|wait: bool, e: Vec<N>, hz: N| #[trigger]
            call_ensures(self.receive, (wait,), Received::Ready(Ok((e, hz)))) ==> e@.len()
                == EMBEDDING_DIM
        &&& fills_its_label(self.extract)
        &&& returns_chunks(self.enhance)
        &&& forall|n: usize| #[trigger] call_ensures(self.next_input, (), n) ==> n > 0
    }

    /// `fm` says how well the pitch of the ring matches the enrolled one:
    /// nothing while the ring fills, and nothing without a pitch.
    pub open spec fn is_cue(
        &self,
        ring: Seq<N>,
        active: bool,
        enrolled: EnrollmentMetadata<N>,
        fm: Option<N>,
    ) -> bool {
        if !active || ring.len() < FAST_F0_RING_SAMPLES {
            fm is None
        } else {
            exists|hz: Option<N>|
                {
                    &&& #[trigger] estimated(ring, self.pitch, hz)
                    &&& match hz {
                        None => fm is None,
                        Some(h) => fm matches Some(m) && (lawful::<N>() ==> is_f0_fit(
                            h,
                            enrolled.f0_mu,
                            enrolled.f0_sigma,
                            self.exp,
                            m,
                        )),
                    }
                }
        }
    }

    /// Voice activity scored the frame, and the score is above the threshold or
    /// not.
    pub open spec fn is_told_speech(
        &self,
        before: VadView<N>,
        frame: Seq<N>,
        threshold: N,
        after: VadView<N>,
        now_speech: bool,
    ) -> bool {
        exists|prob: N|
            {
                &&& #[trigger] is_scored(before, frame, self.vad, after, Ok(prob))
                &&& lawful::<N>() ==> now_speech == gt(prob, threshold)
            }
    }

    /// What [`Kit::begin_frame`] finds and changes, once voice activity said
    /// whether the frame is speech.
    pub open spec fn is_begun(
        &self,
        before: StreamingState<N>,
        frame: Seq<N>,
        enrolled: EnrollmentMetadata<N>,
        cfg: PipelineConfig<N>,
        after: StreamingState<N>,
        f: FrameStart<N>,
    ) -> bool {
        let heard = after_frame(
            before.speech@,
            frame,
            f.now_speech,
            before.turn.effective_window as nat,
            cfg.frame_ms(),
        );
        let window = after.turn.effective_window as nat;
        let kept = narrowed(heard, f.turn.entered_shrunk, window);
        let due = frame_is_due(kept, f.now_speech, f.turn, window, cfg);
        &&& after == (StreamingState {
            speech: after.speech,
            fast_f0_cue: after.fast_f0_cue,
            turn: after.turn,
            ..before
        })
        &&& after.fast_f0_cue@ == cue_ring(before.fast_f0_cue@, frame, wants_pitch(cfg))
        &&& self.is_cue(after.fast_f0_cue@, wants_pitch(cfg), enrolled, f.fm_fast)
        &&& f.turn == turn_asks(before.turn, after.turn, f.now_speech, cfg.turn_detect_enabled)
        &&& !(f.now_speech && cfg.turn_detect_enabled) ==> after.turn == before.turn
        &&& lawful::<N>() ==> after.turn == turned(
            before.turn,
            f.now_speech,
            f.fm_fast,
            before.current_decision == Some(true),
            cfg,
        )
        &&& f.window is Some <==> due
        &&& f.window matches Some(w) ==> w@ == kept.buffer
        &&& same_but_times(
            after.speech@,
            if due {
                refreshed(kept)
            } else {
                kept
            },
        )
        &&& lawful::<N>() ==> after.speech@ == if due {
            refreshed(kept)
        } else {
            kept
        }
    }

    /// Hears a frame: is it speech, how does its pitch match, is a turn suspect,
    /// and is an embedding due?
    pub fn begin_frame(
        &self,
        state: &mut StreamingState<N>,
        vad: &mut SileroVad<N>,
        decision_frame: &[N],
        enrolled: EnrollmentMetadata<N>,
        cfg: &PipelineConfig<N>,
    ) -> (r: Result<FrameStart<N>, PipelineError>)
        requires
            self.ready(),
            total::<N>(),
            old(state).sound(*cfg),
            old(state).room(1),
            old(vad).wf(),
        ensures
            final(vad).wf(),
            final(state).sound(*cfg),
            final(state).turn.turn_stable_counter <= old(state).turn.turn_stable_counter + 1,
            match r {
                Ok(f) => {
                    &&& self.is_told_speech(
                        old(vad)@,
                        decision_frame@,
                        cfg.vad_threshold,
                        final(vad)@,
                        f.now_speech,
                    )
                    &&& self.is_begun(
                        *old(state),
                        decision_frame@,
                        enrolled,
                        *cfg,
                        *final(state),
                        f,
                    )
                    &&& shrinks(*cfg) ==> (f.window matches Some(w) ==> w@.len()
                        == final(state).turn.effective_window)
                },
                Err(e) => {
                    &&& e matches PipelineError::Embedding(cause)
                    &&& is_scored(
                        old(vad)@,
                        decision_frame@,
                        self.vad,
                        final(vad)@,
                        Err::<N, EmbeddingError>(cause),
                    )
                    &&& *final(state) == *old(state)
                },
            },
    {
        let dt_ms: N = cfg.vad_frame_ms();
        let effective_window: usize = state.turn.effective_window;
        let speech_prob: N = match vad.score(decision_frame, &self.vad) {
            Err(e) => {
                return Err(PipelineError::Embedding(e));
            },
            Ok(p) => p,
        };
        let now_speech: bool = speech_prob > cfg.vad_threshold;
        assert(is_scored(old(vad)@, decision_frame@, self.vad, vad@, Ok(speech_prob)));
        assert(self.is_told_speech(
            old(vad)@,
            decision_frame@,
            cfg.vad_threshold,
            vad@,
            now_speech,
        ));
        state.speech.hear(decision_frame, now_speech, effective_window, dt_ms);
        let ghost heard = state.speech@;
        let active: bool = cfg.fast_cue_enabled || cfg.turn_detect_enabled;
        let mut fm_fast: Option<N> = None;
        if active {
            let hz: Option<N> = state.fast_f0_cue.push_frame(decision_frame, &self.pitch);
            if let Some(f0_hz) = hz {
                fm_fast = Some(f0_match(f0_hz, enrolled.f0_mu, enrolled.f0_sigma, &self.exp));
            }
        }
        assert(self.is_cue(state.fast_f0_cue@, active, enrolled, fm_fast));
        let gate_on_before: bool = match state.current_decision {
            Some(on) => on,
            None => false,
        };
        let turn: TurnDecision = if now_speech {
            state.turn.observe(fm_fast, gate_on_before, cfg)
        } else {
            TurnDecision {
                entered_shrunk: false,
                shrunk: state.turn.state == TurnState::Shrunk,
            }
        };
        let window_len: usize = state.turn.effective_window;
        if turn.entered_shrunk {
            state.speech.shrink(window_len);
        }
        let window: Option<Vec<N>> = if state.speech.is_due(now_speech, turn, window_len, cfg) {
            Some(state.speech.take_window())
        } else {
            None
        };
        Ok(FrameStart { now_speech, fm_fast, turn, window })
    }

    // -----------------------------------------------------------------
    // Refreshing the score
    // -----------------------------------------------------------------
    /// A fresh embedding was folded in: the score and the pool as
    /// [`is_refreshed`] says, the event logged, and after an admission the
    /// extraction is conditioned anew.
    pub open spec fn is_folded(
        &self,
        before: StreamingState<N>,
        pool: PoolView<N>,
        out: OutputView<N>,
        emb: Vec<N>,
        f0_mu: N,
        frame_idx: usize,
        may_seed: bool,
        cohort: Seq<Vec<N>>,
        config: StreamingConfig<N>,
        after: StreamingState<N>,
        pool_after: PoolView<N>,
        out_after: OutputView<N>,
        r: Result<(), PipelineError>,
    ) -> bool {
        exists|event: Option<AutoLearnEvent<N>>|
            {
                &&& out_after == (OutputView { events: #[trigger] logged(out.events, event), ..out })
                &&& is_pool_step(pool, emb, may_seed, pool_after)
                &&& !config.pipeline.enable_auto_learn ==> event is None && pool_after == pool
                &&& lawful::<N>() ==> is_refreshed(
                    pool,
                    before.score,
                    emb,
                    f0_mu,
                    frame_idx,
                    before.speech@.speech_ms,
                    cohort,
                    config.gate,
                    config.pipeline.enable_auto_learn,
                    may_seed,
                    config.pipeline.score_ema_alpha,
                    self.eps,
                    self.sqrt,
                    self.exp,
                    pool_after,
                    after.score,
                    event,
                )
                &&& after == (StreamingState { score: after.score, chain: after.chain, ..before })
                &&& if before.chain@.tse is Some && is_admission(event) {
                    is_reconditioned(before.chain@, pool_after, after.chain@, r)
                } else {
                    after.chain == before.chain && r is Ok
                }
            }
    }

    /// Folds a fresh embedding in.
    fn fold(
        &self,
        state: &mut StreamingState<N>,
        pool: &mut EmbeddingPool<N>,
        embedding: Vec<N>,
        f0_mu: N,
        frame_idx: usize,
        may_seed: bool,
        cohort: &Vec<Vec<N>>,
        config: &StreamingConfig<N>,
        out: &mut StreamingOutput<N>,
    ) -> (r: Result<(), PipelineError>)
        requires
            self.ready(),
            total::<N>(),
            old(state).sound(config.pipeline),
            old(pool).wf(),
            embedding@.len() == EMBEDDING_DIM,
            old(pool)@.uniform(EMBEDDING_DIM as nat),
            uniform(cohort@, EMBEDDING_DIM as nat),
        ensures
            r matches Err(e) ==> from_engine(e),
            keeps_counts(*old(state), *final(state)),
            final(out)@ == (OutputView { events: final(out)@.events, ..old(out)@ }),
            final(state).sound(config.pipeline),
            old(state).wf(config.pipeline) ==> final(state).wf(config.pipeline),
            final(pool).wf(),
            final(pool)@.uniform(EMBEDDING_DIM as nat),
            is_spared(config.pipeline.enable_auto_learn, old(pool)@, final(pool)@),
            !config.pipeline.enable_auto_learn ==> final(out)@ == old(out)@,
            self.is_folded(
                *old(state),
                old(pool)@,
                old(out)@,
                embedding,
                f0_mu,
                frame_idx,
                may_seed,
                cohort@,
                *config,
                *final(state),
                final(pool)@,
                final(out)@,
                r,
            ),
    {
        let speech_ms: N = state.speech.consecutive_speech_ms();
        let event: Option<AutoLearnEvent<N>> = apply_refresh(
            embedding,
            f0_mu,
            frame_idx,
            speech_ms,
            pool,
            cohort,
            &config.gate,
            config.pipeline.enable_auto_learn,
            may_seed,
            config.pipeline.score_ema_alpha,
            self.eps,
            &self.sqrt,
            &self.exp,
            &mut state.score,
        );
        log_event(&mut out.events, event);
        let ghost logs = logged(old(out)@.events, event);
        assert(out@ =~= (OutputView { events: logs, ..old(out)@ }));
        let admitted: bool = match event {
            Some(e) => e.kind == AutoLearnKind::Admit,
            None => false,
        };
        if state.chain.has_tse() && admitted {
            match tse_cond_embedding(pool) {
                Err(e) => Err(e),
                Ok(cond) => {
                    let set: Result<(), TseStageError> = state.chain.set_cond_embedding(
                        cond.as_slice(),
                    );
                    match set {
                        Err(e) => Err(PipelineError::TseStage(e)),
                        Ok(()) => Ok(()),
                    }
                },
            }
        } else {
            Ok(())
        }
    }

    /// The embedding model was run on `window` with that outcome.
    pub open spec fn measured(
        &self,
        window: Seq<N>,
        outcome: Result<(Vec<N>, N), EmbeddingError>,
    ) -> bool {
        exists|v: Vec<N>| v@ == window && #[trigger] call_ensures(self.embed, (&v,), outcome)
    }

    /// What [`Kit::refresh`] does with a window: a worker is handed it; without
    /// one the embedding is computed and folded in at once. While a turn is
    /// suspect the turn detector is told.
    pub open spec fn is_refresh(
        &self,
        before: StreamingState<N>,
        pool: PoolView<N>,
        out: OutputView<N>,
        window: Seq<N>,
        shrunk: bool,
        cohort: Seq<Vec<N>>,
        config: StreamingConfig<N>,
        after: StreamingState<N>,
        pool_after: PoolView<N>,
        out_after: OutputView<N>,
        r: Result<(), PipelineError>,
    ) -> bool {
        match before.channel {
            Some(channel) => {
                &&& r is Ok
                &&& pool_after == pool
                &&& out_after == out
                &&& after.channel matches Some(c)
                &&& is_submitted(channel@, window, before.frame_idx, self.send, c@)
                &&& after == (StreamingState {
                    channel: after.channel,
                    turn: told(before.turn, shrunk),
                    ..before
                })
            },
            None => exists|outcome: Result<(Vec<N>, N), EmbeddingError>|
                {
                    &&& #[trigger] self.measured(window, outcome)
                    &&& match outcome {
                        Err(e) => {
                            &&& r == Err::<(), PipelineError>(PipelineError::Embedding(e))
                            &&& after == before
                            &&& pool_after == pool
                            &&& out_after == out
                        },
                        Ok((emb, f0_mu)) => exists|mid: StreamingState<N>|
                            {
                                &&& #[trigger] self.is_folded(
                                    before,
                                    pool,
                                    out,
                                    emb,
                                    f0_mu,
                                    before.frame_idx,
                                    false,
                                    cohort,
                                    config,
                                    mid,
                                    pool_after,
                                    out_after,
                                    r,
                                )
                                &&& after == if r is Ok {
                                    StreamingState { turn: told(mid.turn, shrunk), ..mid }
                                } else {
                                    mid
                                }
                            },
                    }
                },
        }
    }

    /// An embedding is due on `window`.
    pub fn refresh(
        &self,
        state: &mut StreamingState<N>,
        pool: &mut EmbeddingPool<N>,
        window: Vec<N>,
        shrunk: bool,
        cohort: &Vec<Vec<N>>,
        config: &StreamingConfig<N>,
        out: &mut StreamingOutput<N>,
    ) -> (r: Result<(), PipelineError>)
        requires
            self.ready(),
            total::<N>(),
            old(state).sound(config.pipeline),
            old(pool).wf(),
            old(pool)@.uniform(EMBEDDING_DIM as nat),
            uniform(cohort@, EMBEDDING_DIM as nat),
        ensures
            r matches Err(e) ==> from_engine(e),
            keeps_counts(*old(state), *final(state)),
            final(out)@ == (OutputView { events: final(out)@.events, ..old(out)@ }),
            final(state).sound(config.pipeline),
            old(state).wf(config.pipeline) ==> final(state).wf(config.pipeline),
            final(pool).wf(),
            final(pool)@.uniform(EMBEDDING_DIM as nat),
            is_spared(config.pipeline.enable_auto_learn, old(pool)@, final(pool)@),
            !config.pipeline.enable_auto_learn ==> final(out)@ == old(out)@,
            self.is_refresh(
                *old(state),
                old(pool)@,
                old(out)@,
                window@,
                shrunk,
                cohort@,
                *config,
                *final(state),
                final(pool)@,
                final(out)@,
                r,
            ),
    {
        let channel: Option<RefreshChannel<N>> = state.channel.take();
        let done: Result<(), PipelineError> = match channel {
            Some(mut c) => {
                c.submit(window, state.frame_idx, &self.send);
                state.channel = Some(c);
                Ok(())
            },
            None => {
                let outcome: Result<(Vec<N>, N), EmbeddingError> = (self.embed)(&window);
                assert(self.measured(window@, outcome));
                assert(*state == *old(state));
                match outcome {
                    Err(e) => {
                        return Err(PipelineError::Embedding(e));
                    },
                    Ok((emb, f0_mu)) => {
                        let frame_idx: usize = state.frame_idx;
                        let folded: Result<(), PipelineError> = self.fold(
                            state,
                            pool,
                            emb,
                            f0_mu,
                            frame_idx,
                            false,
                            cohort,
                            config,
                            out,
                        );
                        assert(self.is_folded(
                            *old(state),
                            old(pool)@,
                            old(out)@,
                            emb,
                            f0_mu,
                            old(state).frame_idx,
                            false,
                            cohort@,
                            *config,
                            *state,
                            pool@,
                            out@,
                            folded,
                        ));
                        if folded.is_err() {
                            return folded;
                        }
                        folded
                    },
                }
            },
        };
        let ghost mid = *state;
        if shrunk {
            state.turn.note_refresh_completed();
        }
        assert(*state == (StreamingState { turn: told(mid.turn, shrunk), ..mid }));
        done
    }

    /// What [`Kit::poll`] does: at most one result of the worker is folded in.
    pub open spec fn is_polled(
        &self,
        before: StreamingState<N>,
        pool: PoolView<N>,
        out: OutputView<N>,
        cohort: Seq<Vec<N>>,
        config: StreamingConfig<N>,
        after: StreamingState<N>,
        pool_after: PoolView<N>,
        out_after: OutputView<N>,
        r: Result<(), PipelineError>,
    ) -> bool {
        match before.channel {
            None => r is Ok && after == before && pool_after == pool && out_after == out,
            Some(channel) => if channel@.outstanding == 0 {
                &&& r is Ok
                &&& same_but_channel(before, after)
                &&& pool_after == pool
                &&& out_after == out
            } else {
                exists|got: Received<N>|
                    {
                        &&& #[trigger] call_ensures(self.receive, (false,), got)
                        &&& match got {
                            Received::Ready(Ok((emb, f0_mu))) => exists|mid: StreamingState<N>|
                                {
                                    &&& mid == (StreamingState { channel: mid.channel, ..before })
                                    &&& mid.channel matches Some(c) && is_answered(
                                        channel@,
                                        self.send,
                                        c@,
                                    )
                                    &&& #[trigger] self.is_folded(
                                        mid,
                                        pool,
                                        out,
                                        emb,
                                        f0_mu,
                                        next_frame(channel@),
                                        true,
                                        cohort,
                                        config,
                                        after,
                                        pool_after,
                                        out_after,
                                        r,
                                    )
                                },
                            Received::Ready(Err(e)) => {
                                &&& r == Err::<(), PipelineError>(PipelineError::Embedding(e))
                                &&& same_but_channel(before, after)
                                &&& pool_after == pool
                                &&& out_after == out
                            },
                            Received::Empty => {
                                &&& r is Ok
                                &&& same_but_channel(before, after)
                                &&& pool_after == pool
                                &&& out_after == out
                            },
                            Received::Disconnected => {
                                &&& r matches Err(
                                    PipelineError::Embedding(EmbeddingError::Ort(m)),
                                ) && m@ == self.lost@
                                &&& same_but_channel(before, after)
                                &&& pool_after == pool
                                &&& out_after == out
                            },
                        }
                    }
            },
        }
    }

    /// Asks the worker, if there is one, for a result and folds it in.
    pub fn poll(
        &self,
        state: &mut StreamingState<N>,
        pool: &mut EmbeddingPool<N>,
        cohort: &Vec<Vec<N>>,
        config: &StreamingConfig<N>,
        out: &mut StreamingOutput<N>,
    ) -> (r: Result<(), PipelineError>)
        requires
            self.ready(),
            total::<N>(),
            old(state).sound(config.pipeline),
            old(pool).wf(),
            old(pool)@.uniform(EMBEDDING_DIM as nat),
            uniform(cohort@, EMBEDDING_DIM as nat),
        ensures
            r matches Err(e) ==> from_engine(e),
            keeps_counts(*old(state), *final(state)),
            final(out)@ == (OutputView { events: final(out)@.events, ..old(out)@ }),
            final(state).sound(config.pipeline),
            old(state).wf(config.pipeline) ==> final(state).wf(config.pipeline),
            final(pool).wf(),
            final(pool)@.uniform(EMBEDDING_DIM as nat),
            is_spared(config.pipeline.enable_auto_learn, old(pool)@, final(pool)@),
            !config.pipeline.enable_auto_learn ==> final(out)@ == old(out)@,
            self.is_polled(
                *old(state),
                old(pool)@,
                old(out)@,
                cohort@,
                *config,
                *final(state),
                final(pool)@,
                final(out)@,
                r,
            ),
    {
        let channel: Option<RefreshChannel<N>> = state.channel.take();
        match channel {
            None => {
                assert(*state == *old(state));
                Ok(())
            },
            Some(mut c) => {
                let ghost c0 = c@;
                let answer: Result<Option<(usize, Vec<N>, N)>, EmbeddingError> = c.try_recv_result(
                    &self.send,
                    &self.receive,
                    self.lost.as_str(),
                );
                state.channel = Some(c);
                match answer {
                    Err(e) => Err(PipelineError::Embedding(e)),
                    Ok(None) => Ok(()),
                    Ok(Some((frame_idx, emb, f0_mu))) => {
                        let ghost mid = *state;
                        let r: Result<(), PipelineError> = self.fold(
                            state,
                            pool,
                            emb,
                            f0_mu,
                            frame_idx,
                            true,
                            cohort,
                            config,
                            out,
                        );
                        assert(self.is_folded(
                            mid,
                            old(pool)@,
                            old(out)@,
                            emb,
                            f0_mu,
                            next_frame(c0),
                            true,
                            cohort@,
                            *config,
                            *state,
                            pool@,
                            out@,
                            r,
                        ));
                        r
                    },
                }
            },
        }
    }

    // -----------------------------------------------------------------
    // Gate, envelope and chain
    // -----------------------------------------------------------------
    /// The speaker gate took its decision on a frame: the score, hangover and all, and
    /// the rules that hold it closed whatever the score.
    pub open spec fn is_decided(
        &self,
        before: StreamingState<N>,
        fm_fast: Option<N>,
        out: OutputView<N>,
        config: StreamingConfig<N>,
        after: StreamingState<N>,
        out_after: OutputView<N>,
        on: bool,
    ) -> bool {
        let cfg = config.pipeline;
        let score = gate_input(before.score.last_score, fm_fast, cfg);
        &&& after.gate.rules() == before.gate.rules()
        &&& after == (StreamingState { gate: after.gate, current_decision: Some(on), ..before })
        &&& out_after.audio == out.audio
        &&& out_after.events == out.events
        &&& out_after.tse_applied == out.tse_applied
        &&& out_after.gate_decisions == if before.current_decision == Some(on) {
            out.gate_decisions
        } else {
            out.gate_decisions.push((before.audio_samples_emitted, on))
        }
        &&& out_after.gate_per_frame == noted(out.gate_per_frame, on, config.diagnostics)
        &&& out_after.cos_sim_max_per_frame == noted(
            out.cos_sim_max_per_frame,
            before.score.last_cs,
            config.diagnostics,
        )
        &&& out_after.f0_match_per_frame == noted(
            out.f0_match_per_frame,
            before.score.last_fm,
            config.diagnostics,
        )
        &&& lawful::<N>() ==> {
            &&& after.gate@ == gate_step(before.gate.rules(), before.gate@, score, cfg.frame_ms())
            &&& on == (after.gate@.on && !held_closed(before.speech@.silence_ms, before.turn, cfg))
        }
        &&& exists|asked: N|
            {
                &&& out_after.score_per_frame == #[trigger] noted(
                    out.score_per_frame,
                    asked,
                    config.diagnostics,
                )
                &&& lawful::<N>() || !cfg.fast_cue_enabled ==> asked == score
            }
    }

    /// Lets the speaker gate decide on a frame and records the decision.
    pub fn decide(
        &self,
        state: &mut StreamingState<N>,
        fm_fast: Option<N>,
        config: &StreamingConfig<N>,
        out: &mut StreamingOutput<N>,
    ) -> (on: bool)
        requires
            total::<N>(),
        ensures
            self.is_decided(
                *old(state),
                fm_fast,
                old(out)@,
                *config,
                *final(state),
                final(out)@,
                on,
            ),
    {
        let cfg: &PipelineConfig<N> = &config.pipeline;
        let zero: N = N::from(0u16);
        let dt_ms: N = cfg.vad_frame_ms();
        let gate_score: N = if cfg.fast_cue_enabled {
            let fm: N = match fm_fast {
                Some(x) => x,
                None => cfg.fast_cue_f0_neutral,
            };
            fuse_fast_cue(state.score.last_score, fm, cfg.fast_cue_weight, cfg.fast_cue_f0_neutral)
        } else {
            state.score.last_score
        };
        let on_score: bool = state.gate.update(gate_score, dt_ms);
        let silence_ms: N = state.speech.silence_ms_since_speech();
        let forced_off: bool = cfg.silence_force_off_ms > zero && silence_ms
            >= cfg.silence_force_off_ms;
        let on: bool = on_score && !forced_off && !state.turn.offset_failclosed_active;
        if config.diagnostics {
            out.gate_per_frame.push(on);
            out.score_per_frame.push(gate_score);
            out.cos_sim_max_per_frame.push(state.score.last_cs);
            out.f0_match_per_frame.push(state.score.last_fm);
        }
        assert(out@.score_per_frame == noted(
            old(out)@.score_per_frame,
            gate_score,
            config.diagnostics,
        ));
        let unchanged: bool = match state.current_decision {
            Some(last) => last == on,
            None => false,
        };
        if !unchanged {
            out.gate_decisions.push((state.audio_samples_emitted, on));
            state.current_decision = Some(on);
        }
        on
    }

    /// A chunk left the chain with its gains: through the stages where there
    /// are any, after the overlap detector was heard; otherwise times its gains.
    pub open spec fn is_emitted(
        &self,
        before: ChainView<N>,
        chunk: Seq<N>,
        frame: Seq<N>,
        gain: Seq<N>,
        config: StreamingConfig<N>,
        after: ChainView<N>,
        audio: Seq<N>,
    ) -> bool {
        exists|mid: ChainView<N>|
            {
                &&& #[trigger] self.is_switched(before, frame, config, mid, Ok::<(), PipelineError>(()))
                &&& if mid.active() {
                    is_routed(
                        mid,
                        chunk,
                        gain,
                        config,
                        self.extract,
                        self.enhance,
                        self.sqrt,
                        self.pow10,
                        self.tanh,
                        after,
                        audio,
                    )
                } else {
                    after == mid && audio == scaled_by(chunk, gain)
                }
            }
    }

    /// The overlap detector, where it has a choice to make, was heard.
    pub open spec fn is_switched(
        &self,
        before: ChainView<N>,
        frame: Seq<N>,
        config: StreamingConfig<N>,
        after: ChainView<N>,
        r: Result<(), PipelineError>,
    ) -> bool {
        if before.adaptive() {
            is_guided(
                before,
                listened(before.detector->0, frame),
                config,
                self.infer,
                self.exp,
                self.forget,
                after,
                r,
            )
        } else {
            r is Ok && after == before
        }
    }

    /// The chain failed on a chunk: the overlap detector, or a stage.
    pub open spec fn is_chain_failure(
        &self,
        before: ChainView<N>,
        chunk: Seq<N>,
        frame: Seq<N>,
        gain: Seq<N>,
        config: StreamingConfig<N>,
        after: ChainView<N>,
        e: PipelineError,
    ) -> bool {
        exists|mid: ChainView<N>, heard: Result<(), PipelineError>|
            {
                &&& #[trigger] self.is_switched(before, frame, config, mid, heard)
                &&& match heard {
                    Err(cause) => e == cause && after == mid,
                    Ok(_) => is_route_failure(
                        mid,
                        chunk,
                        gain,
                        self.extract,
                        self.enhance,
                        after,
                        e,
                    ),
                }
            }
    }

    /// Sends a chunk through the chain with the gains of its envelope.
    pub fn emit(
        &self,
        chain: &mut Chain<N>,
        audio_chunk: &[N],
        decision_frame: &[N],
        gain: &Vec<N>,
        config: &StreamingConfig<N>,
        out: &mut StreamingOutput<N>,
    ) -> (r: Result<(), PipelineError>)
        requires
            self.ready(),
            total::<N>(),
            old(chain).sound(),
            gain@.len() == audio_chunk@.len(),
        ensures
            r matches Err(e) ==> from_engine(e),
            final(chain).sound(),
            old(chain).wf() && r is Ok ==> final(chain).wf(),
            r is Ok ==> (final(chain)@.tse is Some <==> old(chain)@.tse is Some),
            r is Ok ==> final(chain)@.adaptive() == old(chain)@.adaptive(),
            match r {
                Ok(_) => {
                    &&& final(out)@ == (OutputView {
                        audio: final(out)@.audio,
                        tse_applied: if old(chain)@.active() {
                            old(chain)@.tse is Some
                        } else {
                            old(out)@.tse_applied
                        },
                        ..old(out)@
                    })
                    &&& old(out)@.audio.is_prefix_of(final(out)@.audio)
                    &&& old(chain).wf() && !old(chain)@.adaptive() ==> final(out)@.audio.len() + final(
                        chain)@.held_back() == old(out)@.audio.len() + old(chain)@.held_back()
                        + audio_chunk@.len()
                    &&& lawful::<N>() ==> self.is_emitted(
                        old(chain)@,
                        audio_chunk@,
                        decision_frame@,
                        gain@,
                        *config,
                        final(chain)@,
                        final(out)@.audio.skip(old(out)@.audio.len() as int),
                    )
                },
                Err(e) => old(chain)@.active() && final(out)@ == old(out)@
                    && self.is_chain_failure(
                    old(chain)@,
                    audio_chunk@,
                    decision_frame@,
                    gain@,
                    *config,
                    final(chain)@,
                    e,
                ),
            },
    {
        let ghost before = chain@;
        let switched: Result<(), PipelineError> = if chain.is_adaptive() {
            chain.update_chain_mode(
                decision_frame,
                config,
                &self.infer,
                &self.exp,
                &self.forget,
            )
        } else {
            Ok(())
        };
        assert(self.is_switched(before, decision_frame@, *config, chain@, switched));
        if switched.is_err() {
            return switched;
        }
        proof {
            assert(self.is_switched(
                before,
                decision_frame@,
                *config,
                chain@,
                Ok::<(), PipelineError>(()),
            ));
        }
        let ghost mid = chain@;
        let ghost o0 = out@;
        if chain.is_active() {
            let has_tse: bool = chain.has_tse();
            let routed: Result<Vec<N>, PipelineError> = chain.route(
                audio_chunk,
                gain.as_slice(),
                config,
                &self.extract,
                &self.enhance,
                &self.sqrt,
                &self.pow10,
                &self.tanh,
            );
            match routed {
                Err(e) => Err(e),
                Ok(v) => {
                    append_samples(&mut out.audio, v.as_slice(), 0, v.len());
                    out.tse_applied = has_tse;
                    proof {
                        assert(v@.subrange(0, v@.len() as int) =~= v@);
                        assert(out@.audio =~= o0.audio + v@);
                        assert(out@.audio.skip(o0.audio.len() as int) =~= v@);
                        assert(out@ =~= (OutputView {
                            audio: out@.audio,
                            tse_applied: has_tse,
                            ..o0
                        }));
                    }
                    Ok(())
                },
            }
        } else {
            let mut k: usize = 0;
            while k < audio_chunk.len()
                invariant
                    total::<N>(),
                    k <= audio_chunk@.len(),
                    gain@.len() == audio_chunk@.len(),
                    out@.audio.len() == o0.audio.len() + k,
                    o0.audio.is_prefix_of(out@.audio),
                    out@ == (OutputView { audio: out@.audio, ..o0 }),
                    lawful::<N>() ==> forall|j: int|
                        0 <= j < k ==> #[trigger] out@.audio[o0.audio.len() + j]
                            == audio_chunk@[j].mul_spec(gain@[j]),
                decreases audio_chunk@.len() - k,
            {
                let x: N = audio_chunk[k];
                let g: N = gain[k];
                let ghost a0 = out@.audio;
                out.audio.push(x * g);
                proof {
                    assert(o0.audio =~= out@.audio.take(o0.audio.len() as int));
                    assert forall|j: int| 0 <= j < k implies #[trigger] out@.audio[o0.audio.len()
                        + j] == a0[o0.audio.len() + j] by {}
                    assert(out@ =~= (OutputView { audio: out@.audio, ..o0 }));
                }
                k = k + 1;
            }
            proof {
                if lawful::<N>() {
                    let added = out@.audio.skip(o0.audio.len() as int);
                    assert forall|j: int| 0 <= j < added.len() implies #[trigger] added[j]
                        == scaled_by(audio_chunk@, gain@)[j] by {
                        assert(out@.audio[o0.audio.len() + j] == audio_chunk@[j].mul_spec(
                            gain@[j],
                        ));
                    }
                    assert(added =~= scaled_by(audio_chunk@, gain@));
                }
            }
            Ok(())
        }
    }

    /// What [`Kit::finish_frame`] does to state and output.
    pub open spec fn is_finished(
        &self,
        before: StreamingState<N>,
        chunk: Seq<N>,
        frame: Seq<N>,
        fm_fast: Option<N>,
        out: OutputView<N>,
        config: StreamingConfig<N>,
        after: StreamingState<N>,
        out_after: OutputView<N>,
    ) -> bool {
        exists|decided: StreamingState<N>, said: OutputView<N>, on: bool, gain: Seq<N>|
            {
                &&& #[trigger] self.is_decided(before, fm_fast, out, config, decided, said, on)
                &&& #[trigger] is_opened(decided.envelope@, on, chunk.len(), gain, after.envelope@)
                &&& after == (StreamingState {
                    envelope: after.envelope,
                    chain: after.chain,
                    frame_idx: (before.frame_idx + 1) as usize,
                    audio_samples_emitted: (before.audio_samples_emitted + chunk.len()) as usize,
                    ..decided
                })
                &&& out_after == (OutputView {
                    audio: out_after.audio,
                    tse_applied: if before.chain@.active() {
                        before.chain@.tse is Some
                    } else {
                        out.tse_applied
                    },
                    ..said
                })
                &&& out.audio.is_prefix_of(out_after.audio)
                &&& lawful::<N>() ==> self.is_emitted(
                    before.chain@,
                    chunk,
                    frame,
                    gain,
                    config,
                    after.chain@,
                    out_after.audio.skip(out.audio.len() as int),
                )
            }
    }

    /// What [`Kit::finish_frame`] does to the state where the chain fails: the
    /// speaker gate has decided, the envelope has moved, and the frame does not count.
    pub open spec fn is_unfinished(
        &self,
        before: StreamingState<N>,
        chunk: Seq<N>,
        frame: Seq<N>,
        fm_fast: Option<N>,
        out: OutputView<N>,
        config: StreamingConfig<N>,
        after: StreamingState<N>,
        e: PipelineError,
    ) -> bool {
        &&& before.chain@.active()
        &&& exists|decided: StreamingState<N>, said: OutputView<N>, on: bool, gain: Seq<N>|
            {
                &&& #[trigger] self.is_decided(before, fm_fast, out, config, decided, said, on)
                &&& #[trigger] is_opened(decided.envelope@, on, chunk.len(), gain, after.envelope@)
                &&& after == (StreamingState {
                    envelope: after.envelope,
                    chain: after.chain,
                    ..decided
                })
                &&& self.is_chain_failure(
                    before.chain@,
                    chunk,
                    frame,
                    gain,
                    config,
                    after.chain@,
                    e,
                )
            }
    }

    /// Lets the speaker gate decide on a frame and sends its audio on its way.
    pub fn finish_frame(
        &self,
        state: &mut StreamingState<N>,
        audio_chunk: &[N],
        decision_frame: &[N],
        fm_fast: Option<N>,
        config: &StreamingConfig<N>,
        out: &mut StreamingOutput<N>,
    ) -> (r: Result<(), PipelineError>)
        requires
            self.ready(),
            total::<N>(),
            old(state).sound(config.pipeline),
            old(state).frame_idx < usize::MAX,
            old(state).audio_samples_emitted + audio_chunk@.len() <= usize::MAX,
        ensures
            r matches Err(e) ==> from_engine(e),
            final(state).sound(config.pipeline),
            old(state).wf(config.pipeline) && r is Ok ==> final(state).wf(config.pipeline),
            match r {
                Ok(_) => {
                    &&& self.is_finished(
                        *old(state),
                        audio_chunk@,
                        decision_frame@,
                        fm_fast,
                        old(out)@,
                        *config,
                        *final(state),
                        final(out)@,
                    )
                    &&& decided_at(
                        old(out)@.gate_decisions,
                        old(state).audio_samples_emitted,
                        final(out)@.gate_decisions,
                    )
                    &&& final(state).chain@.adaptive() == old(state).chain@.adaptive()
                    &&& old(state).wf(config.pipeline) && !old(state).chain@.adaptive()
                        ==> final(out)@.audio.len() + final(state).chain@.held_back() == old(
                        out)@.audio.len() + old(state).chain@.held_back() + audio_chunk@.len()
                    &&& recorded_more(old(out)@, final(out)@, config.diagnostics)
                },
                Err(e) => self.is_unfinished(
                    *old(state),
                    audio_chunk@,
                    decision_frame@,
                    fm_fast,
                    old(out)@,
                    *config,
                    *final(state),
                    e,
                ),
            },
    {
        let on: bool = self.decide(state, fm_fast, config, out);
        let ghost decided = *state;
        let ghost said = out@;
        let gain: Vec<N> = state.envelope.advance(on, audio_chunk.len());
        assert(is_opened(decided.envelope@, on, audio_chunk@.len(), gain@, state.envelope@));
        let emitted: Result<(), PipelineError> = self.emit(
            &mut state.chain,
            audio_chunk,
            decision_frame,
            &gain,
            config,
            out,
        );
        if emitted.is_err() {
            assert(self.is_decided(*old(state), fm_fast, old(out)@, *config, decided, said, on));
            return emitted;
        }
        state.audio_samples_emitted = state.audio_samples_emitted + audio_chunk.len();
        state.frame_idx = state.frame_idx + 1;
        proof {
            assert(self.is_decided(*old(state), fm_fast, old(out)@, *config, decided, said, on));
            let d0 = old(out)@.gate_decisions;
            assert(d0.push((old(state).audio_samples_emitted, on)).drop_last() =~= d0);
        }
        emitted
    }

    // -----------------------------------------------------------------
    // One frame
    // -----------------------------------------------------------------
    /// A window that is due was served; without one nothing happens.
    pub open spec fn is_served(
        &self,
        window: Option<Vec<N>>,
        before: StreamingState<N>,
        pool: PoolView<N>,
        out: OutputView<N>,
        shrunk: bool,
        cohort: Seq<Vec<N>>,
        config: StreamingConfig<N>,
        after: StreamingState<N>,
        pool_after: PoolView<N>,
        out_after: OutputView<N>,
        r: Result<(), PipelineError>,
    ) -> bool {
        match window {
            None => r is Ok && after == before && pool_after == pool && out_after == out,
            Some(w) => self.is_refresh(
                before,
                pool,
                out,
                w@,
                shrunk,
                cohort,
                config,
                after,
                pool_after,
                out_after,
                r,
            ),
        }
    }

    /// Voice activity heard the frame and the frame was begun.
    pub open spec fn is_opening(
        &self,
        before: Moment<N>,
        frame: Seq<N>,
        config: StreamingConfig<N>,
        vad_after: VadView<N>,
        begun: StreamingState<N>,
        f: FrameStart<N>,
    ) -> bool {
        &&& self.is_told_speech(
            before.vad,
            frame,
            config.pipeline.vad_threshold,
            vad_after,
            f.now_speech,
        )
        &&& self.is_begun(
            before.state,
            frame,
            before.pool.metadata,
            config.pipeline,
            begun,
            f,
        )
    }

    /// One frame took the engine from `before` to `after` and gave `delta`:
    /// begun, a due embedding served, the worker asked, and finished.
    pub open spec fn is_stepped(
        &self,
        before: Moment<N>,
        chunk: Seq<N>,
        frame: Seq<N>,
        cohort: Seq<Vec<N>>,
        config: StreamingConfig<N>,
        after: Moment<N>,
        delta: OutputView<N>,
    ) -> bool {
        exists|
            begun: StreamingState<N>,
            f: FrameStart<N>,
            served: StreamingState<N>,
            served_pool: PoolView<N>,
            served_out: OutputView<N>,
            served_r: Result<(), PipelineError>,
            asked: StreamingState<N>,
            asked_out: OutputView<N>,
            asked_r: Result<(), PipelineError>,
        |
            {
                &&& #[trigger] self.is_opening(before, frame, config, after.vad, begun, f)
                &&& served_r is Ok
                &&& #[trigger] self.is_served(
                    f.window,
                    begun,
                    before.pool,
                    no_output(),
                    f.turn.shrunk,
                    cohort,
                    config,
                    served,
                    served_pool,
                    served_out,
                    served_r,
                )
                &&& asked_r is Ok
                &&& #[trigger] self.is_polled(
                    served,
                    served_pool,
                    served_out,
                    cohort,
                    config,
                    asked,
                    after.pool,
                    asked_out,
                    asked_r,
                )
                &&& self.is_finished(
                    asked,
                    chunk,
                    frame,
                    f.fm_fast,
                    asked_out,
                    config,
                    after.state,
                    delta,
                )
            }
    }

    /// A frame failed: voice activity, the embedding, the worker or the chain.
    pub open spec fn is_broken(
        &self,
        before: Moment<N>,
        chunk: Seq<N>,
        frame: Seq<N>,
        cohort: Seq<Vec<N>>,
        config: StreamingConfig<N>,
        after: Moment<N>,
        e: PipelineError,
    ) -> bool {
        ||| {
            &&& e matches PipelineError::Embedding(cause)
            &&& is_scored(before.vad, frame, self.vad, after.vad, Err::<N, EmbeddingError>(cause))
            &&& after == (Moment { vad: after.vad, ..before })
        }
        ||| exists|begun: StreamingState<N>, f: FrameStart<N>|
            {
                &&& #[trigger] self.is_opening(before, frame, config, after.vad, begun, f)
                &&& self.is_late_failure(
                    begun,
                    f,
                    before.pool,
                    chunk,
                    frame,
                    cohort,
                    config,
                    after.state,
                    after.pool,
                    e,
                )
            }
    }

    /// A frame that was begun failed later on.
    pub open spec fn is_late_failure(
        &self,
        begun: StreamingState<N>,
        f: FrameStart<N>,
        pool: PoolView<N>,
        chunk: Seq<N>,
        frame: Seq<N>,
        cohort: Seq<Vec<N>>,
        config: StreamingConfig<N>,
        after: StreamingState<N>,
        pool_after: PoolView<N>,
        e: PipelineError,
    ) -> bool {
        exists|
            served: StreamingState<N>,
            served_pool: PoolView<N>,
            served_out: OutputView<N>,
            r: Result<(), PipelineError>,
        |
            {
                &&& #[trigger] self.is_served(
                    f.window,
                    begun,
                    pool,
                    no_output(),
                    f.turn.shrunk,
                    cohort,
                    config,
                    served,
                    served_pool,
                    served_out,
                    r,
                )
                &&& r matches Err(cause) ==> e == cause && after == served && pool_after
                    == served_pool
                &&& r is Ok ==> exists|
                    asked: StreamingState<N>,
                    asked_out: OutputView<N>,
                    q: Result<(), PipelineError>,
                |
                    {
                        &&& #[trigger] self.is_polled(
                            served,
                            served_pool,
                            served_out,
                            cohort,
                            config,
                            asked,
                            pool_after,
                            asked_out,
                            q,
                        )
                        &&& q matches Err(cause) ==> e == cause && after == asked
                        &&& q is Ok ==> self.is_unfinished(
                            asked,
                            chunk,
                            frame,
                            f.fm_fast,
                            asked_out,
                            config,
                            after,
                            e,
                        )
                    }
            }
    }

    /// Takes the engine through one frame: `decision_frame` at the decision
    /// rate, `audio_chunk` the audio it stands for.
    pub fn step_one_frame_core(
        &self,
        state: &mut StreamingState<N>,
        vad: &mut SileroVad<N>,
        pool: &mut EmbeddingPool<N>,
        audio_chunk: &[N],
        decision_frame: &[N],
        cohort: &Vec<Vec<N>>,
        config: &StreamingConfig<N>,
    ) -> (r: Result<StreamingOutput<N>, PipelineError>)
        requires
            self.ready(),
            total::<N>(),
            old(state).sound(config.pipeline),
            old(state).room(1),
            old(state).audio_samples_emitted + audio_chunk@.len() <= usize::MAX,
            old(vad).wf(),
            old(pool).wf(),
            old(pool)@.uniform(EMBEDDING_DIM as nat),
            uniform(cohort@, EMBEDDING_DIM as nat),
        ensures
            r matches Err(e) ==> from_engine(e),
            final(state).sound(config.pipeline),
            final(vad).wf(),
            final(pool).wf(),
            final(pool)@.uniform(EMBEDDING_DIM as nat),
            is_spared(config.pipeline.enable_auto_learn, old(pool)@, final(pool)@),
            match r {
                Ok(delta) => {
                    &&& old(state).wf(config.pipeline) ==> final(state).wf(config.pipeline)
                    &&& recorded_more(no_output(), delta@, config.diagnostics)
                    &&& !config.pipeline.enable_auto_learn ==> delta@.events.len() == 0
                    &&& forall|n: nat|
                        old(state).room(n + 1) ==> #[trigger] final(state).room(n)
                    &&& final(state).audio_samples_emitted == old(state).audio_samples_emitted
                        + audio_chunk@.len()
                    &&& final(state).frame_idx == old(state).frame_idx + 1
                    &&& decided_at(
                        Seq::empty(),
                        old(state).audio_samples_emitted,
                        delta@.gate_decisions,
                    )
                    &&& final(state).chain@.adaptive() == old(state).chain@.adaptive()
                    &&& old(state).wf(config.pipeline) && !old(state).chain@.adaptive()
                        ==> delta@.audio.len() + final(state).chain@.held_back() == old(
                        state).chain@.held_back() + audio_chunk@.len()
                    &&& self.is_stepped(
                        Moment { state: *old(state), vad: old(vad)@, pool: old(pool)@ },
                        audio_chunk@,
                        decision_frame@,
                        cohort@,
                        *config,
                        Moment { state: *final(state), vad: final(vad)@, pool: final(pool)@ },
                        delta@,
                    )
                },
                Err(e) => self.is_broken(
                    Moment { state: *old(state), vad: old(vad)@, pool: old(pool)@ },
                    audio_chunk@,
                    decision_frame@,
                    cohort@,
                    *config,
                    Moment { state: *final(state), vad: final(vad)@, pool: final(pool)@ },
                    e,
                ),
            },
    {
        let ghost m0 = Moment { state: *state, vad: vad@, pool: pool@ };
        let mut out: StreamingOutput<N> = StreamingOutput::new();
        let enrolled: EnrollmentMetadata<N> = pool.metadata();
        let f: FrameStart<N> = match self.begin_frame(
            state,
            vad,
            decision_frame,
            enrolled,
            &config.pipeline,
        ) {
            Err(e) => {
                assert(is_scored(
                    m0.vad,
                    decision_frame@,
                    self.vad,
                    vad@,
                    Err::<N, EmbeddingError>(e->Embedding_0),
                ));
                return Err(e);
            },
            Ok(f) => f,
        };
        let ghost begun = *state;
        let ghost vad1 = vad@;
        assert(self.is_begun(
            m0.state,
            decision_frame@,
            m0.pool.metadata,
            config.pipeline,
            begun,
            f,
        ));
        assert(self.is_opening(m0, decision_frame@, *config, vad1, begun, f));
        let FrameStart { now_speech, fm_fast, turn, window } = f;
        let served: Result<(), PipelineError> = match window {
            Some(w) => self.refresh(state, pool, w, turn.shrunk, cohort, config, &mut out),
            None => Ok(()),
        };
        let ghost served_state = *state;
        let ghost served_pool = pool@;
        let ghost served_out = out@;
        assert(self.is_served(
            f.window,
            begun,
            m0.pool,
            no_output(),
            f.turn.shrunk,
            cohort@,
            *config,
            served_state,
            served_pool,
            served_out,
            served,
        ));
        if let Err(e) = served {
            assert(self.is_late_failure(
                begun,
                f,
                m0.pool,
                audio_chunk@,
                decision_frame@,
                cohort@,
                *config,
                *state,
                pool@,
                e,
            ));
            return Err(e);
        }
        let polled: Result<(), PipelineError> = self.poll(state, pool, cohort, config, &mut out);
        let ghost asked = *state;
        let ghost asked_out = out@;
        assert(self.is_polled(
            served_state,
            served_pool,
            served_out,
            cohort@,
            *config,
            asked,
            pool@,
            asked_out,
            polled,
        ));
        if let Err(e) = polled {
            assert(self.is_late_failure(
                begun,
                f,
                m0.pool,
                audio_chunk@,
                decision_frame@,
                cohort@,
                *config,
                *state,
                pool@,
                e,
            ));
            return Err(e);
        }
        let finished: Result<(), PipelineError> = self.finish_frame(
            state,
            audio_chunk,
            decision_frame,
            fm_fast,
            config,
            &mut out,
        );
        if let Err(e) = finished {
            assert(self.is_late_failure(
                begun,
                f,
                m0.pool,
                audio_chunk@,
                decision_frame@,
                cohort@,
                *config,
                *state,
                pool@,
                e,
            ));
            return Err(e);
        }
        proof {
            assert(self.is_finished(
                asked,
                audio_chunk@,
                decision_frame@,
                f.fm_fast,
                asked_out,
                *config,
                *state,
                out@,
            ));
            let m1 = Moment { state: *state, vad: vad@, pool: pool@ };
            assert(self.is_opening(m0, decision_frame@, *config, m1.vad, begun, f));
            assert(served is Ok && polled is Ok);
            assert(self.is_served(
                f.window,
                begun,
                m0.pool,
                no_output(),
                f.turn.shrunk,
                cohort@,
                *config,
                served_state,
                served_pool,
                served_out,
                served,
            ));
            assert(self.is_polled(
                served_state,
                served_pool,
                served_out,
                cohort@,
                *config,
                asked,
                m1.pool,
                asked_out,
                polled,
            ));
            assert(self.is_stepped(
                m0,
                audio_chunk@,
                decision_frame@,
                cohort@,
                *config,
                m1,
                out@,
            ));
            assert forall|n: nat| old(state).room(n + 1) implies #[trigger] state.room(n) by {}
        }
        Ok(out)
    }
}

/// Each record is longer by an entry, if records are kept.
pub open spec fn recorded_more<N>(before: OutputView<N>, after: OutputView<N>, keep: bool) -> bool {
    let n: nat = if keep {
        1
    } else {
        0
    };
    &&& after.gate_per_frame.len() == before.gate_per_frame.len() + n
    &&& after.score_per_frame.len() == before.score_per_frame.len() + n
    &&& after.cos_sim_max_per_frame.len() == before.cos_sim_max_per_frame.len() + n
    &&& after.f0_match_per_frame.len() == before.f0_match_per_frame.len() + n
}

/// At most one decision was added, at that sample.
pub open spec fn decided_at(
    before: Seq<(usize, bool)>,
    at: usize,
    after: Seq<(usize, bool)>,
) -> bool {
    after == before || (after.len() == before.len() + 1 && after.drop_last() == before
        && after.last().0 == at)
}

/// The engine at a moment between frames.
pub struct Moment<N> {
    pub state: StreamingState<N>,
    pub vad: VadView<N>,
    pub pool: PoolView<N>,
}

/// The score that the speaker gate is asked about: nudged by the pitch of the frame if
/// that is switched on.
pub open spec fn gate_input<N: Scalar>(
    last_score: N,
    fm_fast: Option<N>,
    cfg: PipelineConfig<N>,
) -> N {
    if cfg.fast_cue_enabled {
        fused(
            last_score,
            match fm_fast {
                Some(x) => x,
                None => cfg.fast_cue_f0_neutral,
            },
            cfg.fast_cue_weight,
            cfg.fast_cue_f0_neutral,
        )
    } else {
        last_score
    }
}

/// The speaker gate is held closed whatever the score: silence has lasted long enough,
/// or a turn away from the target is suspect.
pub open spec fn held_closed<N: Scalar>(
    silence_ms: N,
    t: TurnDetector<N>,
    cfg: PipelineConfig<N>,
) -> bool {
    ||| gt(cfg.silence_force_off_ms, num(0)) && ge(silence_ms, cfg.silence_force_off_ms)
    ||| t.offset_failclosed_active
}

/// A record with another entry, if records are kept.
pub open spec fn noted<A>(record: Seq<A>, x: A, keep: bool) -> Seq<A> {
    if keep {
        record.push(x)
    } else {
        record
    }
}

/// The envelope moved toward open or closed and left those gains.
pub open spec fn is_opened<N: Scalar>(
    before: EnvelopeView<N>,
    on: bool,
    n: nat,
    gain: Seq<N>,
    after: EnvelopeView<N>,
) -> bool {
    &&& gain.len() == n
    &&& after.attack == before.attack
    &&& after.release == before.release
    &&& lawful::<N>() ==> {
        &&& forall|i: int|
            0 <= i < n ==> #[trigger] gain[i] == glide(
                before.value,
                before.share(on),
                goal(on),
                (i + 1) as nat,
            )
        &&& after.value == glide(before.value, before.share(on), goal(on), n)
    }
}

/// Each sample times its gain.
pub open spec fn scaled_by<N: Scalar>(chunk: Seq<N>, gain: Seq<N>) -> Seq<N> {
    Seq::new(chunk.len(), |i: int| chunk[i].mul_spec(gain[i]))
}

/// While silence has lasted for the configured time the speaker gate is closed,
/// whatever the score.
pub proof fn lemma_silence_closes_the_gate<N: Scalar>(
    silence_ms: N,
    t: TurnDetector<N>,
    cfg: PipelineConfig<N>,
)
    requires
        gt(cfg.silence_force_off_ms, num(0)),
        ge(silence_ms, cfg.silence_force_off_ms),
    ensures
        held_closed(silence_ms, t, cfg),
{
}

/// With the optional features off, the speaker gate sees the bare score and nothing
/// holds it closed.
pub proof fn lemma_plain_gate<N: Scalar>(
    last_score: N,
    fm_fast: Option<N>,
    silence_ms: N,
    t: TurnDetector<N>,
    cfg: PipelineConfig<N>,
)
    requires
        !cfg.fast_cue_enabled,
        !gt(cfg.silence_force_off_ms, num(0)),
        !t.offset_failclosed_active,
    ensures
        gate_input(last_score, fm_fast, cfg) == last_score,
        !held_closed(silence_ms, t, cfg),
{
}

/// Nothing that counts frames or samples differs.
pub open spec fn keeps_counts<N: Scalar>(before: StreamingState<N>, after: StreamingState<N>) -> bool {
    &&& after.speech == before.speech
    &&& after.turn.turn_stable_counter == before.turn.turn_stable_counter
    &&& after.frame_idx == before.frame_idx
    &&& after.audio_samples_emitted == before.audio_samples_emitted
    &&& after.chain@.held_back() == before.chain@.held_back()
    &&& after.chain@.adaptive() == before.chain@.adaptive()
}

/// Errors of the engine: a model, the worker or a stage failed, or nobody is
/// enrolled.
pub open spec fn from_engine(e: PipelineError) -> bool {
    e is Embedding || e is TseStage || e is TseMissingEnrollment
}

/// The candidate was learned.
pub open spec fn is_admission<N>(event: Option<AutoLearnEvent<N>>) -> bool {
    event matches Some(e) && e.kind == AutoLearnKind::Admit
}

/// The turn detector once a refresh was issued: it is told while a turn is
/// suspect.
pub open spec fn told<N>(t: TurnDetector<N>, shrunk: bool) -> TurnDetector<N> {
    if shrunk && t.state == TurnState::Shrunk {
        TurnDetector { shrunk_refresh_done: true, offset_failclosed_active: false, ..t }
    } else {
        t
    }
}

/// The states differ in nothing that can be told apart.
pub open spec fn same_but_channel<N>(before: StreamingState<N>, after: StreamingState<N>) -> bool {
    &&& after == (StreamingState { channel: after.channel, ..before })
    &&& before.channel is Some && after.channel is Some
    &&& after.channel->0@ == before.channel->0@
}

/// What [`tse_cond_embedding`] returns.
pub open spec fn is_cond<N: Scalar>(pool: PoolView<N>, r: Result<Vec<N>, PipelineError>) -> bool {
    if pool.anchors.len() == 0 {
        r == Err::<Vec<N>, PipelineError>(PipelineError::TseMissingEnrollment)
    } else if pool.anchors[0]@.len() != TSE_COND_DIM {
        r == Err::<Vec<N>, PipelineError>(
            PipelineError::TseStage(
                TseStageError::InvalidCondLength {
                    got: pool.anchors[0]@.len() as usize,
                    expected: TSE_COND_DIM,
                },
            ),
        )
    } else {
        &&& r matches Ok(c)
        &&& c@.len() == TSE_COND_DIM
        &&& lawful::<N>() ==> c@ == centroid(pool.anchors)
    }
}

/// The embedding that extraction is conditioned on: the centroid of the
/// enrolled anchors. An empty pool is refused, and so are anchors of another
/// dimension.
pub fn tse_cond_embedding<N: Scalar>(pool: &EmbeddingPool<N>) -> (r: Result<
    Vec<N>,
    PipelineError,
>)
    requires
        pool.wf(),
    ensures
        is_cond(pool@, r),
{
    match pool.anchor_centroid() {
        None => Err(PipelineError::TseMissingEnrollment),
        Some(c) => {
            if c.len() != TSE_COND_DIM {
                return Err(
                    PipelineError::TseStage(
                        TseStageError::InvalidCondLength { got: c.len(), expected: TSE_COND_DIM },
                    ),
                );
            }
            Ok(copied(c))
        },
    }
}

/// Extraction was conditioned anew on the pool.
pub open spec fn is_reconditioned<N: Scalar>(
    before: ChainView<N>,
    pool: PoolView<N>,
    after: ChainView<N>,
    r: Result<(), PipelineError>,
) -> bool {
    exists|cond: Result<Vec<N>, PipelineError>|
        {
            &&& #[trigger] is_cond(pool, cond)
            &&& match cond {
                Err(e) => r == Err::<(), PipelineError>(e) && after == before,
                Ok(c) => r is Ok && after == (ChainView {
                    tse: Some(StageView { cond: c@, ..before.tse->0 }),
                    ..before
                }),
            }
        }
}

} // verus!
