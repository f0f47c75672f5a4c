//! The gating pipeline: its configuration, its errors, and what a refreshed
//! speaker embedding does to the score and the enrolled pool.
use crate::embedding::EmbeddingError;
use crate::enrollment::{
    is_learnable, is_match, keep_newest, uniform, EmbeddingPool, EnrollmentMetadata, PoolView,
};
use crate::gating::{
    admits, as_norm_score, f0_match, finite, is_as_norm, is_f0_fit, is_finite,
    should_admit_auto_learn, ApplyEnvelopeError, GateConfig,
};
use crate::resample::ResampleError;
use crate::scalar::{
    count, count_fits, frac, frac_fits, fraction, from_count, ge, gt, lawful, lt, num, total,
    Scalar,
};
use crate::text::{append_decimal, dec};
use crate::tse_stage::{TseStageConfig, TseStageError};
use crate::vad::CHUNK_SAMPLES_16K;
use vstd::prelude::*;
use vstd::std_specs::cmp::PartialEqSpec;
use vstd::std_specs::ops::{AddSpec, DivSpec, MulSpec, SubSpec};
use vstd::string::*;

verus! {

/// Cadence and switches of the decision side.
#[derive(Clone, Debug)]
pub struct PipelineConfig<N> {
    /// Sample rate of the decision side.
    pub sample_rate: u32,
    /// Window of speech from which an embedding is computed.
    pub sv_window_samples: usize,
    /// Samples between embedding refreshes.
    pub sv_update_samples: usize,
    /// Speech probability above which a frame counts as speech.
    pub vad_threshold: N,
    /// Whether embeddings may be learned at all.
    pub enable_auto_learn: bool,
    /// New speech after a pause that triggers an early refresh.
    pub sv_min_new_samples_after_silence: usize,
    /// Audio kept from before speech was noticed, in milliseconds.
    pub pre_roll_ms: u32,
    /// Whether refreshes run on a worker.
    pub async_refresh: bool,
    /// Silence after which the speaker gate closes whatever the score; zero for never.
    pub silence_force_off_ms: N,
    /// Smoothing factor of the score.
    pub score_ema_alpha: N,
    /// Whether the pitch of each frame nudges the score.
    pub fast_cue_enabled: bool,
    /// Weight of that nudge.
    pub fast_cue_weight: N,
    /// Pitch match that leaves the score unchanged.
    pub fast_cue_f0_neutral: N,
    /// Whether speaker turns are detected from the pitch of each frame.
    pub turn_detect_enabled: bool,
    /// Drop of the pitch match that makes a turn suspect.
    pub turn_drop_delta: N,
    /// Frames the pitch match must be stable before the window grows back.
    pub turn_stable_frames: u32,
    /// Window while a turn is suspect.
    pub sv_turn_window_samples: usize,
    /// Samples between refreshes while a turn is suspect.
    pub sv_turn_update_samples: usize,
    /// Whether a suspected change away from the target closes the speaker gate.
    pub offset_fail_closed: bool,
    /// Target-speaker extraction, if any.
    pub tse: Option<TseStageConfig>,
}

impl<N: Scalar> PipelineConfig<N> {
    /// The configuration that nothing was changed in.
    pub open spec fn is_default(self) -> bool {
        &&& self.sample_rate == 16_000
        &&& self.sv_window_samples == 16_000
        &&& self.sv_update_samples == 8_000
        &&& self.enable_auto_learn
        &&& self.sv_min_new_samples_after_silence == 4_000
        &&& self.pre_roll_ms == 100
        &&& !self.async_refresh
        &&& !self.fast_cue_enabled
        &&& !self.turn_detect_enabled
        &&& self.turn_stable_frames == 10
        &&& self.sv_turn_window_samples == 8_000
        &&& self.sv_turn_update_samples == 2_000
        &&& !self.offset_fail_closed
        &&& self.tse is None
        &&& lawful::<N>() ==> {
            &&& self.vad_threshold == frac::<N>(1, 2)
            &&& self.silence_force_off_ms == num::<N>(0)
            &&& self.score_ema_alpha == frac::<N>(4, 5)
            &&& self.fast_cue_weight == frac::<N>(3, 20)
            &&& self.fast_cue_f0_neutral == frac::<N>(1, 2)
            &&& self.turn_drop_delta == frac::<N>(1, 4)
        }
    }

    /// One-second windows refreshed every half second at 16 kHz; the optional
    /// features are off.
    pub fn default() -> (r: Self)
        requires
            total::<N>() || lawful::<N>() && frac_fits::<N>(1, 2) && frac_fits::<N>(4, 5)
                && frac_fits::<N>(3, 20) && frac_fits::<N>(1, 4),
        ensures
            r.is_default(),
    {
        PipelineConfig {
            sample_rate: 16_000,
            sv_window_samples: 16_000,
            sv_update_samples: 8_000,
            vad_threshold: fraction(1, 2),
            enable_auto_learn: true,
            sv_min_new_samples_after_silence: 4_000,
            pre_roll_ms: 100,
            async_refresh: false,
            silence_force_off_ms: N::from(0u16),
            score_ema_alpha: fraction(4, 5),
            fast_cue_enabled: false,
            fast_cue_weight: fraction(3, 20),
            fast_cue_f0_neutral: fraction(1, 2),
            turn_detect_enabled: false,
            turn_drop_delta: fraction(1, 4),
            turn_stable_frames: 10,
            sv_turn_window_samples: 8_000,
            sv_turn_update_samples: 2_000,
            offset_fail_closed: false,
            tse: None,
        }
    }

    /// The duration of a decision frame in milliseconds.
    pub open spec fn frame_ms(&self) -> N {
        num::<N>(1000).mul_spec(count(CHUNK_SAMPLES_16K as nat)).div_spec(
            count(self.sample_rate as nat),
        )
    }

    /// The duration of a decision frame in milliseconds.
    pub fn vad_frame_ms(&self) -> (r: N)
        requires
            total::<N>() || lawful::<N>() && {
                &&& count_fits::<N>(CHUNK_SAMPLES_16K as nat)
                &&& count_fits::<N>(self.sample_rate as nat)
                &&& num::<N>(1000).mul_req(count(CHUNK_SAMPLES_16K as nat))
                &&& num::<N>(1000).mul_spec(count(CHUNK_SAMPLES_16K as nat)).div_req(
                    count(self.sample_rate as nat),
                )
            },
        ensures
            lawful::<N>() ==> r == self.frame_ms(),
    {
        N::from(1000u16) * from_count::<N>(CHUNK_SAMPLES_16K as u64) / from_count::<N>(
            self.sample_rate as u64,
        )
    }

    /// The same without extraction and without a worker.
    pub open spec fn bare(self) -> Self {
        PipelineConfig { async_refresh: false, tse: None, ..self }
    }

    /// The same without extraction and without a worker.
    pub fn without_stages(&self) -> (r: Self)
        ensures
            r == self.bare(),
    {
        PipelineConfig {
            sample_rate: self.sample_rate,
            sv_window_samples: self.sv_window_samples,
            sv_update_samples: self.sv_update_samples,
            vad_threshold: self.vad_threshold,
            enable_auto_learn: self.enable_auto_learn,
            sv_min_new_samples_after_silence: self.sv_min_new_samples_after_silence,
            pre_roll_ms: self.pre_roll_ms,
            async_refresh: false,
            silence_force_off_ms: self.silence_force_off_ms,
            score_ema_alpha: self.score_ema_alpha,
            fast_cue_enabled: self.fast_cue_enabled,
            fast_cue_weight: self.fast_cue_weight,
            fast_cue_f0_neutral: self.fast_cue_f0_neutral,
            turn_detect_enabled: self.turn_detect_enabled,
            turn_drop_delta: self.turn_drop_delta,
            turn_stable_frames: self.turn_stable_frames,
            sv_turn_window_samples: self.sv_turn_window_samples,
            sv_turn_update_samples: self.sv_turn_update_samples,
            offset_fail_closed: self.offset_fail_closed,
            tse: None,
        }
    }

    /// The pre-roll in decision-rate samples.
    pub fn pre_roll_samples_decision(&self) -> (r: usize)
        requires
            pre_roll_samples(self.pre_roll_ms, self.sample_rate) <= usize::MAX,
        ensures
            r == pre_roll_samples(self.pre_roll_ms, self.sample_rate),
    {
        pre_roll_at(self.pre_roll_ms, self.sample_rate)
    }
}

/// A duration in milliseconds as whole samples at a rate.
pub open spec fn pre_roll_samples(ms: u32, sample_rate: u32) -> nat {
    (ms as nat * sample_rate as nat) / 1000
}

/// A duration in milliseconds as whole samples at a rate.
pub fn pre_roll_at(ms: u32, sample_rate: u32) -> (r: usize)
    requires
        pre_roll_samples(ms, sample_rate) <= usize::MAX,
    ensures
        r == pre_roll_samples(ms, sample_rate),
{
    assert(ms as u64 * sample_rate as u64 <= u64::MAX) by (nonlinear_arith)
        requires
            ms <= u32::MAX,
            sample_rate <= u32::MAX,
    ;
    (ms as u64 * sample_rate as u64 / 1000) as usize
}

/// What became of a candidate for auto-learn.
#[derive(Clone, Copy, Debug, PartialEq, Eq, Structural)]
pub enum AutoLearnKind {
    /// It was learned.
    Admit,
    /// It passed the rules but lies too far from the anchors.
    RejectAnchorDistance,
    /// It became the first anchor of an empty pool.
    BootstrapSeed,
}

/// A candidate for auto-learn and what became of it.
#[derive(Clone, Copy, Debug)]
pub struct AutoLearnEvent<N> {
    pub frame_idx: usize,
    pub kind: AutoLearnKind,
    pub score: N,
    pub f0_match: N,
}

/// The scores carried from frame to frame.
#[derive(Clone, Copy, Debug)]
pub struct ScoreState<N> {
    /// Smoothed score fed to the speaker gate.
    pub last_score: N,
    /// Raw similarity of the last refresh.
    pub last_cs: N,
    /// Pitch match of the last refresh.
    pub last_fm: N,
}

impl<N: Scalar> ScoreState<N> {
    /// No score, no similarity, a neutral pitch match.
    pub fn new() -> (r: Self)
        ensures
            lawful::<N>() ==> r == initial_score::<N>(),
    {
        ScoreState { last_score: N::from(0u16), last_cs: N::from(0u16), last_fm: N::from(1u16) }
    }
}

/// The scores before any refresh.
pub open spec fn initial_score<N: Scalar>() -> ScoreState<N> {
    ScoreState { last_score: num(0), last_cs: num(0), last_fm: num(1) }
}

/// The score after a refresh: a blend of new and old, except that the first
/// score, and any factor outside `[0, 1)`, replaces.
pub open spec fn smoothed<N: Scalar>(last_score: N, new_score: N, alpha: N) -> N {
    if !ge(alpha, num(0)) || !lt(alpha, num(1)) || last_score.eq_spec(&num(0)) {
        new_score
    } else {
        alpha.mul_spec(new_score).add_spec(
            num::<N>(1).sub_spec(alpha).mul_spec(last_score),
        )
    }
}

/// No operation of [`smoothed`] leaves the range of `N`.
pub open spec fn smooth_fits<N: Scalar>(last_score: N, new_score: N, alpha: N) -> bool {
    !ge(alpha, num(0)) || !lt(alpha, num(1)) || last_score.eq_spec(&num(0)) || {
        &&& alpha.mul_req(new_score)
        &&& num::<N>(1).sub_req(alpha)
        &&& num::<N>(1).sub_spec(alpha).mul_req(last_score)
        &&& alpha.mul_spec(new_score).add_req(
            num::<N>(1).sub_spec(alpha).mul_spec(last_score),
        )
    }
}

/// Computes [`smoothed`].
pub fn smooth_score<N: Scalar>(last_score: N, new_score: N, alpha: N) -> (r: N)
    requires
        total::<N>() || lawful::<N>() && smooth_fits(last_score, new_score, alpha),
    ensures
        lawful::<N>() ==> r == smoothed(last_score, new_score, alpha),
{
    let zero: N = N::from(0u16);
    let one: N = N::from(1u16);
    if !(alpha >= zero) || !(alpha < one) || last_score == zero {
        return new_score;
    }
    alpha * new_score + (one - alpha) * last_score
}

/// What can go wrong in the pipeline.
#[derive(Debug)]
pub enum PipelineError {
    Embedding(EmbeddingError),
    Envelope(ApplyEnvelopeError),
    Resample(ResampleError),
    TseStage(TseStageError),
    /// The audio is not at the rate the extraction model expects.
    TseRateMismatch { audio_sr: u32, expected_sr: u32 },
    /// Extraction needs an enrolled speaker.
    TseMissingEnrollment,
    /// Extraction together with refreshes on a worker.
    TseAsyncUnsupported,
}

impl PipelineError {
    /// The words of the error.
    pub open spec fn words(self) -> Seq<char> {
        match self {
            PipelineError::Embedding(e) => "embedding error: "@ + e.words(),
            PipelineError::Envelope(e) => "envelope error: "@
                + "decisions must start with sample 0"@,
            PipelineError::Resample(e) => "resample error: "@ + e.words(),
            PipelineError::TseStage(e) => "TSE stage error: "@ + e.words(),
            PipelineError::TseRateMismatch { audio_sr, expected_sr } => "Stage C TSE audio_sr="@
                + dec(audio_sr as nat) + " Hz != model's expected SR "@ + dec(expected_sr as nat)
                + " Hz ("@ + dec((expected_sr / 1000) as nat) + " kHz). Use the right `TseStageConfig` variant (e.g. `TseStageConfig::new_prod_48k` for the 48 kHz model) or resample audio to match."@,
            PipelineError::TseMissingEnrollment =>
                "Stage C TSE was enabled but the embedding pool has no anchors — enroll a target speaker first"@,
            PipelineError::TseAsyncUnsupported =>
                "Stage C TSE with async_refresh = true is not yet wired up — use the sync offline path"@,
        }
    }

    /// The error in words.
    pub fn message(&self) -> (r: String)
        ensures
            r@ == self.words(),
    {
        match self {
            PipelineError::Embedding(e) => {
                let m: String = e.message();
                "embedding error: ".to_owned().concat(m.as_str())
            },
            PipelineError::Envelope(e) => {
                let m: String = e.message();
                "envelope error: ".to_owned().concat(m.as_str())
            },
            PipelineError::Resample(e) => {
                let m: String = e.message();
                "resample error: ".to_owned().concat(m.as_str())
            },
            PipelineError::TseStage(e) => {
                let m: String = e.message();
                "TSE stage error: ".to_owned().concat(m.as_str())
            },
            PipelineError::TseRateMismatch { audio_sr, expected_sr } => {
                let mut s: String = "Stage C TSE audio_sr=".to_owned();
                append_decimal(&mut s, *audio_sr as u64);
                s.append(" Hz != model's expected SR ");
                append_decimal(&mut s, *expected_sr as u64);
                s.append(" Hz (");
                append_decimal(&mut s, (*expected_sr / 1000) as u64);
                s.append(
                    " kHz). Use the right `TseStageConfig` variant (e.g. `TseStageConfig::new_prod_48k` for the 48 kHz model) or resample audio to match.",
                );
                s
            },
            PipelineError::TseMissingEnrollment =>
                "Stage C TSE was enabled but the embedding pool has no anchors — enroll a target speaker first".to_owned(),
            PipelineError::TseAsyncUnsupported =>
                "Stage C TSE with async_refresh = true is not yet wired up — use the sync offline path".to_owned(),
        }
    }
}

/// How many impostors the score is normalised against.
pub const AS_NORM_TOP_K: usize = 20;

/// Spread assumed for the pitch of a voice that was heard once.
pub const BOOTSTRAP_F0_SIGMA_FALLBACK: u16 = 40;

/// `s` is the score of a refresh: the similarity, normalised where a cohort is
/// in use.
pub open spec fn is_refresh_score<N: Scalar, F: Fn(N) -> N>(
    emb: Seq<N>,
    cs: N,
    cohort: Seq<Vec<N>>,
    use_as_norm: bool,
    eps: N,
    sqrt: F,
    s: N,
) -> bool {
    if use_as_norm && cohort.len() > 0 {
        is_as_norm(emb, cs, cohort, AS_NORM_TOP_K as nat, eps, sqrt, s)
    } else {
        s == cs
    }
}

/// What a refresh does to the pool and which event it leaves, given the fresh
/// scores: nothing when learning is off; the first anchor, when an empty pool
/// may be seeded and the speaker was heard long enough with a pitch; otherwise
/// the usual admission.
pub open spec fn is_learned<N: Scalar, F: Fn(N) -> N>(
    before: PoolView<N>,
    emb: Vec<N>,
    f0_mu: N,
    frame_idx: usize,
    speech_ms: N,
    gate: GateConfig<N>,
    enable: bool,
    may_seed: bool,
    score: ScoreState<N>,
    sqrt: F,
    after: PoolView<N>,
    event: Option<AutoLearnEvent<N>>,
) -> bool {
    let empty = before.anchors.len() == 0 && before.auto_learn.len() == 0;
    if !enable {
        after == before && event is None
    } else if may_seed && empty && before.config.allow_bootstrap_from_runtime {
        if ge(speech_ms, gate.min_continuous_speech_sec.mul_spec(num(1000))) && finite(f0_mu)
            && gt(f0_mu, num(0)) {
            &&& after == (PoolView {
                anchors: seq![emb],
                metadata: EnrollmentMetadata {
                    f0_mu,
                    f0_sigma: num::<N>(BOOTSTRAP_F0_SIGMA_FALLBACK),
                },
                ..before
            })
            &&& event == Some(
                AutoLearnEvent {
                    frame_idx,
                    kind: AutoLearnKind::BootstrapSeed,
                    score: score.last_score,
                    f0_match: score.last_fm,
                },
            )
        } else {
            after == before && event is None
        }
    } else if admits(score.last_score, score.last_fm, speech_ms, gate) {
        exists|near: bool|
            {
                &&& #[trigger] is_learnable(emb@, before, sqrt, near)
                &&& after == if near {
                    keep_newest(before, emb)
                } else {
                    before
                }
                &&& event == Some(
                    AutoLearnEvent {
                        frame_idx,
                        kind: if near {
                            AutoLearnKind::Admit
                        } else {
                            AutoLearnKind::RejectAnchorDistance
                        },
                        score: score.last_score,
                        f0_match: score.last_fm,
                    },
                )
            }
    } else {
        after == before && event is None
    }
}

/// What a refresh can do to the pool, however the scores fall: nothing, learn
/// the embedding beside the anchors, or seed an empty pool with it.
pub open spec fn is_pool_step<N: Scalar>(
    before: PoolView<N>,
    emb: Vec<N>,
    may_seed: bool,
    after: PoolView<N>,
) -> bool {
    ||| after == before
    ||| before.anchors.len() > 0 && after == keep_newest(before, emb)
    ||| {
        &&& may_seed
        &&& before.config.allow_bootstrap_from_runtime
        &&& before.anchors.len() == 0
        &&& before.auto_learn.len() == 0
        &&& after == (PoolView { anchors: seq![emb], metadata: after.metadata, ..before })
    }
}

/// The enrolled voice, anchors and pitch, is as it was. A pool without one may
/// have been given one.
pub open spec fn keeps_voice<N>(before: PoolView<N>, after: PoolView<N>) -> bool {
    before.anchors.len() > 0 ==> after.anchors == before.anchors && after.metadata
        == before.metadata
}

/// The enrolled voice is as it was, and without learning so is the whole pool.
pub open spec fn is_spared<N>(learns: bool, before: PoolView<N>, after: PoolView<N>) -> bool {
    &&& keeps_voice(before, after)
    &&& !learns ==> after == before
}

/// What [`apply_refresh_result`] does: the scores of the fresh embedding, blended
/// into the carried score, and then the admission to the pool.
pub open spec fn is_refreshed<N: Scalar, F: Fn(N) -> N, G: Fn(N) -> N>(
    before: PoolView<N>,
    score_before: ScoreState<N>,
    emb: Vec<N>,
    f0_mu: N,
    frame_idx: usize,
    speech_ms: N,
    cohort: Seq<Vec<N>>,
    gate: GateConfig<N>,
    enable: bool,
    may_seed: bool,
    alpha: N,
    eps: N,
    sqrt: F,
    exp: G,
    after: PoolView<N>,
    score_after: ScoreState<N>,
    event: Option<AutoLearnEvent<N>>,
) -> bool {
    exists|fresh: N|
        {
            &&& is_match(emb@, before, sqrt, score_after.last_cs)
            &&& is_f0_fit(
                f0_mu,
                before.metadata.f0_mu,
                before.metadata.f0_sigma,
                exp,
                score_after.last_fm,
            )
            &&& #[trigger] is_refresh_score(
                emb@,
                score_after.last_cs,
                cohort,
                gate.use_as_norm,
                eps,
                sqrt,
                fresh,
            )
            &&& score_after.last_score == smoothed(score_before.last_score, fresh, alpha)
            &&& is_learned(
                before,
                emb,
                f0_mu,
                frame_idx,
                speech_ms,
                gate,
                enable,
                may_seed,
                score_after,
                sqrt,
                after,
                event,
            )
        }
}

/// Folds one refreshed embedding into the score and the pool, and returns the
/// event it leaves. `may_seed` says whether an empty pool may be seeded on this
/// path.
pub fn apply_refresh<N: Scalar, F: Fn(N) -> N, G: Fn(N) -> N>(
    embedding: Vec<N>,
    f0_mu: N,
    trigger_frame: usize,
    consecutive_speech_ms: N,
    pool: &mut EmbeddingPool<N>,
    cohort: &Vec<Vec<N>>,
    gate_cfg: &GateConfig<N>,
    enable_auto_learn: bool,
    may_seed: bool,
    score_ema_alpha: N,
    eps: N,
    sqrt: &F,
    exp: &G,
    score: &mut ScoreState<N>,
) -> (event: Option<AutoLearnEvent<N>>)
    requires
        old(pool).wf(),
        old(pool)@.uniform(embedding@.len()),
        uniform(cohort@, embedding@.len()),
        total::<N>(),
        forall|x: N| call_requires(*sqrt, (x,)),
        forall|x: N| call_requires(*exp, (x,)),
    ensures
        final(pool).wf(),
        final(pool)@.uniform(embedding@.len()),
        final(pool)@.config == old(pool)@.config,
        !enable_auto_learn ==> event is None && final(pool)@ == old(pool)@,
        event matches Some(e) ==> e.frame_idx == trigger_frame,
        is_pool_step(old(pool)@, embedding, may_seed, final(pool)@),
        lawful::<N>() ==> is_refreshed(
            old(pool)@,
            *old(score),
            embedding,
            f0_mu,
            trigger_frame,
            consecutive_speech_ms,
            cohort@,
            *gate_cfg,
            enable_auto_learn,
            may_seed,
            score_ema_alpha,
            eps,
            *sqrt,
            *exp,
            final(pool)@,
            *final(score),
            event,
        ),
{
    let metadata: EnrollmentMetadata<N> = pool.metadata();
    let cs: N = pool.match_score(embedding.as_slice(), sqrt);
    let fm: N = f0_match(f0_mu, metadata.f0_mu, metadata.f0_sigma, exp);
    let fresh: N = if gate_cfg.use_as_norm && cohort.len() > 0 {
        as_norm_score(
            embedding.as_slice(),
            cs,
            cohort.as_slice(),
            AS_NORM_TOP_K,
            eps,
            sqrt,
        )
    } else {
        cs
    };
    let last_score: N = smooth_score(score.last_score, fresh, score_ema_alpha);
    *score = ScoreState { last_score, last_cs: cs, last_fm: fm };
    let ghost scored = is_refresh_score(
        embedding@,
        score.last_cs,
        cohort@,
        (*gate_cfg).use_as_norm,
        eps,
        *sqrt,
        fresh,
    );
    assert(lawful::<N>() ==> scored);
    if !enable_auto_learn {
        return None;
    }
    if may_seed && pool.is_empty() && pool.config().allow_bootstrap_from_runtime {
        let min_run_ms: N = gate_cfg.min_continuous_speech_sec * N::from(1000u16);
        let zero: N = N::from(0u16);
        if consecutive_speech_ms >= min_run_ms && is_finite(f0_mu) && f0_mu > zero {
            let _ = pool.bootstrap_seed(
                embedding,
                f0_mu,
                N::from(BOOTSTRAP_F0_SIGMA_FALLBACK),
            );
            return Some(
                AutoLearnEvent {
                    frame_idx: trigger_frame,
                    kind: AutoLearnKind::BootstrapSeed,
                    score: last_score,
                    f0_match: fm,
                },
            );
        }
        return None;
    }
    if should_admit_auto_learn(last_score, fm, consecutive_speech_ms, gate_cfg) {
        let ghost before = pool@;
        let ghost candidate = embedding;
        let admitted: bool = pool.add_auto_learn(embedding, sqrt);
        assert(lawful::<N>() ==> is_learnable(candidate@, before, *sqrt, admitted));
        let kind: AutoLearnKind = if admitted {
            AutoLearnKind::Admit
        } else {
            AutoLearnKind::RejectAnchorDistance
        };
        return Some(
            AutoLearnEvent { frame_idx: trigger_frame, kind, score: last_score, f0_match: fm },
        );
    }
    None
}

/// Folds a finished refresh into the score, the pool and the event log.
pub fn apply_refresh_result<N: Scalar, F: Fn(N) -> N, G: Fn(N) -> N>(
    embedding: Vec<N>,
    f0_mu: N,
    trigger_frame: usize,
    consecutive_speech_ms: N,
    pool: &mut EmbeddingPool<N>,
    cohort: &Vec<Vec<N>>,
    gate_cfg: &GateConfig<N>,
    enable_auto_learn: bool,
    score_ema_alpha: N,
    eps: N,
    sqrt: &F,
    exp: &G,
    score: &mut ScoreState<N>,
    auto_learn_events: &mut Vec<AutoLearnEvent<N>>,
)
    requires
        old(pool).wf(),
        old(pool)@.uniform(embedding@.len()),
        uniform(cohort@, embedding@.len()),
        total::<N>(),
        forall|x: N| call_requires(*sqrt, (x,)),
        forall|x: N| call_requires(*exp, (x,)),
    ensures
        final(pool).wf(),
        final(pool)@.uniform(embedding@.len()),
        final(pool)@.config == old(pool)@.config,
        exists|event: Option<AutoLearnEvent<N>>|
            {
                &&& final(auto_learn_events)@ == #[trigger] logged(old(auto_learn_events)@, event)
                &&& is_pool_step(old(pool)@, embedding, true, final(pool)@)
                &&& !enable_auto_learn ==> event is None && final(pool)@ == old(pool)@
                &&& lawful::<N>() ==> is_refreshed(
                    old(pool)@,
                    *old(score),
                    embedding,
                    f0_mu,
                    trigger_frame,
                    consecutive_speech_ms,
                    cohort@,
                    *gate_cfg,
                    enable_auto_learn,
                    true,
                    score_ema_alpha,
                    eps,
                    *sqrt,
                    *exp,
                    final(pool)@,
                    *final(score),
                    event,
                )
            },
{
    let event: Option<AutoLearnEvent<N>> = apply_refresh(
        embedding,
        f0_mu,
        trigger_frame,
        consecutive_speech_ms,
        pool,
        cohort,
        gate_cfg,
        enable_auto_learn,
        true,
        score_ema_alpha,
        eps,
        sqrt,
        exp,
        score,
    );
    log_event(auto_learn_events, event);
}

/// The log with an event appended, if there is one.
pub open spec fn logged<N>(
    log: Seq<AutoLearnEvent<N>>,
    event: Option<AutoLearnEvent<N>>,
) -> Seq<AutoLearnEvent<N>> {
    match event {
        Some(e) => log.push(e),
        None => log,
    }
}

/// Appends an event, if there is one.
pub fn log_event<N: Copy>(log: &mut Vec<AutoLearnEvent<N>>, event: Option<AutoLearnEvent<N>>)
    ensures
        final(log)@ == logged(old(log)@, event),
{
    match event {
        Some(e) => {
            log.push(e);
        },
        None => {},
    }
}

// ---------------------------------------------------------------------
// Enrollment
// ---------------------------------------------------------------------
/// Length of an enrollment window.
pub const ENROLL_CHUNK_SAMPLES: usize = 48_000;

/// Distance between enrollment windows.
pub const ENROLL_SHIFT_SAMPLES: usize = 24_000;

/// The shortest recording that can be enrolled.
pub const ENROLL_MIN_SAMPLES: usize = 16_000;

/// How many full windows a recording of `n` samples has.
pub open spec fn full_windows(n: nat) -> nat {
    if n < ENROLL_CHUNK_SAMPLES {
        0
    } else {
        (n - ENROLL_CHUNK_SAMPLES) as nat / ENROLL_SHIFT_SAMPLES as nat + 1
    }
}

/// Window `i` of a recording; a recording shorter than a window is its only
/// window.
pub open spec fn enroll_window<N>(audio: Seq<N>, i: nat) -> Seq<N> {
    if audio.len() < ENROLL_CHUNK_SAMPLES {
        audio
    } else {
        audio.subrange(
            (i * ENROLL_SHIFT_SAMPLES) as int,
            (i * ENROLL_SHIFT_SAMPLES + ENROLL_CHUNK_SAMPLES) as int,
        )
    }
}

/// The number of windows an enrollment uses.
pub open spec fn enroll_count(n: nat) -> nat {
    if full_windows(n) == 0 {
        1
    } else {
        full_windows(n)
    }
}

/// The embedding model was run on `window` with that outcome.
pub open spec fn embedded_as<N, M: Fn(&Vec<N>) -> Result<Vec<N>, EmbeddingError>>(
    window: Seq<N>,
    embed: M,
    r: Result<Vec<N>, EmbeddingError>,
) -> bool {
    exists|v: Vec<N>| v@ == window && #[trigger] call_ensures(embed, (&v,), r)
}

/// `anchors` are the embeddings of the first windows of `audio`, in order.
pub open spec fn are_embedded<N, M: Fn(&Vec<N>) -> Result<Vec<N>, EmbeddingError>>(
    audio: Seq<N>,
    embed: M,
    anchors: Seq<Vec<N>>,
) -> bool {
    forall|i: int|
        0 <= i < anchors.len() ==> embedded_as(
            enroll_window(audio, i as nat),
            embed,
            Ok(#[trigger] anchors[i]),
        )
}

/// Builds a pool from a clean recording: one anchor per window, and the pitch of
/// the whole. A recording that is too short is refused, and so is one on which
/// the model fails.
pub fn enroll_from_recording<
    N: Scalar,
    M: Fn(&Vec<N>) -> Result<Vec<N>, EmbeddingError>,
    P: Fn(&[N]) -> (N, N),
>(
    audio: &[N],
    embed: &M,
    pitch: &P,
    pool_cfg: crate::enrollment::EmbeddingPoolConfig<N>,
) -> (r: Result<EmbeddingPool<N>, EmbeddingError>)
    requires
        total::<N>(),
        forall|v: &Vec<N>| call_requires(*embed, (v,)),
        forall|a: &[N]| call_requires(*pitch, (a,)),
        forall|v: &Vec<N>, e: Vec<N>| #[trigger]
            call_ensures(*embed, (v,), Ok(e)) ==> e@.len() == crate::embedding::EMBEDDING_DIM,
    ensures
        audio@.len() < ENROLL_MIN_SAMPLES ==> (r matches Err(e) && e.is_incompatible()),
        audio@.len() >= ENROLL_MIN_SAMPLES ==> match r {
            Ok(pool) => {
                &&& pool.wf()
                &&& pool@.config == pool_cfg
                &&& pool@.auto_learn.len() == 0
                &&& pool@.anchors.len() == enroll_count(audio@.len())
                &&& are_embedded(audio@, *embed, pool@.anchors)
                &&& call_ensures(
                    *pitch,
                    (audio,),
                    (pool@.metadata.f0_mu, pool@.metadata.f0_sigma),
                )
            },
            Err(e) => exists|i: nat|
                i < enroll_count(audio@.len()) && embedded_as(
                    #[trigger] enroll_window(audio@, i),
                    *embed,
                    Err::<Vec<N>, EmbeddingError>(e),
                ),
        },
{
    if audio.len() < ENROLL_MIN_SAMPLES {
        return Err(crate::embedding::incompatible_shape());
    }
    let mut anchors: Vec<Vec<N>> = Vec::new();
    let mut start: usize = 0;
    let n: usize = audio.len();
    while n >= ENROLL_CHUNK_SAMPLES && start <= n - ENROLL_CHUNK_SAMPLES
        invariant
            n == audio@.len(),
            n >= ENROLL_MIN_SAMPLES,
            anchors@.len() * ENROLL_SHIFT_SAMPLES == start,
            n >= ENROLL_CHUNK_SAMPLES ==> start <= n - ENROLL_CHUNK_SAMPLES + ENROLL_SHIFT_SAMPLES,
            n < ENROLL_CHUNK_SAMPLES ==> anchors@.len() == 0,
            are_embedded(audio@, *embed, anchors@),
            uniform(anchors@, crate::embedding::EMBEDDING_DIM as nat),
            forall|v: &Vec<N>| call_requires(*embed, (v,)),
            forall|v: &Vec<N>, e: Vec<N>| #[trigger]
                call_ensures(*embed, (v,), Ok(e)) ==> e@.len() == crate::embedding::EMBEDDING_DIM,
        decreases n + ENROLL_SHIFT_SAMPLES - start,
    {
        let ghost i = anchors@.len();
        let mut window: Vec<N> = Vec::new();
        crate::tse_stage::append_samples(
            &mut window,
            audio,
            start,
            start + ENROLL_CHUNK_SAMPLES,
        );
        assert(window@ =~= enroll_window(audio@, i));
        let outcome: Result<Vec<N>, EmbeddingError> = embed(&window);
        assert(embedded_as(enroll_window(audio@, i), *embed, outcome));
        match outcome {
            Err(e) => {
                assert(i < enroll_count(audio@.len()));
                return Err(e);
            },
            Ok(anchor) => {
                anchors.push(anchor);
            },
        }
        start = start + ENROLL_SHIFT_SAMPLES;
    }
    if anchors.len() == 0 {
        let window: Vec<N> = crate::rings::copied(audio);
        assert(window@ =~= enroll_window(audio@, 0));
        let outcome: Result<Vec<N>, EmbeddingError> = embed(&window);
        assert(embedded_as(enroll_window(audio@, 0), *embed, outcome));
        match outcome {
            Err(e) => {
                return Err(e);
            },
            Ok(anchor) => {
                anchors.push(anchor);
            },
        }
    }
    let (f0_mu, f0_sigma): (N, N) = pitch(audio);
    let mut pool: EmbeddingPool<N> = EmbeddingPool::new(pool_cfg);
    assert(pool@.anchors + anchors@ =~= anchors@);
    pool.add_anchors(anchors);
    pool.set_f0_stats(f0_mu, f0_sigma);
    Ok(pool)
}

} // verus!
