//! Laws of processing a recording as a whole.
use crate::assembly::{is_started, stage_view, PipelineComponents};
use crate::chain::Memory;
use crate::config::StreamingConfig;
use crate::decisions::{apply_envelope_dual_rate, at_audio_rate, decisions_at_audio_rate};
use crate::embedding::EmbeddingError;
use crate::engine::{Intake, Station};
use crate::enrollment::EmbeddingPool;
use crate::gating::{in_order, GateConfig};
use crate::laws::decide::{alternates, lemma_settled_opens_ahead, on_at, opens_within};
use crate::laws::envelope::{is_shaped, lemma_enveloped_is_shaped};
use crate::laws::score::are_column_means;
use crate::laws::stream::{
    are_in_sequence, lemma_way_is_heard, steps_through,
};
use crate::laws::cut_out;
use crate::offline::{
    audio_for_decisions, ensure_tse_stage, is_extracted_whole, is_offline_config, run_tse_offline,
    DecisionAudio, ProcessResult,
};
use crate::overlap::OverlapReply;
use crate::pipeline::{PipelineConfig, PipelineError};
use crate::refresh::Received;
use crate::resample::{is_resampled, ResampleError};
use crate::scalar::{lawful, num, Scalar};
use crate::streaming::{Kit, Moment, OutputView, StreamingState};
use crate::tse::{Tensor, TseError, TseReply};
use crate::tse_stage::{is_fed, StageView, TseStage, TseStageConfig};
use crate::vad::VadReply;
use vstd::prelude::*;

verus! {

/// Audio that is at the rate of the decisions is taken as it is; other audio is resampled to
/// that rate, from its own.
pub proof fn lemma_decisions_hear_the_recording<
    N: Copy,
    X: Fn(&[N], u32, u32) -> Result<Vec<Vec<N>>, ResampleError>,
>(
    audio: &[N],
    audio_sr: u32,
    decision_sr: u32,
    run: &X,
    r: Result<DecisionAudio<N>, ResampleError>,
)
    requires
        call_ensures(audio_for_decisions::<N, X>, (audio, audio_sr, decision_sr, run), r),
    ensures
        audio_sr == decision_sr ==> (r matches Ok(heard) && heard.samples() == audio@),
        audio_sr != decision_sr ==> match r {
            Ok(heard) => exists|v: Vec<N>|
                {
                    &&& #[trigger] is_resampled(audio, audio_sr, decision_sr, *run, Ok(v))
                    &&& heard.samples() == v@
                },
            Err(e) => is_resampled(
                audio,
                audio_sr,
                decision_sr,
                *run,
                Err::<Vec<N>, ResampleError>(e),
            ),
        },
{
}

/// Extraction of a recording is as long as the recording. It starts from nothing carried and
/// nothing waiting, whatever was extracted before, and keeps what it was conditioned on; what
/// it gives for the recording comes first.
pub proof fn lemma_extraction_starts_afresh<
    N: Scalar,
    M: Fn(&[N], &[N], &Vec<Tensor<N>>) -> Result<TseReply<N>, TseError>,
>(stage: &mut TseStage<N>, audio: &[N], run: &M, out: Vec<N>)
    requires
        call_ensures(
            run_tse_offline::<N, M>,
            (stage, audio, run),
            Ok::<Vec<N>, PipelineError>(out),
        ),
    ensures
        out@.len() == audio@.len(),
        exists|fresh: StageView<N>, fed: StageView<N>, body: Vec<N>|
            {
                &&& fresh.pending.len() == 0
                &&& fresh.cond == old(stage)@.cond
                &&& fresh.chunk == old(stage)@.chunk
                &&& crate::tse::is_initial_state(fresh.model, fresh.carried@)
                &&& #[trigger] is_fed(fresh, audio@, *run, fed, Ok(body))
                &&& forall|k: int|
                    0 <= k < body@.len() && k < out@.len() ==> #[trigger] out@[k] == body@[k]
            },
{
    let (fresh, fed, body, tail) = choose|
        fresh: StageView<N>,
        fed: StageView<N>,
        body: Vec<N>,
        tail: Vec<N>,
    |
        {
            &&& crate::assembly::is_restarted(old(stage)@, old(stage)@.cond, fresh)
            &&& #[trigger] is_fed(fresh, audio@, *run, fed, Ok(body))
            &&& #[trigger] crate::chain::is_tse_tail(Some(fed), *run, Some(final(stage)@), tail)
            &&& crate::offline::is_fitted(body@ + tail@, audio@.len(), out@)
        };
    assert forall|k: int| 0 <= k < body@.len() && k < out@.len() implies #[trigger] out@[k]
        == body@[k] by {
        assert((body@ + tail@)[k] == body@[k]);
        if (body@ + tail@).len() < audio@.len() {
            assert(out@.take((body@ + tail@).len() as int)[k] == out@[k]);
        }
    }
    assert(is_fed(fresh, audio@, *run, fed, Ok(body)));
}

/// A stage is made ready only for audio at its own rate, and it is then conditioned on the
/// mean of the enrolled anchors, with nothing waiting in it.
pub proof fn lemma_stage_is_made_ready<N: Scalar, L: Fn(&str) -> Result<(), TseError>>(
    components: &mut PipelineComponents<N>,
    cfg: Option<TseStageConfig>,
    audio_sr: u32,
    pool: EmbeddingPool<N>,
    load: &L,
    r: Result<(), PipelineError>,
)
    requires
        call_ensures(ensure_tse_stage::<N, L>, (components, &cfg, audio_sr, &pool, load), r),
        lawful::<N>(),
    ensures
        cfg is None ==> final(components).tse == old(components).tse,
        cfg matches Some(c) && c.model.rate() != audio_sr ==> r is Err,
        cfg is Some && r is Ok ==> (final(components).tse matches Some(t) && {
            &&& t@.pending.len() == 0
            &&& are_column_means(pool@.anchors, t@.cond)
            &&& old(components).tse matches Some(u) ==> t@.model == u@.model && t@.chunk
                == u@.chunk
            &&& old(components).tse is None ==> t@.model == cfg->0.model && t@.chunk
                == cfg->0.chunk_samples
        }),
        r is Err ==> stage_view(final(components).tse) == stage_view(old(components).tse),
{
    crate::laws::score::lemma_centroid_means(pool@.anchors);
}

/// `moved` are the decisions `d` at the rate of `n` samples of audio: those of
/// [`decisions_at_audio_rate`], and the same ones where the rates agree.
pub open spec fn are_moved(
    d: Seq<(usize, bool)>,
    decision_sr: u32,
    audio_sr: u32,
    n: nat,
    moved: Vec<(usize, bool)>,
) -> bool {
    &&& audio_sr == decision_sr ==> moved@ == d
    &&& audio_sr != decision_sr ==> exists|s: &[(usize, bool)], k: usize|
        {
            &&& s@ == d
            &&& k == n
            &&& #[trigger] call_ensures(
                decisions_at_audio_rate,
                (s, decision_sr, audio_sr, k),
                moved,
            )
        }
}

proof fn lemma_moved(
    d: Seq<(usize, bool)>,
    decision_sr: u32,
    audio_sr: u32,
    n: nat,
    moved: Vec<(usize, bool)>,
)
    requires
        are_moved(d, decision_sr, audio_sr, n, moved),
    ensures
        moved@ == at_audio_rate(d, decision_sr, audio_sr, n),
{
}

/// Decisions at one rate shape audio at another: the audio follows them once each start is
/// moved to the rate of the audio.
pub proof fn lemma_audio_follows_rescaled_decisions<N: Scalar, F: Fn(N) -> N>(
    audio: &[N],
    decisions: &[(usize, bool)],
    audio_sr: u32,
    decision_sr: u32,
    gate: GateConfig<N>,
    exp: &F,
    out: Vec<N>,
    moved: Vec<(usize, bool)>,
)
    requires
        call_ensures(
            apply_envelope_dual_rate::<N, F>,
            (audio, decisions, audio_sr, decision_sr, gate, exp),
            Ok(out),
        ),
        lawful::<N>(),
        are_moved(decisions@, decision_sr, audio_sr, audio@.len(), moved),
        in_order(moved@, audio@.len()),
    ensures
        is_shaped(audio@, moved@, audio_sr, gate, *exp, out@),
{
    lemma_moved(decisions@, decision_sr, audio_sr, audio@.len(), moved);
    lemma_enveloped_is_shaped(audio@, moved@, audio_sr, gate, *exp, out);
}

/// The audio that processing gives follows the decisions that it reports: with a pre-roll or a
/// worker, each sample of the recording times a gain that follows them, and where a voice is
/// extracted, each sample of that voice times such a gain. A worker's decisions are counted at
/// the rate of the decisions, and are moved to that of the recording first.
pub proof fn lemma_processed_audio_follows_its_decisions<
    N: Scalar,
    V: Fn(&Vec<N>, &Vec<N>, u32) -> Result<VadReply<N>, EmbeddingError>,
    R: Fn(&Vec<N>) -> Result<(Vec<N>, N), EmbeddingError>,
    S: Fn(Vec<N>) -> bool,
    C: Fn(bool) -> Received<N>,
    P: Fn(&Vec<N>) -> Option<N>,
    O: Fn(&Vec<N>) -> Result<OverlapReply<N>, EmbeddingError>,
    M: Fn(&[N], &[N], &Vec<Tensor<N>>) -> Result<TseReply<N>, TseError>,
    D: Fn(&Vec<N>) -> Result<Vec<N>, EmbeddingError>,
    I: Fn() -> usize,
    J: Fn(&Vec<N>) -> Result<Vec<N>, String>,
    E: Fn(N) -> N,
    Q: Fn(N) -> N,
    W: Fn(N) -> N,
    T: Fn(N) -> N,
    F: Fn(Memory),
    L: Fn(&str) -> Result<(), TseError>,
    B: Fn(u32, u32) -> Result<(), String>,
    X: Fn(&[N], u32, u32) -> Result<Vec<Vec<N>>, ResampleError>,
>(
    kit: Kit<N, V, R, S, C, P, O, M, D, I, J, E, Q, W, T, F>,
    audio: &[N],
    sample_rate: u32,
    pool: &mut EmbeddingPool<N>,
    cfg: PipelineConfig<N>,
    gate: GateConfig<N>,
    components: &mut PipelineComponents<N>,
    load: &L,
    bridge: &B,
    run: &X,
    res: ProcessResult<N>,
    moved: Vec<(usize, bool)>,
)
    requires
        call_ensures(
            Kit::<N, V, R, S, C, P, O, M, D, I, J, E, Q, W, T, F>::process_offline::<L, B, X>,
            (&kit, audio, sample_rate, pool, &cfg, &gate, components, load, bridge, run),
            Ok::<ProcessResult<N>, PipelineError>(res),
        ),
        lawful::<N>(),
        cfg.async_refresh ==> are_moved(
            res.gate_decisions@,
            cfg.sample_rate,
            sample_rate,
            audio@.len(),
            moved,
        ),
        !cfg.async_refresh ==> moved@ == res.gate_decisions@,
        in_order(moved@, audio@.len()),
    ensures
        res.tse_applied <==> cfg.tse is Some,
        cfg.tse is None && (cfg.pre_roll_ms > 0 || cfg.async_refresh) ==> is_shaped(
            audio@,
            moved@,
            sample_rate,
            gate,
            kit.exp,
            res.audio@,
        ),
        cfg.tse is Some ==> exists|stage: StageView<N>, after: StageView<N>, voice: Seq<N>|
            {
                &&& #[trigger] is_extracted_whole(stage, audio@, kit.extract, after, voice)
                &&& stage.pending.len() == 0
                &&& are_column_means(old(pool)@.anchors, stage.cond)
                &&& is_shaped(
                    voice,
                    moved@,
                    sample_rate,
                    gate,
                    kit.exp,
                    res.audio@,
                )
            },
{
    let prepared = choose|prepared: Option<TseStage<N>>| #[trigger]
        crate::assembly::is_tse_prepared(
            cfg.tse,
            sample_rate,
            old(pool)@,
            stage_view(old(components).tse),
            *load,
            Ok(prepared),
        ) && kit.is_processed(
            audio,
            sample_rate,
            cfg,
            gate,
            *bridge,
            *run,
            (old(components).vad@, old(pool)@),
            old(components).cohort@,
            stage_view(prepared),
            stage_view(final(components).tse),
            (final(components).vad@, final(pool)@),
            res,
        );
    let plain = choose|plain: ProcessResult<N>|
        {
            &&& #[trigger] kit.is_plain_result(
                audio,
                sample_rate,
                cfg,
                gate,
                *bridge,
                *run,
                (old(components).vad@, old(pool)@),
                old(components).cohort@,
                (final(components).vad@, final(pool)@),
                plain,
            )
            &&& match stage_view(prepared) {
                None => res == plain,
                Some(t) => {
                    &&& res == (ProcessResult { audio: res.audio, tse_applied: true, ..plain })
                    &&& stage_view(final(components).tse) matches Some(u)
                    &&& kit.is_revoiced(
                        t,
                        u,
                        audio@,
                        sample_rate,
                        crate::offline::rate_of_decisions(cfg, sample_rate),
                        gate,
                        res,
                    )
                },
            }
        };
    if cfg.async_refresh {
        lemma_moved(
            res.gate_decisions@,
            cfg.sample_rate,
            sample_rate,
            audio@.len(),
            moved,
        );
    }
    if cfg.tse is None {
        if cfg.pre_roll_ms > 0 || cfg.async_refresh {
            lemma_enveloped_is_shaped(
                audio@,
                moved@,
                sample_rate,
                gate,
                kit.exp,
                res.audio,
            );
        }
    } else {
        crate::laws::score::lemma_centroid_means(old(pool)@.anchors);
        let t = stage_view(prepared)->0;
        let u = stage_view(final(components).tse)->0;
        let voice = choose|voice: Seq<N>|
            {
                &&& #[trigger] is_extracted_whole(t, audio@, kit.extract, u, voice)
                &&& crate::gating::is_enveloped(
                    voice,
                    moved@,
                    sample_rate,
                    gate,
                    kit.exp,
                    Ok(res.audio),
                )
            };
        lemma_enveloped_is_shaped(
            voice,
            moved@,
            sample_rate,
            gate,
            kit.exp,
            res.audio,
        );
        assert(is_extracted_whole(t, audio@, kit.extract, u, voice));
    }
}

/// A recording at the rate of the decisions is heard from its first sample on, frame after
/// frame, by an engine that has heard nothing before; without a pre-roll the audio starts with
/// what the frames give, one behind the other, and the first records are theirs.
pub proof fn lemma_recording_is_heard_from_the_start<
    N: Scalar,
    V: Fn(&Vec<N>, &Vec<N>, u32) -> Result<VadReply<N>, EmbeddingError>,
    R: Fn(&Vec<N>) -> Result<(Vec<N>, N), EmbeddingError>,
    S: Fn(Vec<N>) -> bool,
    C: Fn(bool) -> Received<N>,
    P: Fn(&Vec<N>) -> Option<N>,
    O: Fn(&Vec<N>) -> Result<OverlapReply<N>, EmbeddingError>,
    M: Fn(&[N], &[N], &Vec<Tensor<N>>) -> Result<TseReply<N>, TseError>,
    D: Fn(&Vec<N>) -> Result<Vec<N>, EmbeddingError>,
    I: Fn() -> usize,
    J: Fn(&Vec<N>) -> Result<Vec<N>, String>,
    E: Fn(N) -> N,
    Q: Fn(N) -> N,
    W: Fn(N) -> N,
    T: Fn(N) -> N,
    F: Fn(Memory),
    L: Fn(&str) -> Result<(), TseError>,
    B: Fn(u32, u32) -> Result<(), String>,
    X: Fn(&[N], u32, u32) -> Result<Vec<Vec<N>>, ResampleError>,
>(
    kit: Kit<N, V, R, S, C, P, O, M, D, I, J, E, Q, W, T, F>,
    audio: &[N],
    sample_rate: u32,
    pool: &mut EmbeddingPool<N>,
    cfg: PipelineConfig<N>,
    gate: GateConfig<N>,
    components: &mut PipelineComponents<N>,
    load: &L,
    bridge: &B,
    run: &X,
    res: ProcessResult<N>,
)
    requires
        call_ensures(
            Kit::<N, V, R, S, C, P, O, M, D, I, J, E, Q, W, T, F>::process_offline::<L, B, X>,
            (&kit, audio, sample_rate, pool, &cfg, &gate, components, load, bridge, run),
            Ok::<ProcessResult<N>, PipelineError>(res),
        ),
        sample_rate == cfg.sample_rate,
        !cfg.async_refresh,
        cfg.tse is None,
        cfg.pre_roll_ms == 0,
    ensures
        exists|
            config: StreamingConfig<N>,
            intake: Intake<N>,
            moments: Seq<Moment<N>>,
            deltas: Seq<OutputView<N>>,
            at: Seq<int>,
            head: OutputView<N>,
        |
            {
                &&& config.gate == gate
                &&& config.pipeline.vad_threshold == cfg.vad_threshold
                &&& config.diagnostics
                &&& #[trigger] is_started(
                    config,
                    *bridge,
                    kit.exp,
                    Ok::<(Intake<N>, StreamingState<N>), PipelineError>(
                        (intake, moments[0].state),
                    ),
                )
                &&& moments[0].vad == old(components).vad@
                &&& moments[0].pool == old(pool)@
                &&& deltas.len() == audio@.len() / 512
                &&& #[trigger] steps_through(
                    kit,
                    audio@,
                    moments,
                    old(components).cohort@,
                    config,
                    deltas,
                )
                &&& #[trigger] are_in_sequence(deltas, at, head)
                &&& head.audio.len() <= res.audio@.len()
                &&& cut_out(res.audio@, 0, head.audio.len() as int, head.audio)
                &&& head.gate_per_frame.is_prefix_of(res.gate_per_frame@)
                &&& head.score_per_frame.is_prefix_of(res.score_per_frame@)
            },
{
    let prepared = choose|prepared: Option<TseStage<N>>| #[trigger]
        crate::assembly::is_tse_prepared(
            cfg.tse,
            sample_rate,
            old(pool)@,
            stage_view(old(components).tse),
            *load,
            Ok(prepared),
        ) && kit.is_processed(
            audio,
            sample_rate,
            cfg,
            gate,
            *bridge,
            *run,
            (old(components).vad@, old(pool)@),
            old(components).cohort@,
            stage_view(prepared),
            stage_view(final(components).tse),
            (final(components).vad@, final(pool)@),
            res,
        );
    let (config, out) = choose|config: StreamingConfig<N>, out: OutputView<N>|
        {
            &&& #[trigger] is_offline_config(cfg, gate, sample_rate, config)
            &&& #[trigger] kit.is_pass(
                audio@,
                config,
                *bridge,
                (old(components).vad@, old(pool)@),
                old(components).cohort@,
                (final(components).vad@, final(pool)@),
                out,
            )
            &&& crate::offline::is_recorded(out, res)
            &&& res.audio@ == out.audio
        };
    let cohort = old(components).cohort@;
    let (intake, state, mid, head, end, tail) = choose|
        intake: Intake<N>,
        state: StreamingState<N>,
        mid: Station<N>,
        head: OutputView<N>,
        end: Station<N>,
        tail: OutputView<N>,
    |
        {
            &&& #[trigger] is_started(config, *bridge, kit.exp, Ok((intake, state)))
            &&& #[trigger] kit.is_way(
                false,
                Station {
                    ring: audio@,
                    at: Moment { state, vad: old(components).vad@, pool: old(pool)@ },
                },
                mid,
                head,
                cohort,
                config,
            )
            &&& kit.is_dry(false, mid.ring)
            &&& #[trigger] kit.is_flushed(false, mid, end, tail, cohort, config)
            &&& out == crate::engine::joined_output(head, tail)
        };
    let start = Station {
        ring: audio@,
        at: Moment { state, vad: old(components).vad@, pool: old(pool)@ },
    };
    let (moments, deltas, at) = lemma_way_is_heard(kit, start, mid, head, cohort, config);
    assert(moments[0].state == state);
    assert(is_started(
        config,
        *bridge,
        kit.exp,
        Ok::<(Intake<N>, StreamingState<N>), PipelineError>((intake, moments[0].state)),
    ));
    assert(steps_through(kit, audio@, moments, cohort, config, deltas));
    assert(are_in_sequence(deltas, at, head));
    assert(head.gate_per_frame =~= res.gate_per_frame@.take(head.gate_per_frame.len() as int));
    assert(head.score_per_frame =~= res.score_per_frame@.take(head.score_per_frame.len() as int));
}

/// With a worker, the audio follows the reported decisions at any rate: the decisions are taken
/// on the recording at the rate of the decisions, and each is moved to the rate of the
/// recording before the recording follows them.
pub proof fn lemma_manned_audio_follows_its_decisions<
    N: Scalar,
    V: Fn(&Vec<N>, &Vec<N>, u32) -> Result<VadReply<N>, EmbeddingError>,
    R: Fn(&Vec<N>) -> Result<(Vec<N>, N), EmbeddingError>,
    S: Fn(Vec<N>) -> bool,
    C: Fn(bool) -> Received<N>,
    P: Fn(&Vec<N>) -> Option<N>,
    O: Fn(&Vec<N>) -> Result<OverlapReply<N>, EmbeddingError>,
    M: Fn(&[N], &[N], &Vec<Tensor<N>>) -> Result<TseReply<N>, TseError>,
    D: Fn(&Vec<N>) -> Result<Vec<N>, EmbeddingError>,
    I: Fn() -> usize,
    J: Fn(&Vec<N>) -> Result<Vec<N>, String>,
    E: Fn(N) -> N,
    Q: Fn(N) -> N,
    W: Fn(N) -> N,
    T: Fn(N) -> N,
    F: Fn(Memory),
    B: Fn(u32, u32) -> Result<(), String>,
    X: Fn(&[N], u32, u32) -> Result<Vec<Vec<N>>, ResampleError>,
>(
    kit: Kit<N, V, R, S, C, P, O, M, D, I, J, E, Q, W, T, F>,
    audio: &[N],
    sample_rate: u32,
    pool: &mut EmbeddingPool<N>,
    cfg: PipelineConfig<N>,
    gate: GateConfig<N>,
    components: &mut PipelineComponents<N>,
    bridge: &B,
    run: &X,
    res: ProcessResult<N>,
    moved: Vec<(usize, bool)>,
)
    requires
        call_ensures(
            Kit::<N, V, R, S, C, P, O, M, D, I, J, E, Q, W, T, F>::process_offline_async::<B, X>,
            (&kit, audio, sample_rate, pool, &cfg, &gate, components, bridge, run),
            Ok::<ProcessResult<N>, PipelineError>(res),
        ),
        lawful::<N>(),
        are_moved(res.gate_decisions@, cfg.sample_rate, sample_rate, audio@.len(), moved),
        in_order(moved@, audio@.len()),
    ensures
        is_shaped(audio@, moved@, sample_rate, gate, kit.exp, res.audio@),
        exists|heard: Vec<N>, config: StreamingConfig<N>, moments: Seq<Moment<N>>, deltas: Seq<
            OutputView<N>,
        >|
            {
                &&& #[trigger] is_resampled(audio, sample_rate, cfg.sample_rate, *run, Ok(heard))
                &&& config.gate == gate
                &&& moments[0].vad == old(components).vad@
                &&& moments[0].pool == old(pool)@
                &&& moments[0].state.channel is Some
                &&& deltas.len() == heard@.len() / 512
                &&& #[trigger] steps_through(
                    kit,
                    heard@,
                    moments,
                    old(components).cohort@,
                    config,
                    deltas,
                )
            },
{
    let (config, dec, out) = choose|config: StreamingConfig<N>, dec: Vec<N>, out: OutputView<N>|
        {
            &&& #[trigger] is_offline_config(cfg, gate, cfg.sample_rate, config)
            &&& #[trigger] is_resampled(audio, sample_rate, cfg.sample_rate, *run, Ok(dec))
            &&& #[trigger] kit.is_async_pass(
                dec@,
                config,
                *bridge,
                (old(components).vad@, old(pool)@),
                old(components).cohort@,
                (final(components).vad@, final(pool)@),
                out,
            )
            &&& crate::gating::is_enveloped(
                audio@,
                at_audio_rate(res.gate_decisions@, cfg.sample_rate, sample_rate, audio@.len()),
                sample_rate,
                gate,
                kit.exp,
                Ok(res.audio),
            )
        };
    lemma_moved(res.gate_decisions@, cfg.sample_rate, sample_rate, audio@.len(), moved);
    lemma_enveloped_is_shaped(audio@, moved@, sample_rate, gate, kit.exp, res.audio);
    let cohort = old(components).cohort@;
    let (intake, state, manned, mid, head, drained) = choose|
        intake: Intake<N>,
        state: StreamingState<N>,
        manned: StreamingState<N>,
        mid: Station<N>,
        head: OutputView<N>,
        drained: StreamingState<N>,
    |
        {
            &&& #[trigger] is_started(config, *bridge, kit.exp, Ok((intake, state)))
            &&& #[trigger] crate::offline::is_manned(state, manned)
            &&& #[trigger] kit.is_way(
                false,
                Station {
                    ring: dec@,
                    at: Moment { state: manned, vad: old(components).vad@, pool: old(pool)@ },
                },
                mid,
                head,
                cohort,
                config,
            )
            &&& kit.is_dry(false, mid.ring)
            &&& #[trigger] kit.is_drained(
                mid.at.state,
                mid.at.pool,
                head,
                cohort,
                config,
                drained,
                final(pool)@,
                out,
            )
        };
    let start = Station {
        ring: dec@,
        at: Moment { state: manned, vad: old(components).vad@, pool: old(pool)@ },
    };
    let (moments, deltas, at) = lemma_way_is_heard(kit, start, mid, head, cohort, config);
    assert(steps_through(kit, dec@, moments, cohort, config, deltas));
    assert(is_resampled(audio, sample_rate, cfg.sample_rate, *run, Ok(dec)));
}

/// The decisions that are reported are those of the engine, each opening moved ahead by the
/// pre-roll, at the rate at which they are counted: the rate of the decisions with a worker and
/// that of the recording without.
pub proof fn lemma_reported_decisions_open_ahead<
    N: Scalar,
    V: Fn(&Vec<N>, &Vec<N>, u32) -> Result<VadReply<N>, EmbeddingError>,
    R: Fn(&Vec<N>) -> Result<(Vec<N>, N), EmbeddingError>,
    S: Fn(Vec<N>) -> bool,
    C: Fn(bool) -> Received<N>,
    P: Fn(&Vec<N>) -> Option<N>,
    O: Fn(&Vec<N>) -> Result<OverlapReply<N>, EmbeddingError>,
    M: Fn(&[N], &[N], &Vec<Tensor<N>>) -> Result<TseReply<N>, TseError>,
    D: Fn(&Vec<N>) -> Result<Vec<N>, EmbeddingError>,
    I: Fn() -> usize,
    J: Fn(&Vec<N>) -> Result<Vec<N>, String>,
    E: Fn(N) -> N,
    Q: Fn(N) -> N,
    W: Fn(N) -> N,
    T: Fn(N) -> N,
    F: Fn(Memory),
    L: Fn(&str) -> Result<(), TseError>,
    B: Fn(u32, u32) -> Result<(), String>,
    X: Fn(&[N], u32, u32) -> Result<Vec<Vec<N>>, ResampleError>,
>(
    kit: Kit<N, V, R, S, C, P, O, M, D, I, J, E, Q, W, T, F>,
    audio: &[N],
    sample_rate: u32,
    pool: &mut EmbeddingPool<N>,
    cfg: PipelineConfig<N>,
    gate: GateConfig<N>,
    components: &mut PipelineComponents<N>,
    load: &L,
    bridge: &B,
    run: &X,
    res: ProcessResult<N>,
)
    requires
        call_ensures(
            Kit::<N, V, R, S, C, P, O, M, D, I, J, E, Q, W, T, F>::process_offline::<L, B, X>,
            (&kit, audio, sample_rate, pool, &cfg, &gate, components, load, bridge, run),
            Ok::<ProcessResult<N>, PipelineError>(res),
        ),
    ensures
        !cfg.async_refresh ==> exists|config: StreamingConfig<N>, out: OutputView<N>|
            {
                &&& config.gate == gate && config.diagnostics && config.audio_sample_rate
                    == sample_rate
                &&& #[trigger] kit.is_pass(
                    audio@,
                    config,
                    *bridge,
                    (old(components).vad@, old(pool)@),
                    old(components).cohort@,
                    (final(components).vad@, final(pool)@),
                    out,
                )
                &&& opens_ahead(
                    out.gate_decisions,
                    (cfg.pre_roll_ms * sample_rate) / 1000,
                    res.gate_decisions@,
                )
                &&& is_reported(out, res)
            },
        cfg.async_refresh ==> exists|config: StreamingConfig<N>, heard: Vec<N>, out: OutputView<N>|
            {
                &&& config.gate == gate && config.diagnostics && config.audio_sample_rate
                    == cfg.sample_rate
                &&& #[trigger] is_resampled(audio, sample_rate, cfg.sample_rate, *run, Ok(heard))
                &&& #[trigger] kit.is_async_pass(
                    heard@,
                    config,
                    *bridge,
                    (old(components).vad@, old(pool)@),
                    old(components).cohort@,
                    (final(components).vad@, final(pool)@),
                    out,
                )
                &&& opens_ahead(
                    out.gate_decisions,
                    (cfg.pre_roll_ms * cfg.sample_rate) / 1000,
                    res.gate_decisions@,
                )
                &&& is_reported(out, res)
            },
{
    let prepared = choose|prepared: Option<TseStage<N>>| #[trigger]
        crate::assembly::is_tse_prepared(
            cfg.tse,
            sample_rate,
            old(pool)@,
            stage_view(old(components).tse),
            *load,
            Ok(prepared),
        ) && kit.is_processed(
            audio,
            sample_rate,
            cfg,
            gate,
            *bridge,
            *run,
            (old(components).vad@, old(pool)@),
            old(components).cohort@,
            stage_view(prepared),
            stage_view(final(components).tse),
            (final(components).vad@, final(pool)@),
            res,
        );
    let plain = choose|plain: ProcessResult<N>|
        {
            &&& #[trigger] kit.is_plain_result(
                audio,
                sample_rate,
                cfg,
                gate,
                *bridge,
                *run,
                (old(components).vad@, old(pool)@),
                old(components).cohort@,
                (final(components).vad@, final(pool)@),
                plain,
            )
            &&& res == (ProcessResult {
                audio: res.audio,
                tse_applied: res.tse_applied,
                ..plain
            })
        };
    if cfg.async_refresh {
        let (config, dec, out) = choose|
            config: StreamingConfig<N>,
            dec: Vec<N>,
            out: OutputView<N>,
        |
            {
                &&& #[trigger] is_offline_config(cfg, gate, cfg.sample_rate, config)
                &&& #[trigger] is_resampled(audio, sample_rate, cfg.sample_rate, *run, Ok(dec))
                &&& #[trigger] kit.is_async_pass(
                    dec@,
                    config,
                    *bridge,
                    (old(components).vad@, old(pool)@),
                    old(components).cohort@,
                    (final(components).vad@, final(pool)@),
                    out,
                )
                &&& plain.gate_decisions@ == crate::decisions::settled(
                    out.gate_decisions,
                    cfg.pre_roll_ms,
                    cfg.sample_rate,
                )
                &&& crate::offline::is_recorded(out, plain)
            };
        lemma_reported(
            out.gate_decisions,
            cfg.pre_roll_ms,
            cfg.sample_rate,
            res.gate_decisions@,
        );
        assert(is_resampled(audio, sample_rate, cfg.sample_rate, *run, Ok(dec)));
    } else {
        let (config, out) = choose|config: StreamingConfig<N>, out: OutputView<N>|
            {
                &&& #[trigger] is_offline_config(cfg, gate, sample_rate, config)
                &&& #[trigger] kit.is_pass(
                    audio@,
                    config,
                    *bridge,
                    (old(components).vad@, old(pool)@),
                    old(components).cohort@,
                    (final(components).vad@, final(pool)@),
                    out,
                )
                &&& plain.gate_decisions@ == crate::decisions::settled(
                    out.gate_decisions,
                    cfg.pre_roll_ms,
                    sample_rate,
                )
                &&& crate::offline::is_recorded(out, plain)
            };
        lemma_reported(out.gate_decisions, cfg.pre_roll_ms, sample_rate, res.gate_decisions@);
    }
}

/// A sample is on in `after` exactly where it, or one within `n` samples behind it, is on in
/// `before`, where those alternate from the first sample on.
pub open spec fn opens_ahead(before: Seq<(usize, bool)>, n: int, after: Seq<(usize, bool)>) -> bool {
    alternates(before) ==> forall|k: int|
        0 <= k ==> (#[trigger] on_at(after, k) <==> opens_within(before, k, n))
}

/// What was recorded of the frames, and what was learned, is what is reported.
pub open spec fn is_reported<N>(out: OutputView<N>, res: ProcessResult<N>) -> bool {
    &&& res.gate_per_frame@ == out.gate_per_frame
    &&& res.score_per_frame@ == out.score_per_frame
    &&& res.cos_sim_max_per_frame@ == out.cos_sim_max_per_frame
    &&& res.f0_match_per_frame@ == out.f0_match_per_frame
    &&& res.auto_learn_events@ == out.events
}

proof fn lemma_reported(
    d: Seq<(usize, bool)>,
    pre_roll_ms: u32,
    rate: u32,
    after: Seq<(usize, bool)>,
)
    requires
        after == crate::decisions::settled(d, pre_roll_ms, rate),
    ensures
        opens_ahead(d, (pre_roll_ms * rate) / 1000, after),
{
    if alternates(d) {
        assert forall|k: int| 0 <= k implies (#[trigger] on_at(after, k) <==> opens_within(
            d,
            k,
            (pre_roll_ms * rate) / 1000,
        )) by {
            lemma_settled_opens_ahead(d, pre_roll_ms, rate, k);
        }
    }
}

} // verus!
