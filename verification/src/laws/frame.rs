//! Laws of a single frame.
use crate::chain::{Chain, Memory};
use crate::config::StreamingConfig;
use crate::embedding::EmbeddingError;
use crate::enrollment::{EmbeddingPool, EnrollmentMetadata, PoolView};
use crate::gating::{glide, is_f0_fit, EnvelopeView};
use crate::laws::envelope::stepped;
use crate::laws::has_units;
use crate::laws::listen::is_end_of;
use crate::laws::score::are_column_means;
use crate::overlap::OverlapReply;
use crate::pipeline::{PipelineConfig, PipelineError};
use crate::refresh::Received;
use crate::scalar::{ge, gt, lawful, num, Scalar};
use crate::speech::FAST_F0_RING_SAMPLES;
use crate::streaming::{
    fuse_fast_cue, is_opened, no_output, tse_cond_embedding, FrameStart, Kit, Moment, OutputView,
    StreamingOutput, StreamingState,
};
use crate::tse::{Tensor, TseError, TseReply};
use crate::vad::{is_scored, SileroVad, VadReply};
use vstd::prelude::*;
use vstd::std_specs::ops::{AddSpec, MulSpec, SubSpec};

verus! {

/// The pitch of a frame moves the score by its weight times how far the match lies above
/// neutral: not at all at neutral, and not at all without weight.
pub proof fn lemma_cue_nudges_the_score<N: Scalar>(score: N, fm: N, weight: N, neutral: N, r: N)
    requires
        call_ensures(fuse_fast_cue::<N>, (score, fm, weight, neutral), r),
        lawful::<N>(),
    ensures
        has_units::<N>() && fm == neutral ==> r == score,
        has_units::<N>() && weight == num::<N>(0) ==> r == score,
        has_units::<N>() && weight == num::<N>(1) && neutral == num::<N>(0) ==> r == score.add_spec(
            fm,
        ),
        has_units::<N>() && score == num::<N>(0) ==> r == weight.mul_spec(fm.sub_spec(neutral)),
{
}

/// A frame is speech exactly when its probability exceeds the threshold. The speech that an
/// embedding is due on is the newest that was gathered, this frame's the last of it. While
/// speech goes on, one is due as soon as the window is full and its time has come. The match is
/// that of the pitch of the last stretch of audio to the pitch of the enrolled speaker.
pub proof fn lemma_frame_is_speech_above_threshold<
    N: Scalar,
    V: Fn(&Vec<N>, &Vec<N>, u32) -> Result<VadReply<N>, EmbeddingError>,
    R: Fn(&Vec<N>) -> Result<(Vec<N>, N), EmbeddingError>,
    S: Fn(Vec<N>) -> bool,
    C: Fn(bool) -> Received<N>,
    P: Fn(&Vec<N>) -> Option<N>,
    O: Fn(&Vec<N>) -> Result<OverlapReply<N>, EmbeddingError>,
    M: Fn(&[N], &[N], &Vec<Tensor<N>>) -> Result<TseReply<N>, TseError>,
    D: Fn(&Vec<N>) -> Result<Vec<N>, EmbeddingError>,
    I: Fn() -> usize,
    J: Fn(&Vec<N>) -> Result<Vec<N>, String>,
    E: Fn(N) -> N,
    Q: Fn(N) -> N,
    W: Fn(N) -> N,
    T: Fn(N) -> N,
    F: Fn(Memory),
>(
    kit: Kit<N, V, R, S, C, P, O, M, D, I, J, E, Q, W, T, F>,
    state: &mut StreamingState<N>,
    vad: &mut SileroVad<N>,
    frame: &[N],
    enrolled: EnrollmentMetadata<N>,
    cfg: PipelineConfig<N>,
    f: FrameStart<N>,
)
    requires
        call_ensures(
            Kit::<N, V, R, S, C, P, O, M, D, I, J, E, Q, W, T, F>::begin_frame,
            (&kit, state, vad, frame, enrolled, &cfg),
            Ok(f),
        ),
        lawful::<N>(),
    ensures
        exists|prob: N|
            {
                &&& #[trigger] is_scored(old(vad)@, frame@, kit.vad, final(vad)@, Ok(prob))
                &&& f.now_speech == gt(prob, cfg.vad_threshold)
            },
        final(state).speech@.prev_speech == f.now_speech,
        !f.now_speech ==> final(state).turn == old(state).turn && !f.turn.entered_shrunk,
        !cfg.fast_cue_enabled && !cfg.turn_detect_enabled ==> f.fm_fast is None,
        f.window is Some ==> final(state).speech@.since_update == 0,
        f.window is None ==> final(state).speech@.since_update == old(state).speech@.since_update
            + 512,
        f.window matches Some(w) ==> {
            &&& w@ == final(state).speech@.buffer
            &&& w@.len() >= final(state).turn.effective_window
            &&& f.now_speech && old(state).speech@.prev_speech && !f.turn.entered_shrunk
                ==> is_end_of(
                old(state).speech@.buffer + frame@,
                old(state).turn.effective_window as nat,
                w@,
            )
        },
        f.fm_fast is Some ==> is_end_of(
            old(state).fast_f0_cue@ + frame@,
            2048,
            final(state).fast_f0_cue@,
        ) && final(state).fast_f0_cue@.len() >= 2048,
        f.fm_fast matches Some(m) ==> exists|ring: Vec<N>, hz: N|
            {
                &&& ring@ == final(state).fast_f0_cue@
                &&& #[trigger] call_ensures(kit.pitch, (&ring,), Some(hz))
                &&& is_f0_fit(hz, enrolled.f0_mu, enrolled.f0_sigma, kit.exp, m)
            },
        f.now_speech && !f.turn.entered_shrunk && old(state).speech@.prev_speech
            && !old(state).speech@.silence_seen ==> (f.window is Some
            <==> final(state).speech@.buffer.len() >= final(state).turn.effective_window
            && (f.turn.shrunk ==> old(state).speech@.since_update + 512
            >= cfg.sv_turn_update_samples)
            && (!f.turn.shrunk ==> old(state).speech@.since_update + 512
            >= cfg.sv_update_samples)),
{
}

/// What the speaker gate decides on a frame: it opens where the score reaches the threshold and
/// nothing holds it shut, it is shut where silence has lasted long enough or a turn away is
/// suspect, and a shut gate stays shut below the threshold.
pub proof fn lemma_gate_decides_by_score<
    N: Scalar,
    V: Fn(&Vec<N>, &Vec<N>, u32) -> Result<VadReply<N>, EmbeddingError>,
    R: Fn(&Vec<N>) -> Result<(Vec<N>, N), EmbeddingError>,
    S: Fn(Vec<N>) -> bool,
    C: Fn(bool) -> Received<N>,
    P: Fn(&Vec<N>) -> Option<N>,
    O: Fn(&Vec<N>) -> Result<OverlapReply<N>, EmbeddingError>,
    M: Fn(&[N], &[N], &Vec<Tensor<N>>) -> Result<TseReply<N>, TseError>,
    D: Fn(&Vec<N>) -> Result<Vec<N>, EmbeddingError>,
    I: Fn() -> usize,
    J: Fn(&Vec<N>) -> Result<Vec<N>, String>,
    E: Fn(N) -> N,
    Q: Fn(N) -> N,
    W: Fn(N) -> N,
    T: Fn(N) -> N,
    F: Fn(Memory),
>(
    kit: Kit<N, V, R, S, C, P, O, M, D, I, J, E, Q, W, T, F>,
    state: &mut StreamingState<N>,
    fm: Option<N>,
    config: StreamingConfig<N>,
    out: &mut StreamingOutput<N>,
    on: bool,
)
    requires
        call_ensures(Kit::<N, V, R, S, C, P, O, M, D, I, J, E, Q, W, T, F>::decide, (&kit, state, fm, &config, out), on),
        lawful::<N>(),
    ensures
        gt(config.pipeline.silence_force_off_ms, num(0)) && ge(
            old(state).speech@.silence_ms,
            config.pipeline.silence_force_off_ms,
        ) ==> !on,
        old(state).turn.offset_failclosed_active ==> !on,
        !config.pipeline.fast_cue_enabled && ge(
            old(state).score.last_score,
            in_force(*old(state)),
        ) && !gt(config.pipeline.silence_force_off_ms, num(0)) && !old(
            state,
        ).turn.offset_failclosed_active ==> on,
        !config.pipeline.fast_cue_enabled && !ge(old(state).score.last_score, in_force(*old(state)))
            && !old(state).gate@.on ==> !on,
        config.pipeline.fast_cue_enabled && has_units::<N>() && fm is None && !ge(
            old(state).score.last_score,
            in_force(*old(state)),
        ) && !old(state).gate@.on ==> !on,
        config.pipeline.fast_cue_enabled && fm is Some && !old(state).gate@.on && !ge(
            old(state).score.last_score.add_spec(
                config.pipeline.fast_cue_weight.mul_spec(
                    fm->0.sub_spec(config.pipeline.fast_cue_f0_neutral),
                ),
            ),
            in_force(*old(state)),
        ) ==> !on,
        config.pipeline.fast_cue_enabled && fm is Some && ge(
            old(state).score.last_score.add_spec(
                config.pipeline.fast_cue_weight.mul_spec(
                    fm->0.sub_spec(config.pipeline.fast_cue_f0_neutral),
                ),
            ),
            in_force(*old(state)),
        ) && !gt(config.pipeline.silence_force_off_ms, num(0)) && !old(
            state,
        ).turn.offset_failclosed_active ==> on,
        final(state).score == old(state).score,
{
}

/// The threshold that goes with the kind of score.
pub open spec fn in_force<N: Scalar>(s: StreamingState<N>) -> N {
    if s.gate.rules().use_as_norm {
        s.gate.rules().theta_pass_as_norm
    } else {
        s.gate.rules().theta_pass
    }
}

/// A decision is recorded exactly when it differs from the last, with the sample at which
/// the frame starts; what is recorded of a frame is what was decided and asked.
pub proof fn lemma_changes_are_recorded<
    N: Scalar,
    V: Fn(&Vec<N>, &Vec<N>, u32) -> Result<VadReply<N>, EmbeddingError>,
    R: Fn(&Vec<N>) -> Result<(Vec<N>, N), EmbeddingError>,
    S: Fn(Vec<N>) -> bool,
    C: Fn(bool) -> Received<N>,
    P: Fn(&Vec<N>) -> Option<N>,
    O: Fn(&Vec<N>) -> Result<OverlapReply<N>, EmbeddingError>,
    M: Fn(&[N], &[N], &Vec<Tensor<N>>) -> Result<TseReply<N>, TseError>,
    D: Fn(&Vec<N>) -> Result<Vec<N>, EmbeddingError>,
    I: Fn() -> usize,
    J: Fn(&Vec<N>) -> Result<Vec<N>, String>,
    E: Fn(N) -> N,
    Q: Fn(N) -> N,
    W: Fn(N) -> N,
    T: Fn(N) -> N,
    F: Fn(Memory),
>(
    kit: Kit<N, V, R, S, C, P, O, M, D, I, J, E, Q, W, T, F>,
    state: &mut StreamingState<N>,
    fm: Option<N>,
    config: StreamingConfig<N>,
    out: &mut StreamingOutput<N>,
    on: bool,
)
    requires
        call_ensures(Kit::<N, V, R, S, C, P, O, M, D, I, J, E, Q, W, T, F>::decide, (&kit, state, fm, &config, out), on),
    ensures
        final(state).current_decision == Some(on),
        old(state).current_decision == Some(on) ==> final(out)@.gate_decisions == old(
            out,
        )@.gate_decisions,
        old(state).current_decision != Some(on) ==> final(out)@.gate_decisions == old(
            out,
        )@.gate_decisions.push((old(state).audio_samples_emitted, on)),
        config.diagnostics ==> final(out)@.gate_per_frame == old(out)@.gate_per_frame.push(on),
        config.diagnostics ==> final(out)@.cos_sim_max_per_frame == old(
            out,
        )@.cos_sim_max_per_frame.push(old(state).score.last_cs),
        config.diagnostics ==> final(out)@.f0_match_per_frame == old(out)@.f0_match_per_frame.push(
            old(state).score.last_fm,
        ),
        config.diagnostics && !config.pipeline.fast_cue_enabled ==> final(out)@.score_per_frame
            == old(out)@.score_per_frame.push(old(state).score.last_score),
        !config.diagnostics ==> final(out)@.gate_per_frame == old(out)@.gate_per_frame
            && final(out)@.score_per_frame == old(out)@.score_per_frame,
        final(out)@.audio == old(out)@.audio,
{
}

/// Without stages every sample of a frame leaves at once, times a gain that is one step
/// from that of the sample before, across frames too; the steps go up while the speaker gate is
/// open and down while it is shut.
pub proof fn lemma_frame_is_shaped_by_the_gate<
    N: Scalar,
    V: Fn(&Vec<N>, &Vec<N>, u32) -> Result<VadReply<N>, EmbeddingError>,
    R: Fn(&Vec<N>) -> Result<(Vec<N>, N), EmbeddingError>,
    S: Fn(Vec<N>) -> bool,
    C: Fn(bool) -> Received<N>,
    P: Fn(&Vec<N>) -> Option<N>,
    O: Fn(&Vec<N>) -> Result<OverlapReply<N>, EmbeddingError>,
    M: Fn(&[N], &[N], &Vec<Tensor<N>>) -> Result<TseReply<N>, TseError>,
    D: Fn(&Vec<N>) -> Result<Vec<N>, EmbeddingError>,
    I: Fn() -> usize,
    J: Fn(&Vec<N>) -> Result<Vec<N>, String>,
    E: Fn(N) -> N,
    Q: Fn(N) -> N,
    W: Fn(N) -> N,
    T: Fn(N) -> N,
    F: Fn(Memory),
>(
    kit: Kit<N, V, R, S, C, P, O, M, D, I, J, E, Q, W, T, F>,
    state: &mut StreamingState<N>,
    chunk: &[N],
    frame: &[N],
    fm: Option<N>,
    config: StreamingConfig<N>,
    out: &mut StreamingOutput<N>,
)
    requires
        call_ensures(
            Kit::<N, V, R, S, C, P, O, M, D, I, J, E, Q, W, T, F>::finish_frame,
            (&kit, state, chunk, frame, fm, &config, out),
            Ok(()),
        ),
        lawful::<N>(),
        old(state).chain@.tse is None && old(state).chain@.dfn3 is None,
        old(state).audio_samples_emitted + chunk@.len() <= usize::MAX,
        old(state).frame_idx < usize::MAX,
    ensures
        final(state).current_decision is Some,
        final(state).frame_idx == old(state).frame_idx + 1,
        final(state).audio_samples_emitted == old(state).audio_samples_emitted + chunk@.len(),
        is_shaped_on(
            old(state).envelope@,
            final(state).current_decision->0,
            old(out)@.audio,
            chunk@,
            final(out)@.audio,
            final(state).envelope@,
        ),
{
    lemma_finished_is_shaped(
        kit,
        *old(state),
        chunk@,
        frame@,
        fm,
        old(out)@,
        config,
        *final(state),
        final(out)@,
    );
}

/// The audio goes on with the chunk, each sample times a gain; the gains ramp from where the
/// envelope stood, and the envelope stands at the last of them.
pub open spec fn is_shaped_on<N: Scalar>(
    env: EnvelopeView<N>,
    on: bool,
    before: Seq<N>,
    chunk: Seq<N>,
    after: Seq<N>,
    env_after: EnvelopeView<N>,
) -> bool {
    &&& env_after.attack == env.attack
    &&& env_after.release == env.release
    &&& exists|gain: Seq<N>|
        {
            &&& #[trigger] ramps(env.attack, env.release, on, env.value, gain)
            &&& gain.len() == chunk.len()
            &&& goes_on_with(before, chunk, gain, after)
            &&& env_after.value == if gain.len() == 0 {
                env.value
            } else {
                gain.last()
            }
        }
}

#[verifier::rlimit(40)]
#[verifier::spinoff_prover]
proof fn lemma_finished_is_shaped<
    N: Scalar,
    V: Fn(&Vec<N>, &Vec<N>, u32) -> Result<VadReply<N>, EmbeddingError>,
    R: Fn(&Vec<N>) -> Result<(Vec<N>, N), EmbeddingError>,
    S: Fn(Vec<N>) -> bool,
    C: Fn(bool) -> Received<N>,
    P: Fn(&Vec<N>) -> Option<N>,
    O: Fn(&Vec<N>) -> Result<OverlapReply<N>, EmbeddingError>,
    M: Fn(&[N], &[N], &Vec<Tensor<N>>) -> Result<TseReply<N>, TseError>,
    D: Fn(&Vec<N>) -> Result<Vec<N>, EmbeddingError>,
    I: Fn() -> usize,
    J: Fn(&Vec<N>) -> Result<Vec<N>, String>,
    E: Fn(N) -> N,
    Q: Fn(N) -> N,
    W: Fn(N) -> N,
    T: Fn(N) -> N,
    F: Fn(Memory),
>(
    kit: Kit<N, V, R, S, C, P, O, M, D, I, J, E, Q, W, T, F>,
    state: StreamingState<N>,
    chunk: Seq<N>,
    frame: Seq<N>,
    fm: Option<N>,
    out: OutputView<N>,
    config: StreamingConfig<N>,
    after: StreamingState<N>,
    out_after: OutputView<N>,
)
    requires
        kit.is_finished(state, chunk, frame, fm, out, config, after, out_after),
        lawful::<N>(),
        state.chain@.tse is None && state.chain@.dfn3 is None,
        state.audio_samples_emitted + chunk.len() <= usize::MAX,
        state.frame_idx < usize::MAX,
    ensures
        after.current_decision is Some,
        after.frame_idx == state.frame_idx + 1,
        after.audio_samples_emitted == state.audio_samples_emitted + chunk.len(),
        is_shaped_on(
            state.envelope@,
            after.current_decision->0,
            out.audio,
            chunk,
            out_after.audio,
            after.envelope@,
        ),
{
    let (decided, said, on, gain) = choose|
        decided: StreamingState<N>,
        said: OutputView<N>,
        on: bool,
        gain: Seq<N>,
    |
        {
            &&& #[trigger] kit.is_decided(state, fm, out, config, decided, said, on)
            &&& #[trigger] is_opened(decided.envelope@, on, chunk.len(), gain, after.envelope@)
            &&& after == (StreamingState {
                envelope: after.envelope,
                chain: after.chain,
                frame_idx: (state.frame_idx + 1) as usize,
                audio_samples_emitted: (state.audio_samples_emitted + chunk.len()) as usize,
                ..decided
            })
            &&& out.audio.is_prefix_of(out_after.audio)
            &&& lawful::<N>() ==> kit.is_emitted(
                state.chain@,
                chunk,
                frame,
                gain,
                config,
                after.chain@,
                out_after.audio.skip(out.audio.len() as int),
            )
        };
    assert(decided.envelope == state.envelope);
    lemma_opened_ramps(state.envelope@, on, chunk.len(), gain, after.envelope@);
    lemma_goes_on_with(out.audio, chunk, gain, out_after.audio);
    assert(after.current_decision == Some(on));
    assert(ramps(state.envelope@.attack, state.envelope@.release, on, state.envelope@.value, gain));
}

/// A frame as a whole: voice activity hears the frame at the rate of the decisions, and without
/// stages the audio of the frame leaves at once, shaped by the decision on that very frame.
#[verifier::rlimit(40)]
#[verifier::spinoff_prover]
pub proof fn lemma_step_shapes_its_own_audio<
    N: Scalar,
    V: Fn(&Vec<N>, &Vec<N>, u32) -> Result<VadReply<N>, EmbeddingError>,
    R: Fn(&Vec<N>) -> Result<(Vec<N>, N), EmbeddingError>,
    S: Fn(Vec<N>) -> bool,
    C: Fn(bool) -> Received<N>,
    P: Fn(&Vec<N>) -> Option<N>,
    O: Fn(&Vec<N>) -> Result<OverlapReply<N>, EmbeddingError>,
    M: Fn(&[N], &[N], &Vec<Tensor<N>>) -> Result<TseReply<N>, TseError>,
    D: Fn(&Vec<N>) -> Result<Vec<N>, EmbeddingError>,
    I: Fn() -> usize,
    J: Fn(&Vec<N>) -> Result<Vec<N>, String>,
    E: Fn(N) -> N,
    Q: Fn(N) -> N,
    W: Fn(N) -> N,
    T: Fn(N) -> N,
    F: Fn(Memory),
>(
    kit: Kit<N, V, R, S, C, P, O, M, D, I, J, E, Q, W, T, F>,
    state: &mut StreamingState<N>,
    vad: &mut SileroVad<N>,
    pool: &mut EmbeddingPool<N>,
    chunk: &[N],
    frame: &[N],
    cohort: Vec<Vec<N>>,
    config: StreamingConfig<N>,
    delta: StreamingOutput<N>,
)
    requires
        call_ensures(
            Kit::<N, V, R, S, C, P, O, M, D, I, J, E, Q, W, T, F>::step_one_frame_core,
            (&kit, state, vad, pool, chunk, frame, &cohort, &config),
            Ok::<StreamingOutput<N>, PipelineError>(delta),
        ),
        lawful::<N>(),
        old(state).chain@.tse is None && old(state).chain@.dfn3 is None,
        old(state).audio_samples_emitted + chunk@.len() <= usize::MAX,
        old(state).frame_idx < usize::MAX,
    ensures
        exists|prob: N| #[trigger]
            is_scored(old(vad)@, frame@, kit.vad, final(vad)@, Ok(prob)),
        final(state).current_decision is Some,
        is_shaped_on(
            old(state).envelope@,
            final(state).current_decision->0,
            Seq::empty(),
            chunk@,
            delta@.audio,
            final(state).envelope@,
        ),
{
    let after = *final(state);
    let (begun, f, served, served_pool, served_out, served_r, asked, asked_out, asked_r) = choose|
        begun: StreamingState<N>,
        f: FrameStart<N>,
        served: StreamingState<N>,
        served_pool: PoolView<N>,
        served_out: OutputView<N>,
        served_r: Result<(), PipelineError>,
        asked: StreamingState<N>,
        asked_out: OutputView<N>,
        asked_r: Result<(), PipelineError>,
    |
        {
            &&& #[trigger] kit.is_opening(
                Moment { state: *old(state), vad: old(vad)@, pool: old(pool)@ },
                frame@,
                config,
                final(vad)@,
                begun,
                f,
            )
            &&& served_r is Ok
            &&& #[trigger] kit.is_served(
                f.window,
                begun,
                old(pool)@,
                no_output(),
                f.turn.shrunk,
                cohort@,
                config,
                served,
                served_pool,
                served_out,
                served_r,
            )
            &&& asked_r is Ok
            &&& #[trigger] kit.is_polled(
                served,
                served_pool,
                served_out,
                cohort@,
                config,
                asked,
                final(pool)@,
                asked_out,
                asked_r,
            )
            &&& kit.is_finished(
                asked,
                chunk@,
                frame@,
                f.fm_fast,
                asked_out,
                config,
                after,
                delta@,
            )
        };
    assert(begun.chain == old(state).chain && begun.envelope == old(state).envelope);
    assert(begun.frame_idx == old(state).frame_idx);
    assert(begun.audio_samples_emitted == old(state).audio_samples_emitted);
    assert(served.chain == begun.chain && served.envelope == begun.envelope);
    assert(asked.chain == served.chain && asked.envelope == served.envelope);
    assert(served_out.audio == Seq::<N>::empty());
    assert(asked_out.audio == Seq::<N>::empty());
    lemma_finished_is_shaped(
        kit,
        asked,
        chunk@,
        frame@,
        f.fm_fast,
        asked_out,
        config,
        after,
        delta@,
    );
}

/// The audio goes on with the chunk, each sample times its gain.
pub open spec fn goes_on_with<N: Scalar>(
    before: Seq<N>,
    chunk: Seq<N>,
    gain: Seq<N>,
    after: Seq<N>,
) -> bool {
    &&& after.len() == before.len() + chunk.len()
    &&& before.is_prefix_of(after)
    &&& forall|i: int|
        0 <= i < chunk.len() ==> after[before.len() + i] == (#[trigger] chunk[i]).mul_spec(gain[i])
}

proof fn lemma_goes_on_with<N: Scalar>(
    before: Seq<N>,
    chunk: Seq<N>,
    gain: Seq<N>,
    after: Seq<N>,
)
    requires
        before.is_prefix_of(after),
        after.skip(before.len() as int) == crate::streaming::scaled_by(chunk, gain),
    ensures
        goes_on_with(before, chunk, gain, after),
{
    let added = after.skip(before.len() as int);
    assert(added.len() == chunk.len());
    assert forall|i: int| 0 <= i < chunk.len() implies after[before.len() + i] == (
    #[trigger] chunk[i]).mul_spec(gain[i]) by {
        assert(added[i] == after[before.len() + i]);
    }
}

/// What the envelope leaves ramps.
proof fn lemma_opened_ramps<N: Scalar>(
    env: EnvelopeView<N>,
    on: bool,
    n: nat,
    gain: Seq<N>,
    after: EnvelopeView<N>,
)
    requires
        is_opened(env, on, n, gain, after),
        lawful::<N>(),
    ensures
        ramps(env.attack, env.release, on, env.value, gain),
        after.value == if gain.len() == 0 {
            env.value
        } else {
            gain.last()
        },
{
    let (c, t) = (env.share(on), crate::gating::goal::<N>(on));
    assert forall|i: int| 0 <= i < gain.len() implies #[trigger] gain[i] == stepped(
        env.attack,
        env.release,
        on,
        if i == 0 {
            env.value
        } else {
            gain[i - 1]
        },
    ) by {
        assert(gain[i] == glide(env.value, c, t, (i + 1) as nat));
        if i == 0 {
            assert(glide(env.value, c, t, 0) == env.value);
        } else {
            assert(gain[i - 1] == glide(env.value, c, t, i as nat));
        }
    }
    if gain.len() == 0 {
        assert(glide(env.value, c, t, 0) == env.value);
    } else {
        assert(gain.last() == glide(env.value, c, t, gain.len()));
    }
}

/// Each gain is one step from the one before, the first from `start`.
pub open spec fn ramps<N: Scalar>(attack: N, release: N, on: bool, start: N, gain: Seq<N>) -> bool {
    forall|i: int|
        0 <= i < gain.len() ==> #[trigger] gain[i] == stepped(
            attack,
            release,
            on,
            if i == 0 {
                start
            } else {
                gain[i - 1]
            },
        )
}

/// Without stages each sample leaves at once, times its gain.
pub proof fn lemma_plain_chunk_is_scaled<
    N: Scalar,
    V: Fn(&Vec<N>, &Vec<N>, u32) -> Result<VadReply<N>, EmbeddingError>,
    R: Fn(&Vec<N>) -> Result<(Vec<N>, N), EmbeddingError>,
    S: Fn(Vec<N>) -> bool,
    C: Fn(bool) -> Received<N>,
    P: Fn(&Vec<N>) -> Option<N>,
    O: Fn(&Vec<N>) -> Result<OverlapReply<N>, EmbeddingError>,
    M: Fn(&[N], &[N], &Vec<Tensor<N>>) -> Result<TseReply<N>, TseError>,
    D: Fn(&Vec<N>) -> Result<Vec<N>, EmbeddingError>,
    I: Fn() -> usize,
    J: Fn(&Vec<N>) -> Result<Vec<N>, String>,
    E: Fn(N) -> N,
    Q: Fn(N) -> N,
    W: Fn(N) -> N,
    T: Fn(N) -> N,
    F: Fn(Memory),
>(
    kit: Kit<N, V, R, S, C, P, O, M, D, I, J, E, Q, W, T, F>,
    chain: &mut Chain<N>,
    chunk: &[N],
    frame: &[N],
    gain: Vec<N>,
    config: StreamingConfig<N>,
    out: &mut StreamingOutput<N>,
)
    requires
        call_ensures(
            Kit::<N, V, R, S, C, P, O, M, D, I, J, E, Q, W, T, F>::emit,
            (&kit, chain, chunk, frame, &gain, &config, out),
            Ok(()),
        ),
        lawful::<N>(),
        old(chain)@.tse is None && old(chain)@.dfn3 is None,
    ensures
        goes_on_with(old(out)@.audio, chunk@, gain@, final(out)@.audio),
        final(out)@.tse_applied == old(out)@.tse_applied,
{
    lemma_goes_on_with(old(out)@.audio, chunk@, gain@, final(out)@.audio);
}

/// Extraction is conditioned on the mean of the anchors; learned embeddings do not matter.
pub proof fn lemma_extraction_knows_the_anchors<N: Scalar>(pool: EmbeddingPool<N>, c: Vec<N>)
    requires
        call_ensures(tse_cond_embedding::<N>, (&pool,), Ok(c)),
        lawful::<N>(),
    ensures
        c@.len() == 192,
        pool@.anchors.len() > 0,
        are_column_means(pool@.anchors, c@),
{
    crate::laws::score::lemma_centroid_means(pool@.anchors);
}

} // verus!
