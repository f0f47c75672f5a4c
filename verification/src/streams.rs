//! Streams of audio: how they are cut into pushes does not matter, and they agree
//! with the processing of whole recordings.
use crate::assembly::{
    is_bridged, is_bridged_start, is_fresh_engine, is_started, PipelineComponents,
    StreamingPipeline,
};
use crate::chain::Memory;
use crate::config::StreamingConfig;
use crate::embedding::EmbeddingError;
use crate::engine::{joined_output, outputs, shortened, Intake, Station};
use crate::enrollment::{
    centroid, is_anchor_score, is_distance, is_learnable, is_match, is_nearest, EmbeddingPool,
    PoolView,
};
use crate::gating::{
    are_cosines, at_most, impostor_scores, is_best_cosine, is_cosine, is_normalised, is_top,
    GateConfig,
};
use crate::overlap::OverlapReply;
use crate::refresh::Received;
use crate::scalar::{dot, gt, highest, lawful, le, lt, num, peak, pick, Scalar};
use crate::decisions::settled;
use crate::offline::{is_offline_config, is_recorded, ProcessResult};
use crate::pipeline::{
    is_refresh_score, is_refreshed, logged, smoothed, AutoLearnEvent, PipelineConfig, PipelineError,
    ScoreState, AS_NORM_TOP_K,
};
use crate::streaming::{
    is_opened, no_output, scaled_by, told, FrameStart, Kit, Moment, OutputView, StreamingOutput,
    StreamingState,
};
use crate::tse::{Tensor, TseError, TseReply};
use crate::tse_stage::is_padded;
use crate::vad::{is_scored, VadReply, VadView, CHUNK_SAMPLES_16K};
use vstd::prelude::*;
use vstd::std_specs::ops::{DivSpec, SubSpec};

verus! {

// ---------------------------------------------------------------------
// Standing alike
// ---------------------------------------------------------------------
/// One argument has one result.
pub open spec fn is_function<N, F: Fn(N) -> N>(f: F) -> bool {
    forall|x: N, a: N, b: N| #[trigger]
        call_ensures(f, (x,), a) && #[trigger] call_ensures(f, (x,), b) ==> a == b
}

proof fn lemma_cosine_repeats<N: Scalar, F: Fn(N) -> N>(
    a: Seq<N>,
    b: Seq<N>,
    sqrt: F,
    r1: N,
    r2: N,
)
    requires
        is_function(sqrt),
        is_cosine(a, b, sqrt, r1),
        is_cosine(a, b, sqrt, r2),
    ensures
        r1 == r2,
{
}

proof fn lemma_cosines_repeat<N: Scalar, F: Fn(N) -> N>(
    emb: Seq<N>,
    pool: Seq<Vec<N>>,
    sqrt: F,
    s1: Seq<N>,
    s2: Seq<N>,
)
    requires
        is_function(sqrt),
        are_cosines(emb, pool, sqrt, s1),
        are_cosines(emb, pool, sqrt, s2),
    ensures
        s1 == s2,
{
    assert forall|i: int| 0 <= i < s1.len() implies s1[i] == s2[i] by {
        assert(is_cosine(emb, pool[i]@, sqrt, s1[i]));
        assert(is_cosine(emb, pool[i]@, sqrt, s2[i]));
        lemma_cosine_repeats(emb, pool[i]@, sqrt, s1[i], s2[i]);
    }
    assert(s1 =~= s2);
}

proof fn lemma_match_repeats<N: Scalar, F: Fn(N) -> N>(
    emb: Seq<N>,
    pool: PoolView<N>,
    sqrt: F,
    r1: N,
    r2: N,
)
    requires
        is_function(sqrt),
        is_match(emb, pool, sqrt, r1),
        is_match(emb, pool, sqrt, r2),
    ensures
        r1 == r2,
{
    let (a1, l1) = choose|a: N, l: N|
        {
            &&& #[trigger] is_anchor_score(emb, pool.anchors, sqrt, a)
            &&& #[trigger] is_best_cosine(emb, pool.auto_learn, sqrt, l)
            &&& r1 == pick(a, l)
        };
    let (a2, l2) = choose|a: N, l: N|
        {
            &&& #[trigger] is_anchor_score(emb, pool.anchors, sqrt, a)
            &&& #[trigger] is_best_cosine(emb, pool.auto_learn, sqrt, l)
            &&& r2 == pick(a, l)
        };
    if pool.anchors.len() > 0 {
        lemma_cosine_repeats(emb, centroid(pool.anchors), sqrt, a1, a2);
    }
    let s1 = choose|s: Seq<N>| #[trigger]
        are_cosines(emb, pool.auto_learn, sqrt, s) && l1 == peak(s, s.len());
    let s2 = choose|s: Seq<N>| #[trigger]
        are_cosines(emb, pool.auto_learn, sqrt, s) && l2 == peak(s, s.len());
    lemma_cosines_repeat(emb, pool.auto_learn, sqrt, s1, s2);
}

proof fn lemma_learnable_repeats<N: Scalar, F: Fn(N) -> N>(
    emb: Seq<N>,
    pool: PoolView<N>,
    sqrt: F,
    r1: bool,
    r2: bool,
)
    requires
        is_function(sqrt),
        is_learnable(emb, pool, sqrt, r1),
        is_learnable(emb, pool, sqrt, r2),
    ensures
        r1 == r2,
{
    if pool.anchors.len() > 0 {
        let anchors = pool.anchors;
        let limit = pool.config.anchor_distance_threshold;
        let d1 = choose|d: N| #[trigger] is_distance(emb, anchors, sqrt, d) && r1 == le(d, limit);
        let d2 = choose|d: N| #[trigger] is_distance(emb, anchors, sqrt, d) && r2 == le(d, limit);
        let b1 = choose|b: N| #[trigger]
            is_nearest(emb, anchors, sqrt, b) && d1 == num::<N>(1).sub_spec(b);
        let b2 = choose|b: N| #[trigger]
            is_nearest(emb, anchors, sqrt, b) && d2 == num::<N>(1).sub_spec(b);
        let s1 = choose|s: Seq<N>| #[trigger]
            are_cosines(emb, anchors, sqrt, s) && b1 == highest(s, s.len());
        let s2 = choose|s: Seq<N>| #[trigger]
            are_cosines(emb, anchors, sqrt, s) && b2 == highest(s, s.len());
        lemma_cosines_repeat(emb, anchors, sqrt, s1, s2);
    }
}

proof fn lemma_normalised_repeats<N: Scalar, F: Fn(N) -> N>(
    raw: N,
    top: Seq<N>,
    eps: N,
    sqrt: F,
    r1: N,
    r2: N,
)
    requires
        is_function(sqrt),
        is_normalised(raw, top, eps, sqrt, r1),
        is_normalised(raw, top, eps, sqrt, r2),
    ensures
        r1 == r2,
{
}

proof fn lemma_score_repeats<N: Scalar, F: Fn(N) -> N>(
    emb: Seq<N>,
    cs: N,
    cohort: Seq<Vec<N>>,
    use_as_norm: bool,
    eps: N,
    sqrt: F,
    s1: N,
    s2: N,
)
    requires
        is_function(sqrt),
        is_refresh_score(emb, cs, cohort, use_as_norm, eps, sqrt, s1),
        is_refresh_score(emb, cs, cohort, use_as_norm, eps, sqrt, s2),
    ensures
        s1 == s2,
{
    if use_as_norm && cohort.len() > 0 {
        let x = dot(emb, emb, emb.len());
        let norm = choose|norm: N| #[trigger] call_ensures(sqrt, (x,), norm);
        let scores = impostor_scores(emb, cohort, num::<N>(1).div_spec(norm));
        let k = at_most(AS_NORM_TOP_K as nat, cohort.len());
        if lt(norm, eps) || k == 0 {
        } else if k == scores.len() {
            lemma_normalised_repeats(cs, scores, eps, sqrt, s1, s2);
        } else {
            let (t1, r1) = choose|t: Seq<N>, r: Seq<N>| #[trigger]
                is_top(scores, k, t, r) && is_normalised(cs, t, eps, sqrt, s1);
            let (t2, r2) = choose|t: Seq<N>, r: Seq<N>| #[trigger]
                is_top(scores, k, t, r) && is_normalised(cs, t, eps, sqrt, s2);
            assert(t1 == t2);
            lemma_normalised_repeats(cs, t1, eps, sqrt, s1, s2);
        }
    }
}

/// A refresh has one outcome.
proof fn lemma_refresh_repeats<N: Scalar, F: Fn(N) -> N, G: Fn(N) -> N>(
    before: PoolView<N>,
    score: ScoreState<N>,
    emb: Vec<N>,
    f0_mu: N,
    frame_idx: usize,
    speech_ms: N,
    cohort: Seq<Vec<N>>,
    gate: GateConfig<N>,
    enable: bool,
    may_seed: bool,
    alpha: N,
    eps: N,
    sqrt: F,
    exp: G,
    pool1: PoolView<N>,
    score1: ScoreState<N>,
    event1: Option<AutoLearnEvent<N>>,
    pool2: PoolView<N>,
    score2: ScoreState<N>,
    event2: Option<AutoLearnEvent<N>>,
)
    requires
        is_function(sqrt),
        is_function(exp),
        is_refreshed(
            before,
            score,
            emb,
            f0_mu,
            frame_idx,
            speech_ms,
            cohort,
            gate,
            enable,
            may_seed,
            alpha,
            eps,
            sqrt,
            exp,
            pool1,
            score1,
            event1,
        ),
        is_refreshed(
            before,
            score,
            emb,
            f0_mu,
            frame_idx,
            speech_ms,
            cohort,
            gate,
            enable,
            may_seed,
            alpha,
            eps,
            sqrt,
            exp,
            pool2,
            score2,
            event2,
        ),
    ensures
        pool1 == pool2,
        score1 == score2,
        event1 == event2,
{
    lemma_match_repeats(emb@, before, sqrt, score1.last_cs, score2.last_cs);
    let use_as_norm = gate.use_as_norm;
    let f1 = choose|fresh: N|
        {
            &&& #[trigger] is_refresh_score(
                emb@,
                score1.last_cs,
                cohort,
                use_as_norm,
                eps,
                sqrt,
                fresh,
            )
            &&& score1.last_score == smoothed(score.last_score, fresh, alpha)
        };
    let f2 = choose|fresh: N|
        {
            &&& #[trigger] is_refresh_score(
                emb@,
                score2.last_cs,
                cohort,
                use_as_norm,
                eps,
                sqrt,
                fresh,
            )
            &&& score2.last_score == smoothed(score.last_score, fresh, alpha)
        };
    lemma_score_repeats(emb@, score1.last_cs, cohort, use_as_norm, eps, sqrt, f1, f2);
    assert(score1 == score2);
    if enable && is_learnable(emb@, before, sqrt, true) && is_learnable(
        emb@,
        before,
        sqrt,
        false,
    ) {
        lemma_learnable_repeats(emb@, before, sqrt, true, false);
    }
}

/// An engine without stages and without a worker.
pub open spec fn is_plain<N: Scalar>(s: StreamingState<N>) -> bool {
    &&& s.channel is None
    &&& !s.chain@.active()
    &&& s.chain@.gains.len() == 0
}

/// Two engines, both without stages and without a worker, hold the same.
pub open spec fn is_alike<N: Scalar>(a: StreamingState<N>, b: StreamingState<N>) -> bool {
    &&& is_plain(a)
    &&& is_plain(b)
    &&& a.speech@ == b.speech@
    &&& a.score == b.score
    &&& a.gate@ == b.gate@
    &&& a.gate.rules() == b.gate.rules()
    &&& a.envelope@ == b.envelope@
    &&& a.current_decision == b.current_decision
    &&& a.frame_idx == b.frame_idx
    &&& a.audio_samples_emitted == b.audio_samples_emitted
    &&& a.fast_f0_cue@ == b.fast_f0_cue@
    &&& a.turn == b.turn
    &&& a.chain@ == b.chain@
}

/// Two moments at which engine, voice activity and pool hold the same.
pub open spec fn are_alike<N: Scalar>(a: Moment<N>, b: Moment<N>) -> bool {
    &&& is_alike(a.state, b.state)
    &&& a.vad == b.vad
    &&& a.pool == b.pool
}

/// Two configurations with the same rules, rates and records. They may differ in
/// what only stages ask for.
pub open spec fn same_rules<N>(a: StreamingConfig<N>, b: StreamingConfig<N>) -> bool {
    &&& a.pipeline == b.pipeline
    &&& a.gate == b.gate
    &&& a.audio_sample_rate == b.audio_sample_rate
    &&& a.diagnostics == b.diagnostics
}

impl<
    N: Scalar,
    V: Fn(&Vec<N>, &Vec<N>, u32) -> Result<VadReply<N>, EmbeddingError>,
    R: Fn(&Vec<N>) -> Result<(Vec<N>, N), EmbeddingError>,
    S: Fn(Vec<N>) -> bool,
    C: Fn(bool) -> Received<N>,
    P: Fn(&Vec<N>) -> Option<N>,
    O: Fn(&Vec<N>) -> Result<OverlapReply<N>, EmbeddingError>,
    M: Fn(&[N], &[N], &Vec<Tensor<N>>) -> Result<TseReply<N>, TseError>,
    D: Fn(&Vec<N>) -> Result<Vec<N>, EmbeddingError>,
    I: Fn() -> usize,
    J: Fn(&Vec<N>) -> Result<Vec<N>, String>,
    E: Fn(N) -> N,
    Q: Fn(N) -> N,
    W: Fn(N) -> N,
    T: Fn(N) -> N,
    F: Fn(Memory),
> Kit<N, V, R, S, C, P, O, M, D, I, J, E, Q, W, T, F> {
    /// Frames repeat: from moments that are alike, one frame leads to moments that
    /// are alike and gives one output.
    pub open spec fn is_repeatable(
        &self,
        cohort: Seq<Vec<N>>,
        config: StreamingConfig<N>,
    ) -> bool {
        forall|
            a1: Moment<N>,
            a2: Moment<N>,
            chunk: Seq<N>,
            frame: Seq<N>,
            b1: Moment<N>,
            b2: Moment<N>,
            d1: OutputView<N>,
            d2: OutputView<N>,
        |
            are_alike(a1, a2) && #[trigger] self.is_stepped(
                a1,
                chunk,
                frame,
                cohort,
                config,
                b1,
                d1,
            ) && #[trigger] self.is_stepped(a2, chunk, frame, cohort, config, b2, d2) ==> are_alike(
                b1,
                b2,
            ) && d1 == d2
    }

    // -----------------------------------------------------------------
    // Configurations that differ in what only stages ask for
    // -----------------------------------------------------------------
    /// A frame leaves an engine without stages and without a worker as one.
    proof fn lemma_step_stays_plain(
        &self,
        before: Moment<N>,
        chunk: Seq<N>,
        frame: Seq<N>,
        cohort: Seq<Vec<N>>,
        config: StreamingConfig<N>,
        after: Moment<N>,
        delta: OutputView<N>,
    )
        requires
            lawful::<N>(),
            is_plain(before.state),
            self.is_stepped(before, chunk, frame, cohort, config, after, delta),
        ensures
            is_plain(after.state),
    {
    }

    /// Folding an embedding in asks for the rules only.
    proof fn lemma_fold_under(
        &self,
        before: StreamingState<N>,
        pool: PoolView<N>,
        out: OutputView<N>,
        emb: Vec<N>,
        f0_mu: N,
        frame_idx: usize,
        cohort: Seq<Vec<N>>,
        c1: StreamingConfig<N>,
        c2: StreamingConfig<N>,
        after: StreamingState<N>,
        pool_after: PoolView<N>,
        out_after: OutputView<N>,
        r: Result<(), PipelineError>,
    )
        requires
            same_rules(c1, c2),
            self.is_folded(
                before,
                pool,
                out,
                emb,
                f0_mu,
                frame_idx,
                false,
                cohort,
                c1,
                after,
                pool_after,
                out_after,
                r,
            ),
        ensures
            self.is_folded(
                before,
                pool,
                out,
                emb,
                f0_mu,
                frame_idx,
                false,
                cohort,
                c2,
                after,
                pool_after,
                out_after,
                r,
            ),
    {
    }

    /// Serving a window asks for the rules only.
    proof fn lemma_serve_under(
        &self,
        window: Option<Vec<N>>,
        before: StreamingState<N>,
        pool: PoolView<N>,
        out: OutputView<N>,
        shrunk: bool,
        cohort: Seq<Vec<N>>,
        c1: StreamingConfig<N>,
        c2: StreamingConfig<N>,
        after: StreamingState<N>,
        pool_after: PoolView<N>,
        out_after: OutputView<N>,
        r: Result<(), PipelineError>,
    )
        requires
            same_rules(c1, c2),
            before.channel is None,
            self.is_served(
                window,
                before,
                pool,
                out,
                shrunk,
                cohort,
                c1,
                after,
                pool_after,
                out_after,
                r,
            ),
        ensures
            self.is_served(
                window,
                before,
                pool,
                out,
                shrunk,
                cohort,
                c2,
                after,
                pool_after,
                out_after,
                r,
            ),
    {
        if window is Some {
            let w = window->0@;
            let outcome = choose|outcome: Result<(Vec<N>, N), EmbeddingError>|
                {
                    &&& #[trigger] self.measured(w, outcome)
                    &&& match outcome {
                        Err(e) => {
                            &&& r == Err::<(), PipelineError>(PipelineError::Embedding(e))
                            &&& after == before
                            &&& pool_after == pool
                            &&& out_after == out
                        },
                        Ok((emb, f0_mu)) => exists|mid: StreamingState<N>|
                            {
                                &&& #[trigger] self.is_folded(
                                    before,
                                    pool,
                                    out,
                                    emb,
                                    f0_mu,
                                    before.frame_idx,
                                    false,
                                    cohort,
                                    c1,
                                    mid,
                                    pool_after,
                                    out_after,
                                    r,
                                )
                                &&& after == if r is Ok {
                                    StreamingState { turn: told(mid.turn, shrunk), ..mid }
                                } else {
                                    mid
                                }
                            },
                    }
                };
            assert(self.measured(w, outcome));
            if let Ok((emb, f0_mu)) = outcome {
                let mid = choose|mid: StreamingState<N>|
                    {
                        &&& #[trigger] self.is_folded(
                            before,
                            pool,
                            out,
                            emb,
                            f0_mu,
                            before.frame_idx,
                            false,
                            cohort,
                            c1,
                            mid,
                            pool_after,
                            out_after,
                            r,
                        )
                        &&& after == if r is Ok {
                            StreamingState { turn: told(mid.turn, shrunk), ..mid }
                        } else {
                            mid
                        }
                    };
                self.lemma_fold_under(
                    before,
                    pool,
                    out,
                    emb,
                    f0_mu,
                    before.frame_idx,
                    cohort,
                    c1,
                    c2,
                    mid,
                    pool_after,
                    out_after,
                    r,
                );
            }
        }
    }

    /// A frame without stages and worker asks for the rules only.
    proof fn lemma_step_under(
        &self,
        before: Moment<N>,
        chunk: Seq<N>,
        frame: Seq<N>,
        cohort: Seq<Vec<N>>,
        c1: StreamingConfig<N>,
        c2: StreamingConfig<N>,
        after: Moment<N>,
        delta: OutputView<N>,
    )
        requires
            lawful::<N>(),
            same_rules(c1, c2),
            is_plain(before.state),
            self.is_stepped(before, chunk, frame, cohort, c1, after, delta),
        ensures
            self.is_stepped(before, chunk, frame, cohort, c2, after, delta),
    {
        let (begun, f, served, served_pool, served_out, served_r, asked, asked_out, asked_r) =
            choose|
            begun: StreamingState<N>,
            f: FrameStart<N>,
            served: StreamingState<N>,
            served_pool: PoolView<N>,
            served_out: OutputView<N>,
            served_r: Result<(), PipelineError>,
            asked: StreamingState<N>,
            asked_out: OutputView<N>,
            asked_r: Result<(), PipelineError>,
        |
            {
                &&& #[trigger] self.is_opening(before, frame, c1, after.vad, begun, f)
                &&& served_r is Ok
                &&& #[trigger] self.is_served(
                    f.window,
                    begun,
                    before.pool,
                    no_output(),
                    f.turn.shrunk,
                    cohort,
                    c1,
                    served,
                    served_pool,
                    served_out,
                    served_r,
                )
                &&& asked_r is Ok
                &&& #[trigger] self.is_polled(
                    served,
                    served_pool,
                    served_out,
                    cohort,
                    c1,
                    asked,
                    after.pool,
                    asked_out,
                    asked_r,
                )
                &&& self.is_finished(
                    asked,
                    chunk,
                    frame,
                    f.fm_fast,
                    asked_out,
                    c1,
                    after.state,
                    delta,
                )
            };
        assert(self.is_opening(before, frame, c2, after.vad, begun, f));
        self.lemma_serve_under(
            f.window,
            begun,
            before.pool,
            no_output(),
            f.turn.shrunk,
            cohort,
            c1,
            c2,
            served,
            served_pool,
            served_out,
            served_r,
        );
        assert(served.channel is None);
        assert(self.is_polled(
            served,
            served_pool,
            served_out,
            cohort,
            c2,
            asked,
            after.pool,
            asked_out,
            asked_r,
        ));
        let (decided, said, on, gain) = choose|
            decided: StreamingState<N>,
            said: OutputView<N>,
            on: bool,
            gain: Seq<N>,
        |
            {
                &&& #[trigger] self.is_decided(
                    asked,
                    f.fm_fast,
                    asked_out,
                    c1,
                    decided,
                    said,
                    on,
                )
                &&& #[trigger] is_opened(
                    decided.envelope@,
                    on,
                    chunk.len(),
                    gain,
                    after.state.envelope@,
                )
                &&& after.state == (StreamingState {
                    envelope: after.state.envelope,
                    chain: after.state.chain,
                    frame_idx: (asked.frame_idx + 1) as usize,
                    audio_samples_emitted: (asked.audio_samples_emitted + chunk.len()) as usize,
                    ..decided
                })
                &&& delta == (OutputView {
                    audio: delta.audio,
                    tse_applied: if asked.chain@.active() {
                        asked.chain@.tse is Some
                    } else {
                        asked_out.tse_applied
                    },
                    ..said
                })
                &&& asked_out.audio.is_prefix_of(delta.audio)
                &&& lawful::<N>() ==> self.is_emitted(
                    asked.chain@,
                    chunk,
                    frame,
                    gain,
                    c1,
                    after.state.chain@,
                    delta.audio.skip(asked_out.audio.len() as int),
                )
            };
        assert(self.is_decided(asked, f.fm_fast, asked_out, c2, decided, said, on));
        let mid = asked.chain@;
        assert(self.is_switched(mid, frame, c2, mid, Ok::<(), PipelineError>(())));
        assert(self.is_emitted(
            asked.chain@,
            chunk,
            frame,
            gain,
            c2,
            after.state.chain@,
            delta.audio.skip(asked_out.audio.len() as int),
        ));
        assert(self.is_finished(
            asked,
            chunk,
            frame,
            f.fm_fast,
            asked_out,
            c2,
            after.state,
            delta,
        ));
    }

    /// A run without stages and worker asks for the rules only.
    proof fn lemma_run_under(
        &self,
        s: Seq<Station<N>>,
        d: Seq<OutputView<N>>,
        cohort: Seq<Vec<N>>,
        c1: StreamingConfig<N>,
        c2: StreamingConfig<N>,
        n: nat,
    )
        requires
            lawful::<N>(),
            same_rules(c1, c2),
            is_plain(s[0].at.state),
            self.is_run(false, s, d, cohort, c1),
            n <= d.len(),
        ensures
            is_plain(s[n as int].at.state),
            forall|i: int|
                0 <= i < n ==> self.is_turned(
                    false,
                    s[i],
                    s[i + 1],
                    #[trigger] d[i],
                    cohort,
                    c2,
                ),
        decreases n,
    {
        if n > 0 {
            let i = n - 1;
            self.lemma_run_under(s, d, cohort, c1, c2, i as nat);
            assert(self.is_turned(false, s[i], s[i + 1], d[i], cohort, c1));
            let (m, frame) = choose|m: usize, frame: Vec<N>|
                {
                    &&& #[trigger] self.is_cut(false, s[i].ring, m, frame)
                    &&& s[i + 1].ring == s[i].ring.skip(m as int)
                    &&& self.is_stepped(
                        s[i].at,
                        s[i].ring.take(m as int),
                        frame@,
                        cohort,
                        c1,
                        s[i + 1].at,
                        d[i],
                    )
                };
            let chunk = s[i].ring.take(m as int);
            self.lemma_step_under(
                s[i].at,
                chunk,
                frame@,
                cohort,
                c1,
                c2,
                s[i + 1].at,
                d[i],
            );
            self.lemma_step_stays_plain(
                s[i].at,
                chunk,
                frame@,
                cohort,
                c1,
                s[i + 1].at,
                d[i],
            );
            assert(self.is_cut(false, s[i].ring, m, frame));
            assert(self.is_turned(false, s[i], s[i + 1], d[i], cohort, c2));
        }
    }

    /// A way without stages and worker asks for the rules only.
    proof fn lemma_way_under(
        &self,
        a: Station<N>,
        b: Station<N>,
        out: OutputView<N>,
        cohort: Seq<Vec<N>>,
        c1: StreamingConfig<N>,
        c2: StreamingConfig<N>,
    )
        requires
            lawful::<N>(),
            same_rules(c1, c2),
            is_plain(a.at.state),
            self.is_way(false, a, b, out, cohort, c1),
        ensures
            is_plain(b.at.state),
            self.is_way(false, a, b, out, cohort, c2),
    {
        let (s, d) = choose|s: Seq<Station<N>>, d: Seq<OutputView<N>>|
            {
                &&& #[trigger] self.is_run(false, s, d, cohort, c1)
                &&& s[0] == a
                &&& s.last() == b
                &&& out == outputs(d, d.len())
            };
        self.lemma_run_under(s, d, cohort, c1, c2, d.len());
        assert(self.is_run(false, s, d, cohort, c2));
    }

    /// A pass without stages and worker asks for the rules only.
    proof fn lemma_pass_under<B: Fn(u32, u32) -> Result<(), String>>(
        &self,
        audio: Seq<N>,
        c1: StreamingConfig<N>,
        c2: StreamingConfig<N>,
        bridge: B,
        before: (VadView<N>, PoolView<N>),
        cohort: Seq<Vec<N>>,
        after: (VadView<N>, PoolView<N>),
        out: OutputView<N>,
    )
        requires
            lawful::<N>(),
            same_rules(c1, c2),
            !c1.dual(),
            self.is_pass(audio, c1, bridge, before, cohort, after, out),
        ensures
            self.is_pass(audio, c2, bridge, before, cohort, after, out),
    {
        let (i, s, m, h, e, t) = choose|
            intake: Intake<N>,
            state: StreamingState<N>,
            mid: Station<N>,
            head: OutputView<N>,
            end: Station<N>,
            tail: OutputView<N>,
        |
            {
                &&& #[trigger] is_started(c1, bridge, self.exp, Ok((intake, state)))
                &&& #[trigger] self.is_way(
                    false,
                    Station { ring: audio, at: Moment { state, vad: before.0, pool: before.1 } },
                    mid,
                    head,
                    cohort,
                    c1,
                )
                &&& self.is_dry(false, mid.ring)
                &&& #[trigger] self.is_flushed(false, mid, end, tail, cohort, c1)
                &&& out == joined_output(head, tail)
                &&& after == (end.at.vad, end.at.pool)
            };
        let x = Station { ring: audio, at: Moment { state: s, vad: before.0, pool: before.1 } };
        self.lemma_way_under(x, m, h, cohort, c1, c2);
        let (padded, ran, ran_out, drained, drained_out, whole) = choose|
            padded: Seq<N>,
            ran: Station<N>,
            ran_out: OutputView<N>,
            drained: StreamingState<N>,
            drained_out: OutputView<N>,
            whole: OutputView<N>,
        |
            {
                &&& self.is_topped_up(false, m.ring, padded)
                &&& #[trigger] self.is_way(
                    false,
                    Station { ring: padded, at: m.at },
                    ran,
                    ran_out,
                    cohort,
                    c1,
                )
                &&& self.is_dry(false, ran.ring)
                &&& #[trigger] self.is_drained(
                    ran.at.state,
                    ran.at.pool,
                    ran_out,
                    cohort,
                    c1,
                    drained,
                    e.at.pool,
                    drained_out,
                )
                &&& e.ring == ran.ring
                &&& e.at.vad == ran.at.vad
                &&& e.at.state == (StreamingState { chain: e.at.state.chain, ..drained })
                &&& #[trigger] self.is_emptied(
                    drained.chain@,
                    drained_out,
                    e.at.state.chain@,
                    whole,
                )
                &&& t == (OutputView {
                    audio: shortened(whole.audio, Self::surplus(false, m.ring, padded)),
                    ..whole
                })
            };
        self.lemma_way_under(Station { ring: padded, at: m.at }, ran, ran_out, cohort, c1, c2);
        assert(self.is_drained(
            ran.at.state,
            ran.at.pool,
            ran_out,
            cohort,
            c2,
            drained,
            e.at.pool,
            drained_out,
        ));
        assert(self.is_emptied(drained.chain@, drained_out, e.at.state.chain@, whole));
        assert(self.is_flushed(false, m, e, t, cohort, c2));
        assert(is_started(c2, bridge, self.exp, Ok((i, s)))) by {
            assert(is_bridged_start(c1, bridge, self.exp, Ok((i, s))));
            let bridged = choose|bridged: Result<(), String>|
                {
                    &&& #[trigger] is_bridged(
                        c1.audio_sample_rate,
                        c1.pipeline.sample_rate,
                        bridge,
                        bridged,
                    )
                    &&& bridged is Ok
                };
            assert(is_bridged(
                c2.audio_sample_rate,
                c2.pipeline.sample_rate,
                bridge,
                bridged,
            ));
            assert(is_fresh_engine(c2, self.exp, s));
        }
        assert(self.is_way(
            c2.dual(),
            Station { ring: audio, at: Moment { state: s, vad: before.0, pool: before.1 } },
            m,
            h,
            cohort,
            c2,
        ));
        assert(self.is_flushed(c2.dual(), m, e, t, cohort, c2));
    }

    // -----------------------------------------------------------------
    // Frames repeat
    // -----------------------------------------------------------------
    /// Voice activity, the embedding model, the pitch estimator and the functions
    /// beyond arithmetic answer one question in one way.
    pub open spec fn answers_alike(&self) -> bool {
        &&& forall|
            a1: &Vec<N>,
            b1: &Vec<N>,
            a2: &Vec<N>,
            b2: &Vec<N>,
            c: u32,
            r1: Result<VadReply<N>, EmbeddingError>,
            r2: Result<VadReply<N>, EmbeddingError>,
        |
            a1@ == a2@ && b1@ == b2@ && #[trigger] call_ensures(self.vad, (a1, b1, c), r1)
                && #[trigger] call_ensures(self.vad, (a2, b2, c), r2) ==> r1 == r2
        &&& forall|
            v1: &Vec<N>,
            v2: &Vec<N>,
            r1: Result<(Vec<N>, N), EmbeddingError>,
            r2: Result<(Vec<N>, N), EmbeddingError>,
        |
            v1@ == v2@ && #[trigger] call_ensures(self.embed, (v1,), r1) && #[trigger] call_ensures(
                self.embed,
                (v2,),
                r2,
            ) ==> r1 == r2
        &&& forall|v1: &Vec<N>, v2: &Vec<N>, r1: Option<N>, r2: Option<N>|
            v1@ == v2@ && #[trigger] call_ensures(self.pitch, (v1,), r1) && #[trigger] call_ensures(
                self.pitch,
                (v2,),
                r2,
            ) ==> r1 == r2
        &&& is_function(self.exp)
        &&& is_function(self.sqrt)
    }

    /// A frame begins in one way.
    proof fn lemma_opening_repeats(
        &self,
        a1: Moment<N>,
        a2: Moment<N>,
        frame: Seq<N>,
        config: StreamingConfig<N>,
        v1: VadView<N>,
        b1: StreamingState<N>,
        f1: FrameStart<N>,
        v2: VadView<N>,
        b2: StreamingState<N>,
        f2: FrameStart<N>,
    )
        requires
            lawful::<N>(),
            self.answers_alike(),
            are_alike(a1, a2),
            self.is_opening(a1, frame, config, v1, b1, f1),
            self.is_opening(a2, frame, config, v2, b2, f2),
        ensures
            v1 == v2,
            is_alike(b1, b2),
            f1.now_speech == f2.now_speech,
            f1.fm_fast == f2.fm_fast,
            f1.turn == f2.turn,
            f1.window is Some <==> f2.window is Some,
            f1.window matches Some(w) ==> w@ == f2.window->0@,
    {
        let threshold = config.pipeline.vad_threshold;
        let p1 = choose|p: N|
            {
                &&& #[trigger] is_scored(a1.vad, frame, self.vad, v1, Ok(p))
                &&& f1.now_speech == gt(p, threshold)
            };
        let p2 = choose|p: N|
            {
                &&& #[trigger] is_scored(a2.vad, frame, self.vad, v2, Ok(p))
                &&& f2.now_speech == gt(p, threshold)
            };
        assert(p1 == p2 && v1 == v2);
        assert(f1.fm_fast == f2.fm_fast);
        assert(b1.turn == b2.turn);
    }

    /// A window is served in one way.
    proof fn lemma_serve_repeats(
        &self,
        w1: Option<Vec<N>>,
        w2: Option<Vec<N>>,
        b1: StreamingState<N>,
        b2: StreamingState<N>,
        pool: PoolView<N>,
        shrunk: bool,
        cohort: Seq<Vec<N>>,
        config: StreamingConfig<N>,
        s1: StreamingState<N>,
        q1: PoolView<N>,
        o1: OutputView<N>,
        r1: Result<(), PipelineError>,
        s2: StreamingState<N>,
        q2: PoolView<N>,
        o2: OutputView<N>,
        r2: Result<(), PipelineError>,
    )
        requires
            lawful::<N>(),
            self.answers_alike(),
            is_alike(b1, b2),
            w1 is Some <==> w2 is Some,
            w1 matches Some(w) ==> w@ == w2->0@,
            r1 is Ok,
            r2 is Ok,
            self.is_served(
                w1,
                b1,
                pool,
                no_output(),
                shrunk,
                cohort,
                config,
                s1,
                q1,
                o1,
                r1,
            ),
            self.is_served(
                w2,
                b2,
                pool,
                no_output(),
                shrunk,
                cohort,
                config,
                s2,
                q2,
                o2,
                r2,
            ),
        ensures
            is_alike(s1, s2),
            q1 == q2,
            o1 == o2,
    {
        if w1 is Some {
            let w = w1->0@;
            let (x1, m1) = self.lemma_serve_folds(
                w,
                b1,
                pool,
                shrunk,
                cohort,
                config,
                s1,
                q1,
                o1,
                r1,
            );
            let (x2, m2) = self.lemma_serve_folds(
                w,
                b2,
                pool,
                shrunk,
                cohort,
                config,
                s2,
                q2,
                o2,
                r2,
            );
            let out = no_output::<N>();
            assert(x1 == x2);
            let e1 = choose|event: Option<AutoLearnEvent<N>>|
                {
                    &&& o1 == (OutputView { events: #[trigger] logged(out.events, event), ..out })
                    &&& is_refreshed(
                        pool,
                        b1.score,
                        x1.0,
                        x1.1,
                        b1.frame_idx,
                        b1.speech@.speech_ms,
                        cohort,
                        config.gate,
                        config.pipeline.enable_auto_learn,
                        false,
                        config.pipeline.score_ema_alpha,
                        self.eps,
                        self.sqrt,
                        self.exp,
                        q1,
                        m1.score,
                        event,
                    )
                };
            let e2 = choose|event: Option<AutoLearnEvent<N>>|
                {
                    &&& o2 == (OutputView { events: #[trigger] logged(out.events, event), ..out })
                    &&& is_refreshed(
                        pool,
                        b2.score,
                        x2.0,
                        x2.1,
                        b2.frame_idx,
                        b2.speech@.speech_ms,
                        cohort,
                        config.gate,
                        config.pipeline.enable_auto_learn,
                        false,
                        config.pipeline.score_ema_alpha,
                        self.eps,
                        self.sqrt,
                        self.exp,
                        q2,
                        m2.score,
                        event,
                    )
                };
            lemma_refresh_repeats(
                pool,
                b1.score,
                x1.0,
                x1.1,
                b1.frame_idx,
                b1.speech@.speech_ms,
                cohort,
                config.gate,
                config.pipeline.enable_auto_learn,
                false,
                config.pipeline.score_ema_alpha,
                self.eps,
                self.sqrt,
                self.exp,
                q1,
                m1.score,
                e1,
                q2,
                m2.score,
                e2,
            );
        }
    }

    /// A window that is served without a worker was measured and folded in.
    proof fn lemma_serve_folds(
        &self,
        w: Seq<N>,
        before: StreamingState<N>,
        pool: PoolView<N>,
        shrunk: bool,
        cohort: Seq<Vec<N>>,
        config: StreamingConfig<N>,
        after: StreamingState<N>,
        pool_after: PoolView<N>,
        out_after: OutputView<N>,
        r: Result<(), PipelineError>,
    ) -> (m: ((Vec<N>, N), StreamingState<N>))
        requires
            before.channel is None,
            r is Ok,
            self.is_refresh(
                before,
                pool,
                no_output(),
                w,
                shrunk,
                cohort,
                config,
                after,
                pool_after,
                out_after,
                r,
            ),
        ensures
            self.measured(w, Ok(m.0)),
            self.is_folded(
                before,
                pool,
                no_output(),
                m.0.0,
                m.0.1,
                before.frame_idx,
                false,
                cohort,
                config,
                m.1,
                pool_after,
                out_after,
                r,
            ),
            after == (StreamingState { turn: told(m.1.turn, shrunk), ..m.1 }),
    {
        let outcome = choose|outcome: Result<(Vec<N>, N), EmbeddingError>|
            {
                &&& #[trigger] self.measured(w, outcome)
                &&& outcome matches Ok((emb, f0_mu)) && exists|mid: StreamingState<N>|
                    {
                        &&& #[trigger] self.is_folded(
                            before,
                            pool,
                            no_output(),
                            emb,
                            f0_mu,
                            before.frame_idx,
                            false,
                            cohort,
                            config,
                            mid,
                            pool_after,
                            out_after,
                            r,
                        )
                        &&& after == if r is Ok {
                            StreamingState { turn: told(mid.turn, shrunk), ..mid }
                        } else {
                            mid
                        }
                    }
            };
        let x = outcome->Ok_0;
        let mid = choose|mid: StreamingState<N>|
            {
                &&& #[trigger] self.is_folded(
                    before,
                    pool,
                    no_output(),
                    x.0,
                    x.1,
                    before.frame_idx,
                    false,
                    cohort,
                    config,
                    mid,
                    pool_after,
                    out_after,
                    r,
                )
                &&& after == (StreamingState { turn: told(mid.turn, shrunk), ..mid })
            };
        (x, mid)
    }

    /// A frame ends in one way.
    proof fn lemma_finish_repeats(
        &self,
        a1: StreamingState<N>,
        a2: StreamingState<N>,
        chunk: Seq<N>,
        frame: Seq<N>,
        fm: Option<N>,
        out: OutputView<N>,
        config: StreamingConfig<N>,
        b1: StreamingState<N>,
        d1: OutputView<N>,
        b2: StreamingState<N>,
        d2: OutputView<N>,
    )
        requires
            lawful::<N>(),
            is_alike(a1, a2),
            self.is_finished(a1, chunk, frame, fm, out, config, b1, d1),
            self.is_finished(a2, chunk, frame, fm, out, config, b2, d2),
        ensures
            is_alike(b1, b2),
            d1 == d2,
    {
        let g1 = self.lemma_finish_gates(a1, chunk, frame, fm, out, config, b1, d1);
        let g2 = self.lemma_finish_gates(a2, chunk, frame, fm, out, config, b2, d2);
        assert(g1.0 =~= g2.0);
        assert(d1.audio =~= out.audio + d1.audio.skip(out.audio.len() as int));
        assert(d2.audio =~= out.audio + d2.audio.skip(out.audio.len() as int));
        assert(d1 =~= d2);
    }

    /// What a frame without stages does at its end: the gains, and the decision.
    proof fn lemma_finish_gates(
        &self,
        a: StreamingState<N>,
        chunk: Seq<N>,
        frame: Seq<N>,
        fm: Option<N>,
        out: OutputView<N>,
        config: StreamingConfig<N>,
        b: StreamingState<N>,
        d: OutputView<N>,
    ) -> (r: (Seq<N>, bool, StreamingState<N>, OutputView<N>))
        requires
            lawful::<N>(),
            is_plain(a),
            self.is_finished(a, chunk, frame, fm, out, config, b, d),
        ensures
            self.is_decided(a, fm, out, config, r.2, r.3, r.1),
            is_opened(r.2.envelope@, r.1, chunk.len(), r.0, b.envelope@),
            b == (StreamingState {
                envelope: b.envelope,
                chain: b.chain,
                frame_idx: (a.frame_idx + 1) as usize,
                audio_samples_emitted: (a.audio_samples_emitted + chunk.len()) as usize,
                ..r.2
            }),
            d == (OutputView { audio: d.audio, tse_applied: out.tse_applied, ..r.3 }),
            out.audio.is_prefix_of(d.audio),
            b.chain@ == a.chain@,
            d.audio.skip(out.audio.len() as int) == scaled_by(chunk, r.0),
    {
        let (decided, said, on, gain) = choose|
            decided: StreamingState<N>,
            said: OutputView<N>,
            on: bool,
            gain: Seq<N>,
        |
            {
                &&& #[trigger] self.is_decided(a, fm, out, config, decided, said, on)
                &&& #[trigger] is_opened(decided.envelope@, on, chunk.len(), gain, b.envelope@)
                &&& b == (StreamingState {
                    envelope: b.envelope,
                    chain: b.chain,
                    frame_idx: (a.frame_idx + 1) as usize,
                    audio_samples_emitted: (a.audio_samples_emitted + chunk.len()) as usize,
                    ..decided
                })
                &&& d == (OutputView {
                    audio: d.audio,
                    tse_applied: if a.chain@.active() {
                        a.chain@.tse is Some
                    } else {
                        out.tse_applied
                    },
                    ..said
                })
                &&& out.audio.is_prefix_of(d.audio)
                &&& lawful::<N>() ==> self.is_emitted(
                    a.chain@,
                    chunk,
                    frame,
                    gain,
                    config,
                    b.chain@,
                    d.audio.skip(out.audio.len() as int),
                )
            };
        (gain, on, decided, said)
    }

    /// Frames repeat wherever voice activity, the embedding model, the pitch
    /// estimator and the functions beyond arithmetic answer one question in one way.
    pub proof fn lemma_frames_repeat(&self, cohort: Seq<Vec<N>>, config: StreamingConfig<N>)
        requires
            lawful::<N>(),
            self.answers_alike(),
        ensures
            self.is_repeatable(cohort, config),
    {
        assert forall|
            a1: Moment<N>,
            a2: Moment<N>,
            chunk: Seq<N>,
            frame: Seq<N>,
            b1: Moment<N>,
            b2: Moment<N>,
            d1: OutputView<N>,
            d2: OutputView<N>,
        |
            are_alike(a1, a2) && #[trigger] self.is_stepped(
                a1,
                chunk,
                frame,
                cohort,
                config,
                b1,
                d1,
            ) && #[trigger] self.is_stepped(
                a2,
                chunk,
                frame,
                cohort,
                config,
                b2,
                d2,
            ) implies are_alike(b1, b2) && d1 == d2 by {
            self.lemma_step_repeats(a1, a2, chunk, frame, cohort, config, b1, d1, b2, d2);
        }
    }

    /// One frame has one outcome.
    proof fn lemma_step_repeats(
        &self,
        a1: Moment<N>,
        a2: Moment<N>,
        chunk: Seq<N>,
        frame: Seq<N>,
        cohort: Seq<Vec<N>>,
        config: StreamingConfig<N>,
        b1: Moment<N>,
        d1: OutputView<N>,
        b2: Moment<N>,
        d2: OutputView<N>,
    )
        requires
            lawful::<N>(),
            self.answers_alike(),
            are_alike(a1, a2),
            self.is_stepped(a1, chunk, frame, cohort, config, b1, d1),
            self.is_stepped(a2, chunk, frame, cohort, config, b2, d2),
        ensures
            are_alike(b1, b2),
            d1 == d2,
    {
        let x1 = self.lemma_plain_step(a1, chunk, frame, cohort, config, b1, d1);
        let x2 = self.lemma_plain_step(a2, chunk, frame, cohort, config, b2, d2);
        self.lemma_opening_repeats(
            a1,
            a2,
            frame,
            config,
            b1.vad,
            x1.0,
            x1.1,
            b2.vad,
            x2.0,
            x2.1,
        );
        self.lemma_serve_repeats(
            x1.1.window,
            x2.1.window,
            x1.0,
            x2.0,
            a1.pool,
            x1.1.turn.shrunk,
            cohort,
            config,
            x1.2,
            b1.pool,
            x1.3,
            x1.4,
            x2.2,
            b2.pool,
            x2.3,
            x2.4,
        );
        self.lemma_finish_repeats(
            x1.2,
            x2.2,
            chunk,
            frame,
            x1.1.fm_fast,
            x1.3,
            config,
            b1.state,
            d1,
            b2.state,
            d2,
        );
    }

    /// The stages of a frame without a worker.
    proof fn lemma_plain_step(
        &self,
        before: Moment<N>,
        chunk: Seq<N>,
        frame: Seq<N>,
        cohort: Seq<Vec<N>>,
        config: StreamingConfig<N>,
        after: Moment<N>,
        delta: OutputView<N>,
    ) -> (r: (
        StreamingState<N>,
        FrameStart<N>,
        StreamingState<N>,
        OutputView<N>,
        Result<(), PipelineError>,
    ))
        requires
            is_plain(before.state),
            self.is_stepped(before, chunk, frame, cohort, config, after, delta),
        ensures
            self.is_opening(before, frame, config, after.vad, r.0, r.1),
            self.is_served(
                r.1.window,
                r.0,
                before.pool,
                no_output(),
                r.1.turn.shrunk,
                cohort,
                config,
                r.2,
                after.pool,
                r.3,
                r.4,
            ),
            r.4 is Ok,
            self.is_finished(
                r.2,
                chunk,
                frame,
                r.1.fm_fast,
                r.3,
                config,
                after.state,
                delta,
            ),
    {
        let (begun, f, served, served_pool, served_out, served_r, asked, asked_out, asked_r) =
            choose|
            begun: StreamingState<N>,
            f: FrameStart<N>,
            served: StreamingState<N>,
            served_pool: PoolView<N>,
            served_out: OutputView<N>,
            served_r: Result<(), PipelineError>,
            asked: StreamingState<N>,
            asked_out: OutputView<N>,
            asked_r: Result<(), PipelineError>,
        |
            {
                &&& #[trigger] self.is_opening(before, frame, config, after.vad, begun, f)
                &&& served_r is Ok
                &&& #[trigger] self.is_served(
                    f.window,
                    begun,
                    before.pool,
                    no_output(),
                    f.turn.shrunk,
                    cohort,
                    config,
                    served,
                    served_pool,
                    served_out,
                    served_r,
                )
                &&& asked_r is Ok
                &&& #[trigger] self.is_polled(
                    served,
                    served_pool,
                    served_out,
                    cohort,
                    config,
                    asked,
                    after.pool,
                    asked_out,
                    asked_r,
                )
                &&& self.is_finished(
                    asked,
                    chunk,
                    frame,
                    f.fm_fast,
                    asked_out,
                    config,
                    after.state,
                    delta,
                )
            };
        assert(begun.channel is None);
        assert(served.channel is None);
        assert(asked == served && asked_out == served_out && served_pool == after.pool);
        (begun, f, served, served_out, served_r)
    }

    /// Runs over one ring from stations that are alike go alike, as far as both go.
    proof fn lemma_runs_repeat(
        &self,
        s1: Seq<Station<N>>,
        d1: Seq<OutputView<N>>,
        s2: Seq<Station<N>>,
        d2: Seq<OutputView<N>>,
        cohort: Seq<Vec<N>>,
        config: StreamingConfig<N>,
        n: nat,
    )
        requires
            self.is_repeatable(cohort, config),
            self.is_run(false, s1, d1, cohort, config),
            self.is_run(false, s2, d2, cohort, config),
            s1[0].ring == s2[0].ring,
            are_alike(s1[0].at, s2[0].at),
            n <= d1.len(),
            n <= d2.len(),
        ensures
            s1[n as int].ring == s2[n as int].ring,
            are_alike(s1[n as int].at, s2[n as int].at),
            outputs(d1, n) == outputs(d2, n),
        decreases n,
    {
        if n > 0 {
            let i = n - 1;
            self.lemma_runs_repeat(s1, d1, s2, d2, cohort, config, i as nat);
            assert(self.is_turned(false, s1[i], s1[i + 1], d1[i], cohort, config));
            assert(self.is_turned(false, s2[i], s2[i + 1], d2[i], cohort, config));
            let (n1, f1) = choose|m: usize, frame: Vec<N>|
                {
                    &&& #[trigger] self.is_cut(false, s1[i].ring, m, frame)
                    &&& s1[i + 1].ring == s1[i].ring.skip(m as int)
                    &&& self.is_stepped(
                        s1[i].at,
                        s1[i].ring.take(m as int),
                        frame@,
                        cohort,
                        config,
                        s1[i + 1].at,
                        d1[i],
                    )
                };
            let (n2, f2) = choose|m: usize, frame: Vec<N>|
                {
                    &&& #[trigger] self.is_cut(false, s2[i].ring, m, frame)
                    &&& s2[i + 1].ring == s2[i].ring.skip(m as int)
                    &&& self.is_stepped(
                        s2[i].at,
                        s2[i].ring.take(m as int),
                        frame@,
                        cohort,
                        config,
                        s2[i + 1].at,
                        d2[i],
                    )
                };
            assert(n1 == n2 && f1@ == f2@);
        }
    }

    /// Two ways over one ring, from stations that are alike and until the ring is
    /// dry, end alike and give one output.
    proof fn lemma_ways_repeat(
        &self,
        a1: Station<N>,
        b1: Station<N>,
        o1: OutputView<N>,
        a2: Station<N>,
        b2: Station<N>,
        o2: OutputView<N>,
        cohort: Seq<Vec<N>>,
        config: StreamingConfig<N>,
    )
        requires
            self.is_repeatable(cohort, config),
            self.is_way(false, a1, b1, o1, cohort, config),
            self.is_way(false, a2, b2, o2, cohort, config),
            self.is_dry(false, b1.ring),
            self.is_dry(false, b2.ring),
            a1.ring == a2.ring,
            are_alike(a1.at, a2.at),
        ensures
            b1.ring == b2.ring,
            are_alike(b1.at, b2.at),
            o1 == o2,
    {
        let (s1, d1) = choose|s: Seq<Station<N>>, d: Seq<OutputView<N>>|
            {
                &&& #[trigger] self.is_run(false, s, d, cohort, config)
                &&& s[0] == a1
                &&& s.last() == b1
                &&& o1 == outputs(d, d.len())
            };
        let (s2, d2) = choose|s: Seq<Station<N>>, d: Seq<OutputView<N>>|
            {
                &&& #[trigger] self.is_run(false, s, d, cohort, config)
                &&& s[0] == a2
                &&& s.last() == b2
                &&& o2 == outputs(d, d.len())
            };
        let n = if d1.len() < d2.len() {
            d1.len()
        } else {
            d2.len()
        };
        self.lemma_runs_repeat(s1, d1, s2, d2, cohort, config, n);
        if d1.len() < d2.len() {
            assert(self.is_turned(
                false,
                s2[n as int],
                s2[n as int + 1],
                d2[n as int],
                cohort,
                config,
            ));
        }
        if d2.len() < d1.len() {
            assert(self.is_turned(
                false,
                s1[n as int],
                s1[n as int + 1],
                d1[n as int],
                cohort,
                config,
            ));
        }
        assert(d1.len() == d2.len());
    }

    /// A flush of an engine without stages and without a worker runs the frames of
    /// what was left, and takes off what became of the silence behind it.
    proof fn lemma_plain_flush(
        &self,
        a: Station<N>,
        b: Station<N>,
        o: OutputView<N>,
        cohort: Seq<Vec<N>>,
        config: StreamingConfig<N>,
    ) -> (r: (Seq<N>, Station<N>, OutputView<N>))
        requires
            self.is_repeatable(cohort, config),
            self.is_flushed(false, a, b, o, cohort, config),
            is_plain(a.at.state),
        ensures
            self.is_topped_up(false, a.ring, r.0),
            self.is_way(false, Station { ring: r.0, at: a.at }, r.1, r.2, cohort, config),
            self.is_dry(false, r.1.ring),
            b.ring == r.1.ring,
            are_alike(b.at, r.1.at),
            o == (OutputView {
                audio: shortened(r.2.audio, r.0.len() - a.ring.len()),
                ..r.2
            }),
    {
        let (padded, ran, ran_out, drained, drained_out, whole) = choose|
            padded: Seq<N>,
            ran: Station<N>,
            ran_out: OutputView<N>,
            drained: StreamingState<N>,
            drained_out: OutputView<N>,
            whole: OutputView<N>,
        |
            {
                &&& self.is_topped_up(false, a.ring, padded)
                &&& #[trigger] self.is_way(
                    false,
                    Station { ring: padded, at: a.at },
                    ran,
                    ran_out,
                    cohort,
                    config,
                )
                &&& self.is_dry(false, ran.ring)
                &&& #[trigger] self.is_drained(
                    ran.at.state,
                    ran.at.pool,
                    ran_out,
                    cohort,
                    config,
                    drained,
                    b.at.pool,
                    drained_out,
                )
                &&& b.ring == ran.ring
                &&& b.at.vad == ran.at.vad
                &&& b.at.state == (StreamingState { chain: b.at.state.chain, ..drained })
                &&& #[trigger] self.is_emptied(
                    drained.chain@,
                    drained_out,
                    b.at.state.chain@,
                    whole,
                )
                &&& o == (OutputView {
                    audio: shortened(whole.audio, Self::surplus(false, a.ring, padded)),
                    ..whole
                })
            };
        let x = Station { ring: padded, at: a.at };
        self.lemma_ways_repeat(x, ran, ran_out, x, ran, ran_out, cohort, config);
        assert(drained == ran.at.state);
        (padded, ran, ran_out)
    }

    /// Two flushes of engines that are alike, with one ring, end alike and give one
    /// output.
    proof fn lemma_flushes_repeat(
        &self,
        a1: Station<N>,
        b1: Station<N>,
        o1: OutputView<N>,
        a2: Station<N>,
        b2: Station<N>,
        o2: OutputView<N>,
        cohort: Seq<Vec<N>>,
        config: StreamingConfig<N>,
    )
        requires
            lawful::<N>(),
            self.is_repeatable(cohort, config),
            self.is_flushed(false, a1, b1, o1, cohort, config),
            self.is_flushed(false, a2, b2, o2, cohort, config),
            a1.ring == a2.ring,
            are_alike(a1.at, a2.at),
        ensures
            b1.ring == b2.ring,
            are_alike(b1.at, b2.at),
            o1 == o2,
    {
        let (p1, r1, q1) = self.lemma_plain_flush(a1, b1, o1, cohort, config);
        let (p2, r2, q2) = self.lemma_plain_flush(a2, b2, o2, cohort, config);
        assert(p1 =~= p2) by {
            if a1.ring.len() > 0 && a1.ring.len() < CHUNK_SAMPLES_16K {
                assert forall|i: int| 0 <= i < p1.len() implies p1[i] == p2[i] by {
                    if i < a1.ring.len() {
                        assert(p1[i] == p1.take(a1.ring.len() as int)[i]);
                        assert(p2[i] == p2.take(a1.ring.len() as int)[i]);
                    }
                }
            }
        }
        let x1 = Station { ring: p1, at: a1.at };
        let x2 = Station { ring: p2, at: a2.at };
        self.lemma_ways_repeat(x1, r1, q1, x2, r2, q2, cohort, config);
    }

    /// Engines that start without stages and without a worker start alike.
    proof fn lemma_starts_alike(
        config: StreamingConfig<N>,
        exp: E,
        a: StreamingState<N>,
        b: StreamingState<N>,
    )
        requires
            lawful::<N>(),
            is_function(exp),
            is_fresh_engine(config, exp, a),
            is_fresh_engine(config, exp, b),
        ensures
            is_alike(a, b),
    {
        assert(a.speech@.buffer =~= b.speech@.buffer);
        assert(a.speech@.pre_roll =~= b.speech@.pre_roll);
        assert(a.fast_f0_cue@ =~= b.fast_f0_cue@);
        assert(a.chain@.gains =~= b.chain@.gains);
        assert(a.chain@.raws =~= b.chain@.raws);
    }

    /// A recording has one result: two passes of the engine over it, where the rates
    /// agree and what is outside answers alike, give one output and leave voice
    /// activity and pool the same.
    pub proof fn lemma_pass_repeats<B: Fn(u32, u32) -> Result<(), String>>(
        &self,
        audio: Seq<N>,
        config: StreamingConfig<N>,
        bridge: B,
        before: (VadView<N>, PoolView<N>),
        cohort: Seq<Vec<N>>,
        after1: (VadView<N>, PoolView<N>),
        out1: OutputView<N>,
        after2: (VadView<N>, PoolView<N>),
        out2: OutputView<N>,
    )
        requires
            lawful::<N>(),
            self.answers_alike(),
            !config.dual(),
            self.is_pass(audio, config, bridge, before, cohort, after1, out1),
            self.is_pass(audio, config, bridge, before, cohort, after2, out2),
        ensures
            out1 == out2,
            after1 == after2,
    {
        self.lemma_frames_repeat(cohort, config);
        let (i1, s1, m1, h1, e1, t1) = choose|
            intake: Intake<N>,
            state: StreamingState<N>,
            mid: Station<N>,
            head: OutputView<N>,
            end: Station<N>,
            tail: OutputView<N>,
        |
            {
                &&& #[trigger] is_started(config, bridge, self.exp, Ok((intake, state)))
                &&& #[trigger] self.is_way(
                    false,
                    Station { ring: audio, at: Moment { state, vad: before.0, pool: before.1 } },
                    mid,
                    head,
                    cohort,
                    config,
                )
                &&& self.is_dry(false, mid.ring)
                &&& #[trigger] self.is_flushed(false, mid, end, tail, cohort, config)
                &&& out1 == joined_output(head, tail)
                &&& after1 == (end.at.vad, end.at.pool)
            };
        let (i2, s2, m2, h2, e2, t2) = choose|
            intake: Intake<N>,
            state: StreamingState<N>,
            mid: Station<N>,
            head: OutputView<N>,
            end: Station<N>,
            tail: OutputView<N>,
        |
            {
                &&& #[trigger] is_started(config, bridge, self.exp, Ok((intake, state)))
                &&& #[trigger] self.is_way(
                    false,
                    Station { ring: audio, at: Moment { state, vad: before.0, pool: before.1 } },
                    mid,
                    head,
                    cohort,
                    config,
                )
                &&& self.is_dry(false, mid.ring)
                &&& #[trigger] self.is_flushed(false, mid, end, tail, cohort, config)
                &&& out2 == joined_output(head, tail)
                &&& after2 == (end.at.vad, end.at.pool)
            };
        Self::lemma_starts_alike(config, self.exp, s1, s2);
        let x1 = Station { ring: audio, at: Moment { state: s1, vad: before.0, pool: before.1 } };
        let x2 = Station { ring: audio, at: Moment { state: s2, vad: before.0, pool: before.1 } };
        self.lemma_ways_repeat(x1, m1, h1, x2, m2, h2, cohort, config);
        self.lemma_flushes_repeat(m1, e1, t1, m2, e2, t2, cohort, config);
    }
}

// ---------------------------------------------------------------------
// Pushes and a flush
// ---------------------------------------------------------------------
/// The first `n` parts of a recording, one behind the other.
pub open spec fn first_parts<N>(parts: Seq<Seq<N>>, n: nat) -> Seq<N>
    decreases n,
{
    if n == 0 {
        Seq::empty()
    } else {
        first_parts(parts, (n - 1) as nat) + parts[n - 1]
    }
}

/// The first `n` outputs, one behind the other.
pub open spec fn first_outputs<N>(outs: Seq<StreamingOutput<N>>, n: nat) -> OutputView<N>
    decreases n,
{
    if n == 0 {
        no_output()
    } else {
        joined_output(first_outputs(outs, (n - 1) as nat), outs[n - 1]@)
    }
}

/// A whole stream: a pipeline is assembled, is pushed one part after the other, and
/// is flushed. No call fails.
pub struct Run<N, V, R, S, C, P, O, M, D, I, J, E, Q, W, T, F> {
    /// The pipeline before the first push, and after each.
    pub pipes: Seq<StreamingPipeline<N, V, R, S, C, P, O, M, D, I, J, E, Q, W, T, F>>,
    pub parts: Seq<Seq<N>>,
    pub outs: Seq<StreamingOutput<N>>,
    /// The pipeline after the flush.
    pub end: StreamingPipeline<N, V, R, S, C, P, O, M, D, I, J, E, Q, W, T, F>,
    pub tail: StreamingOutput<N>,
}

impl<
    N: Scalar,
    V: Fn(&Vec<N>, &Vec<N>, u32) -> Result<VadReply<N>, EmbeddingError>,
    R: Fn(&Vec<N>) -> Result<(Vec<N>, N), EmbeddingError>,
    S: Fn(Vec<N>) -> bool,
    C: Fn(bool) -> Received<N>,
    P: Fn(&Vec<N>) -> Option<N>,
    O: Fn(&Vec<N>) -> Result<OverlapReply<N>, EmbeddingError>,
    M: Fn(&[N], &[N], &Vec<Tensor<N>>) -> Result<TseReply<N>, TseError>,
    D: Fn(&Vec<N>) -> Result<Vec<N>, EmbeddingError>,
    I: Fn() -> usize,
    J: Fn(&Vec<N>) -> Result<Vec<N>, String>,
    E: Fn(N) -> N,
    Q: Fn(N) -> N,
    W: Fn(N) -> N,
    T: Fn(N) -> N,
    F: Fn(Memory),
> Run<N, V, R, S, C, P, O, M, D, I, J, E, Q, W, T, F> {
    /// Every push and the flush did what they do.
    pub open spec fn is_streamed(self) -> bool {
        &&& self.parts.len() > 0
        &&& self.pipes.len() == self.parts.len() + 1
        &&& self.outs.len() == self.parts.len()
        &&& forall|i: int|
            0 <= i < self.outs.len() ==> StreamingPipeline::is_push(
                self.pipes[i],
                self.parts[i],
                self.pipes[i + 1],
                Ok(#[trigger] self.outs[i]),
            )
        &&& StreamingPipeline::is_flush(self.pipes.last(), self.end, Ok(self.tail))
    }

    /// The pipeline was built from those parts.
    pub open spec fn is_built_from<
        L: Fn(&str) -> Result<(), TseError>,
        K: Fn(&str) -> Result<(), EmbeddingError>,
        B: Fn(u32, u32) -> Result<(), String>,
        G: Fn() -> Result<(), String>,
    >(
        self,
        pool: EmbeddingPool<N>,
        config: StreamingConfig<N>,
        components: PipelineComponents<N>,
        kit: Kit<N, V, R, S, C, P, O, M, D, I, J, E, Q, W, T, F>,
        load_tse: L,
        load: K,
        bridge: B,
        spawn: G,
    ) -> bool {
        StreamingPipeline::is_assembled(
            pool,
            config,
            components,
            kit,
            load_tse,
            load,
            bridge,
            spawn,
            Ok(self.pipes[0]),
        )
    }

    /// The audio that was pushed.
    pub open spec fn audio(self) -> Seq<N> {
        first_parts(self.parts, self.parts.len())
    }

    /// Everything that came out.
    pub open spec fn output(self) -> OutputView<N> {
        joined_output(first_outputs(self.outs, self.outs.len()), self.tail@)
    }

    /// The first `n` pushes are a way over the audio of all of them.
    proof fn lemma_pushes_make_a_way(self, n: nat)
        requires
            self.is_streamed(),
            n <= self.parts.len(),
        ensures
            self.pipes[n as int].same_parts(&self.pipes[0]),
            n > 0 ==> self.pipes[0].kit.is_dry(
                self.pipes[0].intake.dual_rate,
                self.pipes[n as int].intake.audio_ring@,
            ),
            self.pipes[0].kit.is_way(
                self.pipes[0].intake.dual_rate,
                Station {
                    ring: self.pipes[0].intake.audio_ring@ + first_parts(self.parts, n),
                    at: self.pipes[0].station().at,
                },
                self.pipes[n as int].station(),
                first_outputs(self.outs, n),
                self.pipes[0].cohort@,
                self.pipes[0].config,
            ),
        decreases n,
    {
        let p = self.pipes[0];
        let dual = p.intake.dual_rate;
        let ring = p.intake.audio_ring@;
        if n == 0 {
            p.kit.lemma_stand_still(dual, p.station(), p.cohort@, p.config);
            assert(ring + first_parts(self.parts, 0) =~= ring);
        } else {
            let i = n - 1;
            self.lemma_pushes_make_a_way(i as nat);
            assert(StreamingPipeline::is_push(
                self.pipes[i],
                self.parts[i],
                self.pipes[i + 1],
                Ok(self.outs[i]),
            ));
            p.kit.lemma_push_in_parts(
                dual,
                ring,
                first_parts(self.parts, i as nat),
                self.parts[i],
                p.station().at,
                self.pipes[i].station(),
                self.pipes[n as int].station(),
                first_outputs(self.outs, i as nat),
                self.outs[i]@,
                p.cohort@,
                p.config,
            );
        }
    }

    /// However a recording is cut into parts: a fresh pipeline without stages and
    /// without a worker, to which the parts are pushed and which is then flushed,
    /// makes one pass over the whole.
    pub proof fn lemma_stream_is_a_pass<
        L: Fn(&str) -> Result<(), TseError>,
        K: Fn(&str) -> Result<(), EmbeddingError>,
        B: Fn(u32, u32) -> Result<(), String>,
        G: Fn() -> Result<(), String>,
    >(
        self,
        pool: EmbeddingPool<N>,
        config: StreamingConfig<N>,
        components: PipelineComponents<N>,
        kit: Kit<N, V, R, S, C, P, O, M, D, I, J, E, Q, W, T, F>,
        load_tse: L,
        load: K,
        bridge: B,
        spawn: G,
    )
        requires
            !config.pipeline.async_refresh,
            config.pipeline.tse is None,
            config.dfn3_onnx_path is None,
            self.is_built_from(
                pool,
                config,
                components,
                kit,
                load_tse,
                load,
                bridge,
                spawn,
            ),
            self.is_streamed(),
        ensures
            kit.is_pass(
                self.audio(),
                config,
                bridge,
                (components.vad@, pool@),
                components.cohort@,
                (self.end.vad@, self.end.pool@),
                self.output(),
            ),
    {
        let p = self.pipes[0];
        let n = self.parts.len();
        let last = self.pipes.last();
        self.lemma_pushes_make_a_way(n);
        assert(is_started(config, bridge, kit.exp, Ok((p.intake, p.state))));
        assert(p.intake.audio_ring@ + self.audio() =~= self.audio());
        assert(kit.is_way(
            config.dual(),
            Station {
                ring: self.audio(),
                at: Moment { state: p.state, vad: components.vad@, pool: pool@ },
            },
            last.station(),
            first_outputs(self.outs, n),
            components.cohort@,
            config,
        ));
        assert(kit.is_flushed(
            config.dual(),
            last.station(),
            self.end.station(),
            self.tail@,
            components.cohort@,
            config,
        ));
    }

    /// How a stream is cut does not matter: two pipelines, built from the same parts
    /// and without stages and worker, that are pushed the same audio in different
    /// parts and then flushed give the same audio, decisions, records and events,
    /// and end with the same pool. The rates agree, and what is outside answers alike.
    pub proof fn lemma_cuts_do_not_matter<
        L: Fn(&str) -> Result<(), TseError>,
        K: Fn(&str) -> Result<(), EmbeddingError>,
        B: Fn(u32, u32) -> Result<(), String>,
        G: Fn() -> Result<(), String>,
    >(
        self,
        other: Self,
        pool: EmbeddingPool<N>,
        config: StreamingConfig<N>,
        components: PipelineComponents<N>,
        kit: Kit<N, V, R, S, C, P, O, M, D, I, J, E, Q, W, T, F>,
        load_tse: L,
        load: K,
        bridge: B,
        spawn: G,
    )
        requires
            lawful::<N>(),
            kit.answers_alike(),
            !config.dual(),
            !config.pipeline.async_refresh,
            config.pipeline.tse is None,
            config.dfn3_onnx_path is None,
            self.is_built_from(
                pool,
                config,
                components,
                kit,
                load_tse,
                load,
                bridge,
                spawn,
            ),
            other.is_built_from(
                pool,
                config,
                components,
                kit,
                load_tse,
                load,
                bridge,
                spawn,
            ),
            self.is_streamed(),
            other.is_streamed(),
            self.audio() == other.audio(),
        ensures
            self.output() == other.output(),
            self.end.pool@ == other.end.pool@,
            self.end.vad@ == other.end.vad@,
    {
        self.lemma_stream_is_a_pass(
            pool,
            config,
            components,
            kit,
            load_tse,
            load,
            bridge,
            spawn,
        );
        other.lemma_stream_is_a_pass(
            pool,
            config,
            components,
            kit,
            load_tse,
            load,
            bridge,
            spawn,
        );
        kit.lemma_pass_repeats(
            self.audio(),
            config,
            bridge,
            (components.vad@, pool@),
            components.cohort@,
            (self.end.vad@, self.end.pool@),
            self.output(),
            (other.end.vad@, other.end.pool@),
            other.output(),
        );
    }

    /// A stream agrees with the processing of the recording it is cut from: the
    /// records of its frames, the events and the pool are the same, and the
    /// decisions of the recording are those of the stream, settled. The rates agree,
    /// and what is outside answers alike.
    pub proof fn lemma_stream_agrees_with_recording<
        L: Fn(&str) -> Result<(), TseError>,
        K: Fn(&str) -> Result<(), EmbeddingError>,
        B: Fn(u32, u32) -> Result<(), String>,
        G: Fn() -> Result<(), String>,
    >(
        self,
        pool: EmbeddingPool<N>,
        config: StreamingConfig<N>,
        components: PipelineComponents<N>,
        kit: Kit<N, V, R, S, C, P, O, M, D, I, J, E, Q, W, T, F>,
        load_tse: L,
        load: K,
        bridge: B,
        spawn: G,
        cfg: PipelineConfig<N>,
        after: (VadView<N>, PoolView<N>),
        res: ProcessResult<N>,
    )
        requires
            lawful::<N>(),
            kit.answers_alike(),
            !config.dual(),
            config.pipeline == cfg.bare(),
            config.diagnostics,
            config.dfn3_onnx_path is None,
            self.is_built_from(
                pool,
                config,
                components,
                kit,
                load_tse,
                load,
                bridge,
                spawn,
            ),
            self.is_streamed(),
            kit.is_sync_result(
                self.audio(),
                config.audio_sample_rate,
                cfg,
                config.gate,
                bridge,
                (components.vad@, pool@),
                components.cohort@,
                after,
                res,
            ),
        ensures
            is_recorded(self.output(), res),
            res.gate_decisions@ == settled(
                self.output().gate_decisions,
                cfg.pre_roll_ms,
                config.audio_sample_rate,
            ),
            after == (self.end.vad@, self.end.pool@),
    {
        self.lemma_stream_is_a_pass(
            pool,
            config,
            components,
            kit,
            load_tse,
            load,
            bridge,
            spawn,
        );
        let before = (components.vad@, pool@);
        let cohort = components.cohort@;
        let (c, out) = choose|c: StreamingConfig<N>, out: OutputView<N>|
            {
                &&& #[trigger] is_offline_config(cfg, config.gate, config.audio_sample_rate, c)
                &&& #[trigger] kit.is_pass(self.audio(), c, bridge, before, cohort, after, out)
                &&& res.gate_decisions@ == settled(
                    out.gate_decisions,
                    cfg.pre_roll_ms,
                    config.audio_sample_rate,
                )
                &&& is_recorded(out, res)
            };
        kit.lemma_pass_under(self.audio(), c, config, bridge, before, cohort, after, out);
        kit.lemma_pass_repeats(
            self.audio(),
            config,
            bridge,
            before,
            cohort,
            (self.end.vad@, self.end.pool@),
            self.output(),
            after,
            out,
        );
    }
}

} // verus!
