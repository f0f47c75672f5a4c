//! Laws of putting a pipeline together and taking it apart.
use crate::assembly::{stage_view, PipelineComponents, StreamingPipeline};
use crate::chain::Memory;
use crate::config::StreamingConfig;
use crate::embedding::EmbeddingError;
use crate::enrollment::EmbeddingPool;
use crate::laws::score::are_column_means;
use crate::overlap::OverlapReply;
use crate::pipeline::PipelineError;
use crate::refresh::Received;
use crate::scalar::{lawful, num, Scalar};
use crate::streaming::Kit;
use crate::tse::{Tensor, TseError, TseReply};
use crate::vad::VadReply;
use vstd::prelude::*;

verus! {

/// A pipeline holds what it was made of and has heard nothing. It works at two rates exactly
/// where the audio and the decisions have different ones, has a worker exactly where one was
/// asked for, and extracts a voice exactly where that was asked for, the enrolled one.
pub proof fn lemma_new_pipeline_has_heard_nothing<
    N: Scalar,
    V: Fn(&Vec<N>, &Vec<N>, u32) -> Result<VadReply<N>, EmbeddingError>,
    R: Fn(&Vec<N>) -> Result<(Vec<N>, N), EmbeddingError>,
    S: Fn(Vec<N>) -> bool,
    C: Fn(bool) -> Received<N>,
    P: Fn(&Vec<N>) -> Option<N>,
    O: Fn(&Vec<N>) -> Result<OverlapReply<N>, EmbeddingError>,
    M: Fn(&[N], &[N], &Vec<Tensor<N>>) -> Result<TseReply<N>, TseError>,
    D: Fn(&Vec<N>) -> Result<Vec<N>, EmbeddingError>,
    I: Fn() -> usize,
    J: Fn(&Vec<N>) -> Result<Vec<N>, String>,
    E: Fn(N) -> N,
    Q: Fn(N) -> N,
    W: Fn(N) -> N,
    T: Fn(N) -> N,
    F: Fn(Memory),
    L: Fn(&str) -> Result<(), TseError>,
    K: Fn(&str) -> Result<(), EmbeddingError>,
    B: Fn(u32, u32) -> Result<(), String>,
    G: Fn() -> Result<(), String>,
>(
    pool: EmbeddingPool<N>,
    config: StreamingConfig<N>,
    components: PipelineComponents<N>,
    kit: Kit<N, V, R, S, C, P, O, M, D, I, J, E, Q, W, T, F>,
    load_tse: &L,
    load: &K,
    bridge: &B,
    spawn: &G,
    p: StreamingPipeline<N, V, R, S, C, P, O, M, D, I, J, E, Q, W, T, F>,
)
    requires
        call_ensures(
            StreamingPipeline::<N, V, R, S, C, P, O, M, D, I, J, E, Q, W, T, F>::new::<L, K, B, G>,
            (pool, config, components, kit, load_tse, load, bridge, spawn),
            Ok::<StreamingPipeline<N, V, R, S, C, P, O, M, D, I, J, E, Q, W, T, F>, PipelineError>(p),
        ),
        lawful::<N>(),
    ensures
        p.pool == pool,
        p.config == config,
        p.vad == components.vad,
        p.cohort == components.cohort,
        p.kit == kit,
        p.intake.audio_ring@.len() == 0,
        p.intake.dual_rate <==> config.audio_sample_rate != config.pipeline.sample_rate,
        p.state.frame_idx == 0,
        p.state.audio_samples_emitted == 0,
        p.state.current_decision is None,
        p.state.speech@.buffer.len() == 0,
        p.state.envelope@.value == num::<N>(0),
        p.state.score.last_score == num::<N>(0),
        p.state.score.last_fm == num::<N>(1),
        !p.state.gate@.on,
        p.state.gate.rules() == config.gate,
        p.state.channel is Some <==> config.pipeline.async_refresh,
        p.state.chain@.held_back() == 0,
        p.state.chain@.tse is Some <==> config.pipeline.tse is Some,
        p.state.chain@.tse matches Some(t) ==> are_column_means(pool@.anchors, t.cond),
        p.state.chain@.dfn3 is Some <==> config.dfn3_onnx_path is Some,
{
    crate::laws::score::lemma_centroid_means(pool@.anchors);
}

/// What a pipeline was given and learned comes back when it is taken apart: the pool as it then
/// is, the same models, and the extraction stage that ran or lay idle.
pub proof fn lemma_parts_come_back<
    N: Scalar,
    V: Fn(&Vec<N>, &Vec<N>, u32) -> Result<VadReply<N>, EmbeddingError>,
    R: Fn(&Vec<N>) -> Result<(Vec<N>, N), EmbeddingError>,
    S: Fn(Vec<N>) -> bool,
    C: Fn(bool) -> Received<N>,
    P: Fn(&Vec<N>) -> Option<N>,
    O: Fn(&Vec<N>) -> Result<OverlapReply<N>, EmbeddingError>,
    M: Fn(&[N], &[N], &Vec<Tensor<N>>) -> Result<TseReply<N>, TseError>,
    D: Fn(&Vec<N>) -> Result<Vec<N>, EmbeddingError>,
    I: Fn() -> usize,
    J: Fn(&Vec<N>) -> Result<Vec<N>, String>,
    E: Fn(N) -> N,
    Q: Fn(N) -> N,
    W: Fn(N) -> N,
    T: Fn(N) -> N,
    F: Fn(Memory),
    G: Fn() -> bool,
>(
    p: StreamingPipeline<N, V, R, S, C, P, O, M, D, I, J, E, Q, W, T, F>,
    join: &G,
    pool: EmbeddingPool<N>,
    components: PipelineComponents<N>,
)
    requires
        call_ensures(
            StreamingPipeline::<N, V, R, S, C, P, O, M, D, I, J, E, Q, W, T, F>::into_parts::<G>,
            (p, join),
            Ok::<(EmbeddingPool<N>, PipelineComponents<N>), PipelineError>((pool, components)),
        ),
    ensures
        pool == p.pool,
        components.vad == p.vad,
        components.cohort == p.cohort,
        p.state.chain@.tse is Some ==> stage_view(components.tse) == p.state.chain@.tse,
        p.state.chain@.tse is None ==> components.tse == p.idle_tse,
{
}

} // verus!
