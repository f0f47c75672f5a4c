//! Laws of the audio-processing object.
use crate::apo::{
    accept_or_suggest, choose_pool, resolve_enrollment_path, LockError, MellonellaApo, Negotiation,
    WaveFormat,
};
use crate::assembly::StreamingPipeline;
use crate::chain::Memory;
use crate::embedding::EmbeddingError;
use crate::enrollment::{EmbeddingPool, EmbeddingPoolConfig};
use crate::overlap::OverlapReply;
use crate::pipeline::PipelineError;
use crate::refresh::Received;
use crate::scalar::{lawful, num, Scalar};
use crate::streaming::StreamingOutput;
use crate::tse::{Tensor, TseError, TseReply};
use crate::vad::VadReply;
use vstd::prelude::*;

verus! {

/// One channel of 32-bit floats at 48 kHz is taken, and nothing else.
pub proof fn lemma_one_format_is_taken(format: WaveFormat, r: Negotiation)
    requires
        call_ensures(accept_or_suggest, (&format,), r),
    ensures
        r == Negotiation::Accept <==> format.sample_rate == 48_000 && format.channels == 1
            && format.format_tag == 3,
{
}

/// What is suggested in place of a format is taken when it is offered.
pub proof fn lemma_suggested_format_is_taken(
    format: WaveFormat,
    other: WaveFormat,
    r: Negotiation,
)
    requires
        call_ensures(accept_or_suggest, (&format,), Negotiation::Suggest(other)),
        call_ensures(accept_or_suggest, (&other,), r),
    ensures
        r == Negotiation::Accept,
        format != other,
{
}

/// A setting names the place of the enrolled voice; only without one is it looked for in the
/// user's own directory, if there is one.
pub proof fn lemma_setting_names_the_place<J: Fn(&str, &str) -> String>(
    setting: Option<&str>,
    config_dir: Option<&str>,
    join: &J,
    r: Option<String>,
)
    requires
        call_ensures(resolve_enrollment_path::<J>, (setting, config_dir, join), r),
    ensures
        setting matches Some(path) ==> (r matches Some(p) && p@ == path@),
        setting is None && config_dir is None ==> r is None,
        setting is None && config_dir is Some ==> r is Some,
{
}

/// A pool that was loaded is the one that is started with; without one it is an empty one. A
/// voice is enrolled exactly where the pool holds one.
pub proof fn lemma_loaded_pool_is_used<N: Scalar>(
    loaded: Option<Result<EmbeddingPool<N>, String>>,
    config: EmbeddingPoolConfig<N>,
    pool: EmbeddingPool<N>,
    enrolled: bool,
)
    requires
        call_ensures(choose_pool::<N>, (loaded, config), (pool, enrolled)),
    ensures
        loaded matches Some(Ok(p)) ==> pool == p,
        !(loaded matches Some(Ok(_))) ==> pool@.anchors.len() == 0 && pool@.auto_learn.len() == 0
            && pool@.config == config,
        enrolled <==> pool@.anchors.len() > 0 || pool@.auto_learn.len() > 0,
{
}

/// Before it is locked the object hands the audio on as it is.
pub proof fn lemma_unlocked_object_is_dry<
    N: Scalar,
    V: Fn(&Vec<N>, &Vec<N>, u32) -> Result<VadReply<N>, EmbeddingError>,
    R: Fn(&Vec<N>) -> Result<(Vec<N>, N), EmbeddingError>,
    S: Fn(Vec<N>) -> bool,
    C: Fn(bool) -> Received<N>,
    P: Fn(&Vec<N>) -> Option<N>,
    O: Fn(&Vec<N>) -> Result<OverlapReply<N>, EmbeddingError>,
    M: Fn(&[N], &[N], &Vec<Tensor<N>>) -> Result<TseReply<N>, TseError>,
    D: Fn(&Vec<N>) -> Result<Vec<N>, EmbeddingError>,
    I: Fn() -> usize,
    J: Fn(&Vec<N>) -> Result<Vec<N>, String>,
    E: Fn(N) -> N,
    Q: Fn(N) -> N,
    W: Fn(N) -> N,
    T: Fn(N) -> N,
    F: Fn(Memory),
>(
    apo: &mut MellonellaApo<N, V, R, S, C, P, O, M, D, I, J, E, Q, W, T, F>,
    samples: &[N],
    silent: bool,
    room: usize,
    out: Vec<N>,
)
    requires
        call_ensures(MellonellaApo::<N, V, R, S, C, P, O, M, D, I, J, E, Q, W, T, F>::process, (apo, samples, silent, room), out),
        old(apo).pipeline is None,
    ensures
        out@.len() == if samples@.len() < room {
            samples@.len()
        } else {
            room as nat
        },
        forall|i: int| 0 <= i < out@.len() ==> #[trigger] out@[i] == samples@[i],
        *final(apo) == *old(apo),
{
}

/// Silence stays silence, and the pipeline does not hear it.
pub proof fn lemma_silence_stays_silent<
    N: Scalar,
    V: Fn(&Vec<N>, &Vec<N>, u32) -> Result<VadReply<N>, EmbeddingError>,
    R: Fn(&Vec<N>) -> Result<(Vec<N>, N), EmbeddingError>,
    S: Fn(Vec<N>) -> bool,
    C: Fn(bool) -> Received<N>,
    P: Fn(&Vec<N>) -> Option<N>,
    O: Fn(&Vec<N>) -> Result<OverlapReply<N>, EmbeddingError>,
    M: Fn(&[N], &[N], &Vec<Tensor<N>>) -> Result<TseReply<N>, TseError>,
    D: Fn(&Vec<N>) -> Result<Vec<N>, EmbeddingError>,
    I: Fn() -> usize,
    J: Fn(&Vec<N>) -> Result<Vec<N>, String>,
    E: Fn(N) -> N,
    Q: Fn(N) -> N,
    W: Fn(N) -> N,
    T: Fn(N) -> N,
    F: Fn(Memory),
>(
    apo: &mut MellonellaApo<N, V, R, S, C, P, O, M, D, I, J, E, Q, W, T, F>,
    samples: &[N],
    room: usize,
    out: Vec<N>,
)
    requires
        call_ensures(MellonellaApo::<N, V, R, S, C, P, O, M, D, I, J, E, Q, W, T, F>::process, (apo, samples, true, room), out),
        old(apo).pipeline is Some,
        lawful::<N>(),
    ensures
        out@.len() == if samples@.len() < room {
            samples@.len()
        } else {
            room as nat
        },
        forall|i: int| 0 <= i < out@.len() ==> #[trigger] out@[i] == num::<N>(0),
        final(apo).pipeline == old(apo).pipeline,
        final(apo).output_ring@ == old(apo).output_ring@,
{
}

/// The pipeline hears what came in, and what it gives comes out behind what waited, in order,
/// no sample twice; where that does not reach, the input is handed on at its place.
pub proof fn lemma_gated_audio_comes_out_in_order<
    N: Scalar,
    V: Fn(&Vec<N>, &Vec<N>, u32) -> Result<VadReply<N>, EmbeddingError>,
    R: Fn(&Vec<N>) -> Result<(Vec<N>, N), EmbeddingError>,
    S: Fn(Vec<N>) -> bool,
    C: Fn(bool) -> Received<N>,
    P: Fn(&Vec<N>) -> Option<N>,
    O: Fn(&Vec<N>) -> Result<OverlapReply<N>, EmbeddingError>,
    M: Fn(&[N], &[N], &Vec<Tensor<N>>) -> Result<TseReply<N>, TseError>,
    D: Fn(&Vec<N>) -> Result<Vec<N>, EmbeddingError>,
    I: Fn() -> usize,
    J: Fn(&Vec<N>) -> Result<Vec<N>, String>,
    E: Fn(N) -> N,
    Q: Fn(N) -> N,
    W: Fn(N) -> N,
    T: Fn(N) -> N,
    F: Fn(Memory),
>(
    apo: &mut MellonellaApo<N, V, R, S, C, P, O, M, D, I, J, E, Q, W, T, F>,
    samples: &[N],
    room: usize,
    out: Vec<N>,
)
    requires
        call_ensures(MellonellaApo::<N, V, R, S, C, P, O, M, D, I, J, E, Q, W, T, F>::process, (apo, samples, false, room), out),
        old(apo).pipeline is Some,
        samples@.len() <= room,
    ensures
        out@.len() == samples@.len(),
        final(apo).pipeline is Some,
        exists|pushed: Result<StreamingOutput<N>, PipelineError>, given: Seq<N>|
            {
                &&& #[trigger] StreamingPipeline::<N, V, R, S, C, P, O, M, D, I, J, E, Q, W, T, F>::is_push(
                    old(apo).pipeline->0,
                    samples@,
                    final(apo).pipeline->0,
                    pushed,
                )
                &&& pushed matches Ok(o) ==> given == o.audio@
                &&& pushed is Err ==> given.len() == 0
                &&& waits_behind(old(apo).output_ring@, #[trigger] given.len(), given, samples@, out@)
                &&& old(apo).output_ring@.len() + given.len() <= samples@.len() ==> final(
                    apo).output_ring@.len() == 0
                &&& old(apo).output_ring@.len() + given.len() > samples@.len() ==> out@ + final(
                    apo).output_ring@ == old(apo).output_ring@ + given
            },
{
    assert(samples@.take(samples@.len() as int) =~= samples@);
    let pushed = choose|pushed: Result<StreamingOutput<N>, PipelineError>|
        {
            &&& #[trigger] StreamingPipeline::<N, V, R, S, C, P, O, M, D, I, J, E, Q, W, T, F>::is_push(
                old(apo).pipeline->0,
                samples@,
                final(apo).pipeline->0,
                pushed,
            )
            &&& crate::apo::is_served(
                crate::apo::filled(old(apo).output_ring@, pushed),
                samples@,
                samples@.len(),
                out@,
            )
            &&& final(apo).output_ring@ == crate::apo::left_over(
                crate::apo::filled(old(apo).output_ring@, pushed),
                samples@.len(),
            )
        };
    let given = match pushed {
        Ok(o) => o.audio@,
        Err(_) => Seq::<N>::empty(),
    };
    let ring = old(apo).output_ring@ + given;
    assert(crate::apo::filled(old(apo).output_ring@, pushed) =~= ring);
    if ring.len() > samples@.len() {
        assert(out@ + final(apo).output_ring@ =~= ring);
    }
    assert(waits_behind(old(apo).output_ring@, given.len(), given, samples@, out@));
}

/// Sample by sample, `out` is what waited, then the `n` new samples, then the input.
pub open spec fn waits_behind<N>(
    waited: Seq<N>,
    n: nat,
    given: Seq<N>,
    samples: Seq<N>,
    out: Seq<N>,
) -> bool {
    forall|i: int|
        0 <= i < out.len() ==> #[trigger] out[i] == (if i < waited.len() {
            waited[i]
        } else if i < waited.len() + n {
            given[i - waited.len()]
        } else {
            samples[i]
        })
}

/// Locking needs the one format on both sides and builds a pipeline for it; a refusal changes
/// nothing. Unlocking gives the pipeline up and drops what waited.
pub proof fn lemma_lock_builds_and_unlock_drops<
    N: Scalar,
    V: Fn(&Vec<N>, &Vec<N>, u32) -> Result<VadReply<N>, EmbeddingError>,
    R: Fn(&Vec<N>) -> Result<(Vec<N>, N), EmbeddingError>,
    S: Fn(Vec<N>) -> bool,
    C: Fn(bool) -> Received<N>,
    P: Fn(&Vec<N>) -> Option<N>,
    O: Fn(&Vec<N>) -> Result<OverlapReply<N>, EmbeddingError>,
    M: Fn(&[N], &[N], &Vec<Tensor<N>>) -> Result<TseReply<N>, TseError>,
    D: Fn(&Vec<N>) -> Result<Vec<N>, EmbeddingError>,
    I: Fn() -> usize,
    J: Fn(&Vec<N>) -> Result<Vec<N>, String>,
    E: Fn(N) -> N,
    Q: Fn(N) -> N,
    W: Fn(N) -> N,
    T: Fn(N) -> N,
    F: Fn(Memory),
    X: Fn(u32) -> Result<StreamingPipeline<N, V, R, S, C, P, O, M, D, I, J, E, Q, W, T, F>, String>,
>(
    apo: &mut MellonellaApo<N, V, R, S, C, P, O, M, D, I, J, E, Q, W, T, F>,
    input: WaveFormat,
    output: WaveFormat,
    build: &X,
    r: Result<(), LockError>,
    then: &mut MellonellaApo<N, V, R, S, C, P, O, M, D, I, J, E, Q, W, T, F>,
)
    requires
        call_ensures(MellonellaApo::<N, V, R, S, C, P, O, M, D, I, J, E, Q, W, T, F>::lock_for_process::<X>, (apo, &input, &output, build), r),
        *then == *final(apo),
        call_ensures(MellonellaApo::<N, V, R, S, C, P, O, M, D, I, J, E, Q, W, T, F>::unlock_for_process, (then,), ()),
    ensures
        r is Ok ==> input.sample_rate == 48_000 && input.channels == 1 && input.format_tag == 3
            && output == input,
        r is Ok ==> final(apo).locked && final(apo).output_ring@.len() == 0 && (final(
            apo).pipeline matches Some(p) && call_ensures(*build, (48_000,), Ok(p))),
        r is Err ==> *final(apo) == *old(apo),
        !final(then).locked,
        final(then).pipeline is None,
        final(then).output_ring@.len() == 0,
{
}

} // verus!
