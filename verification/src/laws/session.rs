//! Laws of a live session: what the microphone gives reaches the pipeline, what the pipeline
//! gives reaches the loudspeaker, and what is counted.
use crate::assembly::StreamingPipeline;
use crate::chain::Memory;
use crate::devices::{
    AudioIoError, ChannelStrategy, DeviceConfig, DeviceKind, Pick,
};
use crate::dfn3::{is_pushed, SAMPLES_PER_CHUNK};
use crate::embedding::EmbeddingError;
use crate::engine::Station;
use crate::laws::cut_out;
use crate::laws::stream::{
    are_in_sequence, lemma_flushed_hears, lemma_way_is_heard, steps_through,
};
use crate::overlap::OverlapReply;
use crate::pipeline::PipelineError;
use crate::refresh::Received;
use crate::scalar::{lawful, num, Scalar};
use crate::session::{
    capture, plan_session, ring_capacity_chunks, stop, LiveSessionStats, LiveWorker, Offer,
    OutputFeed, SessionConfig, SessionEvent, SessionPlan, WorkerStep,
};
use crate::streaming::{Moment, OutputView, StreamingOutput};
use crate::tse::{Tensor, TseError, TseReply};
use crate::vad::VadReply;
use vstd::prelude::*;

verus! {

/// What the pipeline takes in at one rate is heard whole and in order, behind what waited;
/// what it gives out is what the frames give, one behind the other.
pub proof fn lemma_pipeline_hears_everything<
    N: Scalar,
    V: Fn(&Vec<N>, &Vec<N>, u32) -> Result<VadReply<N>, EmbeddingError>,
    R: Fn(&Vec<N>) -> Result<(Vec<N>, N), EmbeddingError>,
    S: Fn(Vec<N>) -> bool,
    C: Fn(bool) -> Received<N>,
    P: Fn(&Vec<N>) -> Option<N>,
    O: Fn(&Vec<N>) -> Result<OverlapReply<N>, EmbeddingError>,
    M: Fn(&[N], &[N], &Vec<Tensor<N>>) -> Result<TseReply<N>, TseError>,
    D: Fn(&Vec<N>) -> Result<Vec<N>, EmbeddingError>,
    I: Fn() -> usize,
    J: Fn(&Vec<N>) -> Result<Vec<N>, String>,
    E: Fn(N) -> N,
    Q: Fn(N) -> N,
    W: Fn(N) -> N,
    T: Fn(N) -> N,
    F: Fn(Memory),
>(
    p: &mut StreamingPipeline<N, V, R, S, C, P, O, M, D, I, J, E, Q, W, T, F>,
    samples: &[N],
    out: StreamingOutput<N>,
    audio: Seq<N>,
)
    requires
        call_ensures(
            StreamingPipeline::<N, V, R, S, C, P, O, M, D, I, J, E, Q, W, T, F>::push_samples,
            (p, samples),
            Ok::<StreamingOutput<N>, PipelineError>(out),
        ),
        !old(p).intake.dual_rate,
        audio == old(p).intake.audio_ring@ + samples@,
    ensures
        exists|moments: Seq<Moment<N>>, deltas: Seq<OutputView<N>>, at: Seq<int>|
            {
                &&& deltas.len() == audio.len() / 512
                &&& moments[0].state == old(p).state && moments[0].vad == old(p).vad@
                    && moments[0].pool == old(p).pool@
                &&& moments.last().state == final(p).state && moments.last().vad == final(p).vad@
                    && moments.last().pool == final(p).pool@
                &&& #[trigger] steps_through(
                    old(p).kit,
                    audio,
                    moments,
                    old(p).cohort@,
                    old(p).config,
                    deltas,
                )
                &&& #[trigger] are_in_sequence(deltas, at, out@)
            },
        final(p).intake.audio_ring@.len() < 512,
        cut_out(
            audio,
            audio.len() - final(p).intake.audio_ring@.len(),
            final(p).intake.audio_ring@.len() as int,
            final(p).intake.audio_ring@,
        ),
{
    let start = Station { ring: audio, at: old(p).station().at };
    let end = final(p).station();
    let (moments, deltas, at) = lemma_way_is_heard(
        old(p).kit,
        start,
        end,
        out@,
        old(p).cohort@,
        old(p).config,
    );
    assert(steps_through(
        old(p).kit,
        audio,
        moments,
        old(p).cohort@,
        old(p).config,
        deltas,
    ));
    assert(are_in_sequence(deltas, at, out@));
}

/// A pipeline that is flushed has heard everything: what still waited, at one rate, followed by
/// silence up to a whole frame. Nothing waits any more, and no result is out.
pub proof fn lemma_flushed_pipeline_has_heard_the_rest<
    N: Scalar,
    V: Fn(&Vec<N>, &Vec<N>, u32) -> Result<VadReply<N>, EmbeddingError>,
    R: Fn(&Vec<N>) -> Result<(Vec<N>, N), EmbeddingError>,
    S: Fn(Vec<N>) -> bool,
    C: Fn(bool) -> Received<N>,
    P: Fn(&Vec<N>) -> Option<N>,
    O: Fn(&Vec<N>) -> Result<OverlapReply<N>, EmbeddingError>,
    M: Fn(&[N], &[N], &Vec<Tensor<N>>) -> Result<TseReply<N>, TseError>,
    D: Fn(&Vec<N>) -> Result<Vec<N>, EmbeddingError>,
    I: Fn() -> usize,
    J: Fn(&Vec<N>) -> Result<Vec<N>, String>,
    E: Fn(N) -> N,
    Q: Fn(N) -> N,
    W: Fn(N) -> N,
    T: Fn(N) -> N,
    F: Fn(Memory),
>(
    p: &mut StreamingPipeline<N, V, R, S, C, P, O, M, D, I, J, E, Q, W, T, F>,
    out: StreamingOutput<N>,
)
    requires
        call_ensures(StreamingPipeline::<N, V, R, S, C, P, O, M, D, I, J, E, Q, W, T, F>::flush, (p,), Ok::<StreamingOutput<N>, PipelineError>(out)),
        lawful::<N>(),
        !old(p).intake.dual_rate,
        0 < old(p).intake.audio_ring@.len() < 512,
    ensures
        final(p).intake.audio_ring@.len() == 0,
        final(p).state.channel matches Some(c) ==> c@.outstanding == 0 && c@.pending is None,
        exists|frame: Seq<N>, at: Moment<N>, delta: OutputView<N>|
            {
                &&& frame.len() == 512
                &&& forall|k: int|
                    0 <= k < old(p).intake.audio_ring@.len() ==> #[trigger] frame[k] == old(
                        p,
                    ).intake.audio_ring@[k]
                &&& forall|k: int|
                    old(p).intake.audio_ring@.len() <= k < 512 ==> #[trigger] frame[k] == num::<N>(
                        0,
                    )
                &&& #[trigger] old(p).kit.is_stepped(
                    Moment { state: old(p).state, vad: old(p).vad@, pool: old(p).pool@ },
                    frame,
                    frame,
                    old(p).cohort@,
                    old(p).config,
                    at,
                    delta,
                )
                &&& out@.gate_decisions == delta.gate_decisions
                &&& out@.gate_per_frame == delta.gate_per_frame
                &&& final(p).vad@ == at.vad
            },
{
    let (frame, at, delta) = lemma_flushed_hears(
        old(p).kit,
        old(p).station(),
        final(p).station(),
        out@,
        old(p).cohort@,
        old(p).config,
    );
    assert(old(p).kit.is_stepped(
        old(p).station().at,
        frame,
        frame,
        old(p).cohort@,
        old(p).config,
        at,
        delta,
    ));
}

/// A pipeline that is reset has heard nothing: no audio waits, no frame is counted, nothing is
/// decided. The enrolled voice stays.
pub proof fn lemma_reset_forgets_the_audio<
    N: Scalar,
    V: Fn(&Vec<N>, &Vec<N>, u32) -> Result<VadReply<N>, EmbeddingError>,
    R: Fn(&Vec<N>) -> Result<(Vec<N>, N), EmbeddingError>,
    S: Fn(Vec<N>) -> bool,
    C: Fn(bool) -> Received<N>,
    P: Fn(&Vec<N>) -> Option<N>,
    O: Fn(&Vec<N>) -> Result<OverlapReply<N>, EmbeddingError>,
    M: Fn(&[N], &[N], &Vec<Tensor<N>>) -> Result<TseReply<N>, TseError>,
    D: Fn(&Vec<N>) -> Result<Vec<N>, EmbeddingError>,
    I: Fn() -> usize,
    J: Fn(&Vec<N>) -> Result<Vec<N>, String>,
    E: Fn(N) -> N,
    Q: Fn(N) -> N,
    W: Fn(N) -> N,
    T: Fn(N) -> N,
    F: Fn(Memory),
>(p: &mut StreamingPipeline<N, V, R, S, C, P, O, M, D, I, J, E, Q, W, T, F>)
    requires
        call_ensures(StreamingPipeline::<N, V, R, S, C, P, O, M, D, I, J, E, Q, W, T, F>::reset, (p,), ()),
    ensures
        final(p).intake.audio_ring@.len() == 0,
        final(p).state.frame_idx == 0,
        final(p).state.audio_samples_emitted == 0,
        final(p).state.current_decision is None,
        final(p).state.speech@.buffer.len() == 0,
        final(p).state.chain@.held_back() == 0,
        final(p).pool == old(p).pool,
        final(p).config == old(p).config,
        final(p).intake.dual_rate == old(p).intake.dual_rate,
{
}

/// What a microphone delivers at the rate of the session becomes one channel, a sample for a
/// frame: the wanted channel's sample where one is wanted, and all of it where there is one
/// channel only.
pub proof fn lemma_capture_keeps_each_frame<N: Scalar, F: Fn(&Vec<N>) -> Result<Vec<N>, String>>(
    strategy: ChannelStrategy,
    data: &[N],
    channels: usize,
    step: &F,
    r: Result<Vec<N>, String>,
    f: int,
)
    requires
        call_ensures(capture::<N, F>, (strategy, data, channels, None::<usize>, step), r),
        0 <= f < data@.len(),
    ensures
        r is Ok,
        channels <= 1 ==> r->Ok_0@ == data@,
        channels > 1 ==> r->Ok_0@.len() == data@.len() / channels as nat,
        channels > 1 && f < r->Ok_0@.len() ==> (strategy matches ChannelStrategy::Channel(c)
            ==> c < channels ==> r->Ok_0@[f] == data@[f * channels + c]),
{
    let mono = choose|mono: Vec<N>| #[trigger]
        crate::devices::is_downmixed(strategy, data@, channels, mono@)
            && crate::session::is_captured(mono@, None, *step, r);
    if channels > 1 && f < mono@.len() {
        if strategy matches ChannelStrategy::Channel(c) && c < channels {
            let n = data@.len() as int;
            let m = channels as int;
            vstd::arithmetic::div_mod::lemma_fundamental_div_mod(n, m);
            let q = n / m;
            assert((f + 1) * m <= n) by (nonlinear_arith)
                requires
                    n == m * q + n % m,
                    0 <= n % m,
                    f + 1 <= q,
                    m > 0,
            ;
            assert(f * m + m == (f + 1) * m) by (nonlinear_arith);
            assert(0 <= f * m) by (nonlinear_arith)
                requires
                    0 <= f,
                    0 < m,
            ;
            assert(mono@[f] == crate::devices::mixed_down(
                strategy,
                crate::devices::frame_of(data@, channels as nat, f),
            ));
        }
    }
}

/// The loudspeaker hears what was fed to it, in order and on every channel, what waited first;
/// where nothing waits any more it hears silence, and that is counted once for a request. What
/// was not asked for goes on waiting.
pub proof fn lemma_loudspeaker_hears_in_order<N: Scalar>(
    feed: &mut OutputFeed<N>,
    samples: &[N],
    then: &mut OutputFeed<N>,
    frames: usize,
    channels: usize,
    stats: &mut LiveSessionStats,
    out: Vec<N>,
    f: int,
    c: int,
)
    requires
        call_ensures(OutputFeed::<N>::feed, (feed, samples), ()),
        *then == *final(feed),
        call_ensures(OutputFeed::<N>::fill, (then, frames, channels, stats), out),
        lawful::<N>(),
        0 <= f < frames,
        0 <= c < channels,
    ensures
        out@.len() == frames * channels,
        out@[f * channels + c] == if f < old(feed)@.len() {
            old(feed)@[f]
        } else if f < old(feed)@.len() + samples@.len() {
            samples@[f - old(feed)@.len()]
        } else {
            num::<N>(0)
        },
        old(feed)@.len() + samples@.len() < frames ==> final(stats).output_underruns == old(
            stats,
        ).output_underruns.wrapping_add(1) && final(then)@.len() == 0,
        old(feed)@.len() + samples@.len() >= frames ==> *final(stats) == *old(stats)
            && final(then)@ == (old(feed)@ + samples@).skip(frames as int),
        final(stats).samples_processed == old(stats).samples_processed,
        final(stats).input_overruns == old(stats).input_overruns,
{
    let waiting = old(feed)@ + samples@;
    assert(crate::session::entry(out@, channels as nat, f, c) == out@[f * channels + c]);
    if waiting.len() == frames {
        assert(waiting.skip(frames as int) =~= Seq::<N>::empty());
    }
}

/// Without noise suppression the worker hands the very audio it got to the pipeline, and what
/// the pipeline gives for it is what is sent.
pub proof fn lemma_worker_passes_audio_on<
    N: Scalar,
    V: Fn(&Vec<N>, &Vec<N>, u32) -> Result<VadReply<N>, EmbeddingError>,
    R: Fn(&Vec<N>) -> Result<(Vec<N>, N), EmbeddingError>,
    S: Fn(Vec<N>) -> bool,
    C: Fn(bool) -> Received<N>,
    P: Fn(&Vec<N>) -> Option<N>,
    O: Fn(&Vec<N>) -> Result<OverlapReply<N>, EmbeddingError>,
    M: Fn(&[N], &[N], &Vec<Tensor<N>>) -> Result<TseReply<N>, TseError>,
    D: Fn(&Vec<N>) -> Result<Vec<N>, EmbeddingError>,
    I: Fn() -> usize,
    J: Fn(&Vec<N>) -> Result<Vec<N>, String>,
    E: Fn(N) -> N,
    Q: Fn(N) -> N,
    W: Fn(N) -> N,
    T: Fn(N) -> N,
    F: Fn(Memory),
    H: Fn(&Vec<N>) -> Result<Vec<N>, EmbeddingError>,
>(
    w: &mut LiveWorker<N, V, R, S, C, P, O, M, D, I, J, E, Q, W, T, F, H>,
    chunk: &[N],
    step: WorkerStep<N>,
)
    requires
        call_ensures(LiveWorker::<N, V, R, S, C, P, O, M, D, I, J, E, Q, W, T, F, H>::on_chunk, (w, chunk), step),
        old(w).dfn3 is None,
        chunk@.len() > 0,
    ensures
        final(w).dfn3 is None,
        final(w).stats == old(w).stats,
        exists|out: Result<StreamingOutput<N>, PipelineError>|
            {
                &&& #[trigger] StreamingPipeline::<N, V, R, S, C, P, O, M, D, I, J, E, Q, W, T, F>::is_push(old(w).pipeline, chunk@, final(w).pipeline, out)
                &&& out matches Ok(o) ==> o.audio@.len() > 0 ==> (step matches WorkerStep::Send(
                    a,
                ) && a@ == o.audio@)
                &&& out matches Ok(o) ==> o.audio@.len() == 0 ==> step is Wait
                &&& out matches Err(e) ==> (step matches WorkerStep::Report(SessionEvent::Error(
                    t,
                )) && t@ == e.words())
            },
{
}

/// With noise suppression, what it gives for what waited and the new audio is what the
/// pipeline gets; the rest waits in it.
pub proof fn lemma_worker_suppresses_noise_first<
    N: Scalar,
    V: Fn(&Vec<N>, &Vec<N>, u32) -> Result<VadReply<N>, EmbeddingError>,
    R: Fn(&Vec<N>) -> Result<(Vec<N>, N), EmbeddingError>,
    S: Fn(Vec<N>) -> bool,
    C: Fn(bool) -> Received<N>,
    P: Fn(&Vec<N>) -> Option<N>,
    O: Fn(&Vec<N>) -> Result<OverlapReply<N>, EmbeddingError>,
    M: Fn(&[N], &[N], &Vec<Tensor<N>>) -> Result<TseReply<N>, TseError>,
    D: Fn(&Vec<N>) -> Result<Vec<N>, EmbeddingError>,
    I: Fn() -> usize,
    J: Fn(&Vec<N>) -> Result<Vec<N>, String>,
    E: Fn(N) -> N,
    Q: Fn(N) -> N,
    W: Fn(N) -> N,
    T: Fn(N) -> N,
    F: Fn(Memory),
    H: Fn(&Vec<N>) -> Result<Vec<N>, EmbeddingError>,
>(
    w: &mut LiveWorker<N, V, R, S, C, P, O, M, D, I, J, E, Q, W, T, F, H>,
    chunk: &[N],
    audio: Vec<N>,
)
    requires
        call_ensures(LiveWorker::<N, V, R, S, C, P, O, M, D, I, J, E, Q, W, T, F, H>::on_chunk, (w, chunk), WorkerStep::Send(audio)),
        old(w).dfn3 is Some,
    ensures
        final(w).dfn3 is Some,
        exists|quiet: Vec<N>, out: StreamingOutput<N>|
            {
                &&& #[trigger] is_pushed(
                    old(w).dfn3->0@,
                    chunk@,
                    old(w).enhance,
                    final(w).dfn3->0@,
                    Ok(quiet),
                )
                &&& #[trigger] StreamingPipeline::<N, V, R, S, C, P, O, M, D, I, J, E, Q, W, T, F>::is_push(old(w).pipeline, quiet@, final(w).pipeline, Ok(out))
                &&& out.audio@ == audio@
            },
{
    let out = choose|out: Result<Vec<N>, EmbeddingError>|
        {
            &&& #[trigger] is_pushed(
                old(w).dfn3->0@,
                chunk@,
                old(w).enhance,
                final(w).dfn3->0@,
                out,
            )
            &&& out matches Ok(v) && LiveWorker::<N, V, R, S, C, P, O, M, D, I, J, E, Q, W, T, F, H>::is_heard(
                *old(w),
                v@,
                *final(w),
                WorkerStep::Send(audio),
            )
        };
    let quiet = out->Ok_0;
    let heard = choose|heard: Result<StreamingOutput<N>, PipelineError>|
        {
            &&& #[trigger] StreamingPipeline::<N, V, R, S, C, P, O, M, D, I, J, E, Q, W, T, F>::is_push(old(w).pipeline, quiet@, final(w).pipeline, heard)
            &&& heard matches Ok(o) && crate::session::is_handed_on(
                o.audio@,
                WorkerStep::Send(audio),
            )
        };
    assert(StreamingPipeline::<N, V, R, S, C, P, O, M, D, I, J, E, Q, W, T, F>::is_push(old(w).pipeline, quiet@, final(w).pipeline, Ok(heard->Ok_0)));
}

/// Samples are counted once they are handed on, and the worker goes on unless the other side
/// is gone.
pub proof fn lemma_samples_are_counted_when_delivered<
    N: Scalar,
    V: Fn(&Vec<N>, &Vec<N>, u32) -> Result<VadReply<N>, EmbeddingError>,
    R: Fn(&Vec<N>) -> Result<(Vec<N>, N), EmbeddingError>,
    S: Fn(Vec<N>) -> bool,
    C: Fn(bool) -> Received<N>,
    P: Fn(&Vec<N>) -> Option<N>,
    O: Fn(&Vec<N>) -> Result<OverlapReply<N>, EmbeddingError>,
    M: Fn(&[N], &[N], &Vec<Tensor<N>>) -> Result<TseReply<N>, TseError>,
    D: Fn(&Vec<N>) -> Result<Vec<N>, EmbeddingError>,
    I: Fn() -> usize,
    J: Fn(&Vec<N>) -> Result<Vec<N>, String>,
    E: Fn(N) -> N,
    Q: Fn(N) -> N,
    W: Fn(N) -> N,
    T: Fn(N) -> N,
    F: Fn(Memory),
    H: Fn(&Vec<N>) -> Result<Vec<N>, EmbeddingError>,
>(
    w: &mut LiveWorker<N, V, R, S, C, P, O, M, D, I, J, E, Q, W, T, F, H>,
    n: usize,
    delivered: bool,
    go_on: bool,
)
    requires
        call_ensures(LiveWorker::<N, V, R, S, C, P, O, M, D, I, J, E, Q, W, T, F, H>::on_sent, (w, n, delivered), go_on),
    ensures
        delivered ==> go_on && final(w).stats.samples_processed == old(
            w,
        ).stats.samples_processed.wrapping_add(n as u64),
        !delivered && n > 0 ==> !go_on && final(w).stats == old(w).stats,
        final(w).stats.input_overruns == old(w).stats.input_overruns,
        final(w).stats.output_underruns == old(w).stats.output_underruns,
        final(w).pipeline == old(w).pipeline,
{
}

/// A piece for which there is no room is an overrun, and no other.
pub proof fn lemma_overruns_are_counted(stats: &mut LiveSessionStats, offer: Offer)
    requires
        call_ensures(LiveSessionStats::note_offer, (stats, offer), ()),
    ensures
        offer == Offer::Full ==> final(stats).input_overruns == old(
            stats,
        ).input_overruns.wrapping_add(1),
        offer != Offer::Full ==> *final(stats) == *old(stats),
        final(stats).samples_processed == old(stats).samples_processed,
        final(stats).output_underruns == old(stats).output_underruns,
{
}

/// The counts come back at the end, unless the worker panicked.
pub proof fn lemma_counts_come_back(
    joined: bool,
    stats: LiveSessionStats,
    r: Result<LiveSessionStats, AudioIoError>,
)
    requires
        call_ensures(stop, (joined, stats), r),
    ensures
        joined <==> r is Ok,
        r matches Ok(s) ==> s == stats,
{
}

/// A queue has a place for each 48 samples, and sixteen at least.
pub proof fn lemma_queue_has_its_places(samples: usize, r: usize)
    requires
        call_ensures(ring_capacity_chunks, (samples,), r),
    ensures
        r >= 16,
        samples < (r + 1) * 48,
        r > 16 ==> r * 48 <= samples,
{
}

/// A session runs at 48 kHz whatever its engine was configured for, on the devices that were
/// asked for, as those say they stream; both stream 32-bit floats, and the queues hold a tenth
/// of a second at least and as much as was asked for.
pub proof fn lemma_session_is_planned_as_asked<
    N,
    L: Fn(DeviceKind) -> Result<Vec<Option<String>>, String>,
    H: Fn(DeviceKind) -> bool,
    Q: Fn(DeviceKind, Pick) -> Result<DeviceConfig, String>,
>(config: SessionConfig<N>, list: &L, has_default: &H, query: &Q, plan: SessionPlan<N>)
    requires
        call_ensures(
            plan_session::<N, L, H, Q>,
            (config, list, has_default, query),
            Ok::<SessionPlan<N>, AudioIoError>(plan),
        ),
    ensures
        plan.streaming.audio_sample_rate == 48_000,
        plan.streaming.pipeline == config.streaming.pipeline,
        plan.streaming.gate == config.streaming.gate,
        plan.streaming.diagnostics == config.streaming.diagnostics,
        call_ensures(*query, (DeviceKind::Input, plan.input), Ok(plan.input_config)),
        call_ensures(*query, (DeviceKind::Output, plan.output), Ok(plan.output_config)),
        plan.input_config.sample_format@ == "F32"@,
        plan.output_config.sample_format@ == "F32"@,
        plan.slots >= 100,
        config.ring_capacity_samples < (plan.slots + 1) * 48,
        config.input_device is None ==> plan.input == Pick::Default && call_ensures(
            *has_default,
            (DeviceKind::Input,),
            true,
        ),
        config.output_device is None ==> plan.output == Pick::Default && call_ensures(
            *has_default,
            (DeviceKind::Output,),
            true,
        ),
        config.input_device matches Some(wanted) ==> exists|names: Vec<Option<String>>|
            {
                &&& #[trigger] call_ensures(*list, (DeviceKind::Input,), Ok(names))
                &&& plan.input matches Pick::Listed(i) && i < names@.len() && (
                names@[i as int] matches Some(n) && n@ == wanted@)
            },
        config.output_device matches Some(wanted) ==> exists|names: Vec<Option<String>>|
            {
                &&& #[trigger] call_ensures(*list, (DeviceKind::Output,), Ok(names))
                &&& plan.output matches Pick::Listed(i) && i < names@.len() && (
                names@[i as int] matches Some(n) && n@ == wanted@)
            },
{
}

/// At the end of the audio, what noise suppression held back is filled up with silence, goes
/// through it, and then through the pipeline, and nothing is held back any more.
pub proof fn lemma_worker_drains_suppression<
    N: Scalar,
    V: Fn(&Vec<N>, &Vec<N>, u32) -> Result<VadReply<N>, EmbeddingError>,
    R: Fn(&Vec<N>) -> Result<(Vec<N>, N), EmbeddingError>,
    S: Fn(Vec<N>) -> bool,
    C: Fn(bool) -> Received<N>,
    P: Fn(&Vec<N>) -> Option<N>,
    O: Fn(&Vec<N>) -> Result<OverlapReply<N>, EmbeddingError>,
    M: Fn(&[N], &[N], &Vec<Tensor<N>>) -> Result<TseReply<N>, TseError>,
    D: Fn(&Vec<N>) -> Result<Vec<N>, EmbeddingError>,
    I: Fn() -> usize,
    J: Fn(&Vec<N>) -> Result<Vec<N>, String>,
    E: Fn(N) -> N,
    Q: Fn(N) -> N,
    W: Fn(N) -> N,
    T: Fn(N) -> N,
    F: Fn(Memory),
    H: Fn(&Vec<N>) -> Result<Vec<N>, EmbeddingError>,
>(w: &mut LiveWorker<N, V, R, S, C, P, O, M, D, I, J, E, Q, W, T, F, H>, audio: Vec<N>)
    requires
        old(w).wf(),
        call_ensures(LiveWorker::<N, V, R, S, C, P, O, M, D, I, J, E, Q, W, T, F, H>::drain_enhancer, (w,), WorkerStep::Send(audio)),
        lawful::<N>(),
    ensures
        old(w).dfn3 matches Some(d) && d@.len() > 0,
        final(w).dfn3 matches Some(d) && d@.len() == 0,
        exists|chunk: Vec<N>, quiet: Vec<N>, out: StreamingOutput<N>|
            {
                &&& chunk@.len() == SAMPLES_PER_CHUNK
                &&& forall|i: int|
                    0 <= i < old(w).dfn3->0@.len() ==> #[trigger] chunk@[i] == old(w).dfn3->0@[i]
                &&& forall|i: int|
                    old(w).dfn3->0@.len() <= i < chunk@.len() ==> #[trigger] chunk@[i] == num::<N>(
                        0,
                    )
                &&& #[trigger] call_ensures(old(w).enhance, (&chunk,), Ok(quiet))
                &&& #[trigger] StreamingPipeline::<N, V, R, S, C, P, O, M, D, I, J, E, Q, W, T, F>::is_push(old(w).pipeline, quiet@, final(w).pipeline, Ok(out))
                &&& out.audio@ == audio@
            },
{
    let held = old(w).dfn3->0@;
    if held.len() == 0 {
        assert(LiveWorker::<N, V, R, S, C, P, O, M, D, I, J, E, Q, W, T, F, H>::is_heard(*old(w), Seq::empty(), *final(w), WorkerStep::Send(audio)));
    }
    let (padded, out) = choose|padded: Seq<N>, out: Result<Vec<N>, EmbeddingError>|
        {
            &&& crate::tse_stage::is_padded(held, SAMPLES_PER_CHUNK as nat, padded)
            &&& #[trigger] crate::dfn3::enhanced_as(padded, old(w).enhance, out)
            &&& out matches Ok(v) && exists|heard: WorkerStep<N>| #[trigger]
                LiveWorker::<N, V, R, S, C, P, O, M, D, I, J, E, Q, W, T, F, H>::is_heard(*old(w), v@, *final(w), heard) && if heard is Report {
                    false
                } else {
                    WorkerStep::Send(audio) == heard
                }
        };
    let quiet = out->Ok_0;
    let chunk = choose|v: Vec<N>|
        v@ == padded && #[trigger] call_ensures(old(w).enhance, (&v,), out);
    assert(LiveWorker::<N, V, R, S, C, P, O, M, D, I, J, E, Q, W, T, F, H>::is_heard(*old(w), quiet@, *final(w), WorkerStep::Send(audio)));
    let heard = choose|heard: Result<StreamingOutput<N>, PipelineError>|
        {
            &&& #[trigger] StreamingPipeline::<N, V, R, S, C, P, O, M, D, I, J, E, Q, W, T, F>::is_push(old(w).pipeline, quiet@, final(w).pipeline, heard)
            &&& heard matches Ok(o) && crate::session::is_handed_on(
                o.audio@,
                WorkerStep::Send(audio),
            )
        };
    assert forall|i: int| 0 <= i < held.len() implies #[trigger] chunk@[i] == held[i] by {
        assert(padded.take(held.len() as int)[i] == held[i]);
    }
    assert(call_ensures(old(w).enhance, (&chunk,), Ok(quiet)));
    assert(StreamingPipeline::<N, V, R, S, C, P, O, M, D, I, J, E, Q, W, T, F>::is_push(old(w).pipeline, quiet@, final(w).pipeline, Ok(heard->Ok_0)));
}

/// At the end of the audio, what the pipeline gives when it is flushed is what is sent.
pub proof fn lemma_worker_drains_the_pipeline<
    N: Scalar,
    V: Fn(&Vec<N>, &Vec<N>, u32) -> Result<VadReply<N>, EmbeddingError>,
    R: Fn(&Vec<N>) -> Result<(Vec<N>, N), EmbeddingError>,
    S: Fn(Vec<N>) -> bool,
    C: Fn(bool) -> Received<N>,
    P: Fn(&Vec<N>) -> Option<N>,
    O: Fn(&Vec<N>) -> Result<OverlapReply<N>, EmbeddingError>,
    M: Fn(&[N], &[N], &Vec<Tensor<N>>) -> Result<TseReply<N>, TseError>,
    D: Fn(&Vec<N>) -> Result<Vec<N>, EmbeddingError>,
    I: Fn() -> usize,
    J: Fn(&Vec<N>) -> Result<Vec<N>, String>,
    E: Fn(N) -> N,
    Q: Fn(N) -> N,
    W: Fn(N) -> N,
    T: Fn(N) -> N,
    F: Fn(Memory),
    H: Fn(&Vec<N>) -> Result<Vec<N>, EmbeddingError>,
>(w: &mut LiveWorker<N, V, R, S, C, P, O, M, D, I, J, E, Q, W, T, F, H>, step: WorkerStep<N>)
    requires
        call_ensures(LiveWorker::<N, V, R, S, C, P, O, M, D, I, J, E, Q, W, T, F, H>::drain_pipeline, (w,), step),
    ensures
        exists|out: Result<StreamingOutput<N>, PipelineError>|
            {
                &&& #[trigger] StreamingPipeline::<N, V, R, S, C, P, O, M, D, I, J, E, Q, W, T, F>::is_flush(old(w).pipeline, final(w).pipeline, out)
                &&& out matches Ok(o) ==> o.audio@.len() > 0 ==> (step matches WorkerStep::Send(
                    a,
                ) && a@ == o.audio@)
                &&& out is Err ==> step is Wait
            },
        step !is Report,
{
}

} // verus!
