//! Laws of a stream of frames: no sample is lost or heard twice, and what is given out is what
//! the frames give, one behind the other.
use crate::chain::Memory;
use crate::config::StreamingConfig;
use crate::embedding::EmbeddingError;
use crate::engine::{joined_output, logged_all, outputs, Intake, Station};
use crate::enrollment::{EmbeddingPool, PoolView};
use crate::laws::cut_out;
use crate::laws::score::are_column_means;
use crate::overlap::OverlapReply;
use crate::pipeline::{
    is_refreshed, AutoLearnEvent, AutoLearnKind, PipelineError, ScoreState,
};
use crate::refresh::{are_answers, Received};
use crate::scalar::{lawful, num, Scalar};
use crate::streaming::{Kit, Moment, OutputView, StreamingOutput, StreamingState};
use crate::tse::{Tensor, TseError, TseReply};
use crate::turn::TurnState;
use crate::vad::{SileroVad, VadReply};
use vstd::prelude::*;

verus! {

/// An output that is put behind another comes after it in everything it holds.
pub proof fn lemma_outputs_keep_their_order<N>(
    out: &mut StreamingOutput<N>,
    more: StreamingOutput<N>,
)
    requires
        call_ensures(StreamingOutput::<N>::append, (out, more), ()),
    ensures
        final(out).audio@ == old(out).audio@ + more.audio@,
        final(out).gate_decisions@ == old(out).gate_decisions@ + more.gate_decisions@,
        final(out).events@ == old(out).events@ + more.events@,
        final(out).gate_per_frame@ == old(out).gate_per_frame@ + more.gate_per_frame@,
        final(out).score_per_frame@ == old(out).score_per_frame@ + more.score_per_frame@,
        final(out).cos_sim_max_per_frame@ == old(out).cos_sim_max_per_frame@
            + more.cos_sim_max_per_frame@,
        final(out).f0_match_per_frame@ == old(out).f0_match_per_frame@ + more.f0_match_per_frame@,
        final(out).tse_applied <==> old(out).tse_applied || more.tse_applied,
{
    assert(final(out)@ == joined_output(old(out)@, more@));
}

/// A frame is made of the oldest audio that waits, and what is behind it goes on waiting. Where
/// the rates agree it is that audio, 512 samples of it; where they do
/// not, it is what the resampler makes of as much as it asked for.
pub proof fn lemma_frame_is_the_oldest_audio<
    N: Scalar,
    V: Fn(&Vec<N>, &Vec<N>, u32) -> Result<VadReply<N>, EmbeddingError>,
    R: Fn(&Vec<N>) -> Result<(Vec<N>, N), EmbeddingError>,
    S: Fn(Vec<N>) -> bool,
    C: Fn(bool) -> Received<N>,
    P: Fn(&Vec<N>) -> Option<N>,
    O: Fn(&Vec<N>) -> Result<OverlapReply<N>, EmbeddingError>,
    M: Fn(&[N], &[N], &Vec<Tensor<N>>) -> Result<TseReply<N>, TseError>,
    D: Fn(&Vec<N>) -> Result<Vec<N>, EmbeddingError>,
    I: Fn() -> usize,
    J: Fn(&Vec<N>) -> Result<Vec<N>, String>,
    E: Fn(N) -> N,
    Q: Fn(N) -> N,
    W: Fn(N) -> N,
    T: Fn(N) -> N,
    F: Fn(Memory),
>(
    kit: Kit<N, V, R, S, C, P, O, M, D, I, J, E, Q, W, T, F>,
    intake: &mut Intake<N>,
    chunk: Vec<N>,
    frame: Vec<N>,
)
    requires
        call_ensures(
            Kit::<N, V, R, S, C, P, O, M, D, I, J, E, Q, W, T, F>::drain_one_frame,
            (&kit, intake),
            Ok::<Option<(Vec<N>, Vec<N>)>, PipelineError>(Some((chunk, frame))),
        ),
    ensures
        old(intake).audio_ring@ == chunk@ + final(intake).audio_ring@,
        !old(intake).dual_rate ==> frame@ == chunk@ && chunk@.len() == 512,
        old(intake).dual_rate ==> exists|asked: usize, heard: Vec<N>|
            {
                &&& call_ensures(kit.next_input, (), asked)
                &&& #[trigger] heard@.take(asked as int) == chunk@
                &&& heard@ == chunk@
                &&& asked == chunk@.len()
                &&& #[trigger] call_ensures(kit.resample, (&heard,), Ok::<Vec<N>, String>(frame))
            },
{
    assert(chunk.len() == chunk@.len());
    if old(intake).dual_rate {
        let ring = old(intake).audio_ring@;
        let n = chunk@.len() as usize;
        assert(kit.is_cut(true, ring, n, frame));
        let heard = choose|v: Vec<N>|
            v@ == ring.take(n as int) && #[trigger] call_ensures(
                kit.resample,
                (&v,),
                Ok::<Vec<N>, String>(frame),
            );
        assert(heard@.take(n as int) =~= chunk@);
    }
}

/// A frame is made as soon as there is audio for it, and not before.
pub proof fn lemma_frame_waits_for_its_audio<
    N: Scalar,
    V: Fn(&Vec<N>, &Vec<N>, u32) -> Result<VadReply<N>, EmbeddingError>,
    R: Fn(&Vec<N>) -> Result<(Vec<N>, N), EmbeddingError>,
    S: Fn(Vec<N>) -> bool,
    C: Fn(bool) -> Received<N>,
    P: Fn(&Vec<N>) -> Option<N>,
    O: Fn(&Vec<N>) -> Result<OverlapReply<N>, EmbeddingError>,
    M: Fn(&[N], &[N], &Vec<Tensor<N>>) -> Result<TseReply<N>, TseError>,
    D: Fn(&Vec<N>) -> Result<Vec<N>, EmbeddingError>,
    I: Fn() -> usize,
    J: Fn(&Vec<N>) -> Result<Vec<N>, String>,
    E: Fn(N) -> N,
    Q: Fn(N) -> N,
    W: Fn(N) -> N,
    T: Fn(N) -> N,
    F: Fn(Memory),
>(
    kit: Kit<N, V, R, S, C, P, O, M, D, I, J, E, Q, W, T, F>,
    intake: &mut Intake<N>,
)
    requires
        call_ensures(
            Kit::<N, V, R, S, C, P, O, M, D, I, J, E, Q, W, T, F>::drain_one_frame,
            (&kit, intake),
            Ok::<Option<(Vec<N>, Vec<N>)>, PipelineError>(None),
        ),
    ensures
        final(intake).audio_ring@ == old(intake).audio_ring@,
        !old(intake).dual_rate ==> old(intake).audio_ring@.len() < 512,
        old(intake).dual_rate ==> exists|asked: usize| #[trigger]
            call_ensures(kit.next_input, (), asked) && old(intake).audio_ring@.len() < asked,
{
    let n = choose|n: usize| #[trigger]
        kit.needs(old(intake).dual_rate, n) && old(intake).audio_ring@.len() < n;
    if old(intake).dual_rate {
        assert(call_ensures(kit.next_input, (), n));
    }
}

/// Frame `i` of a run at one rate: the engine stepped from `from` to `to` on samples
/// `512 * i` to `512 * i + 511` of the audio.
pub open spec fn steps_on<
    N: Scalar,
    V: Fn(&Vec<N>, &Vec<N>, u32) -> Result<VadReply<N>, EmbeddingError>,
    R: Fn(&Vec<N>) -> Result<(Vec<N>, N), EmbeddingError>,
    S: Fn(Vec<N>) -> bool,
    C: Fn(bool) -> Received<N>,
    P: Fn(&Vec<N>) -> Option<N>,
    O: Fn(&Vec<N>) -> Result<OverlapReply<N>, EmbeddingError>,
    M: Fn(&[N], &[N], &Vec<Tensor<N>>) -> Result<TseReply<N>, TseError>,
    D: Fn(&Vec<N>) -> Result<Vec<N>, EmbeddingError>,
    I: Fn() -> usize,
    J: Fn(&Vec<N>) -> Result<Vec<N>, String>,
    E: Fn(N) -> N,
    Q: Fn(N) -> N,
    W: Fn(N) -> N,
    T: Fn(N) -> N,
    F: Fn(Memory),
>(
    kit: Kit<N, V, R, S, C, P, O, M, D, I, J, E, Q, W, T, F>,
    audio: Seq<N>,
    i: int,
    from: Moment<N>,
    to: Moment<N>,
    cohort: Seq<Vec<N>>,
    config: StreamingConfig<N>,
    delta: OutputView<N>,
) -> bool {
    exists|frame: Seq<N>|
        cut_out(audio, 512 * i, 512, frame) && #[trigger] kit.is_stepped(
            from,
            frame,
            frame,
            cohort,
            config,
            to,
            delta,
        )
}

/// The engine went through those moments on the frames of the audio, each once and in order.
pub open spec fn steps_through<
    N: Scalar,
    V: Fn(&Vec<N>, &Vec<N>, u32) -> Result<VadReply<N>, EmbeddingError>,
    R: Fn(&Vec<N>) -> Result<(Vec<N>, N), EmbeddingError>,
    S: Fn(Vec<N>) -> bool,
    C: Fn(bool) -> Received<N>,
    P: Fn(&Vec<N>) -> Option<N>,
    O: Fn(&Vec<N>) -> Result<OverlapReply<N>, EmbeddingError>,
    M: Fn(&[N], &[N], &Vec<Tensor<N>>) -> Result<TseReply<N>, TseError>,
    D: Fn(&Vec<N>) -> Result<Vec<N>, EmbeddingError>,
    I: Fn() -> usize,
    J: Fn(&Vec<N>) -> Result<Vec<N>, String>,
    E: Fn(N) -> N,
    Q: Fn(N) -> N,
    W: Fn(N) -> N,
    T: Fn(N) -> N,
    F: Fn(Memory),
>(
    kit: Kit<N, V, R, S, C, P, O, M, D, I, J, E, Q, W, T, F>,
    audio: Seq<N>,
    moments: Seq<Moment<N>>,
    cohort: Seq<Vec<N>>,
    config: StreamingConfig<N>,
    deltas: Seq<OutputView<N>>,
) -> bool {
    &&& moments.len() == deltas.len() + 1
    &&& forall|i: int|
        0 <= i < deltas.len() ==> steps_on(
            kit,
            audio,
            i,
            moments[i],
            moments[i + 1],
            cohort,
            config,
            #[trigger] deltas[i],
        )
}

/// The outputs of the frames, one behind the other: what frame `i` gives out starts where
/// those before it end.
pub open spec fn are_in_sequence<N>(deltas: Seq<OutputView<N>>, at: Seq<int>, out: OutputView<N>) -> bool {
    &&& at.len() == deltas.len() + 1
    &&& at[0] == 0
    &&& at.last() == out.audio.len()
    &&& forall|i: int|
        0 <= i < deltas.len() ==> {
            &&& 0 <= #[trigger] at[i]
            &&& at[i + 1] == at[i] + deltas[i].audio.len()
            &&& at[i + 1] <= out.audio.len()
            &&& cut_out(out.audio, at[i], deltas[i].audio.len() as int, deltas[i].audio)
        }
}

proof fn lemma_sequence<N>(deltas: Seq<OutputView<N>>, n: nat) -> (at: Seq<int>)
    requires
        n <= deltas.len(),
    ensures
        are_in_sequence(deltas.take(n as int), at, outputs(deltas, n)),
    decreases n,
{
    if n == 0 {
        seq![0int]
    } else {
        let before = lemma_sequence(deltas, (n - 1) as nat);
        let a = outputs(deltas, (n - 1) as nat);
        let b = outputs(deltas, n);
        let d = deltas[n - 1];
        assert(b == joined_output(a, d));
        assert(b.audio == a.audio + d.audio);
        let at = before.push(b.audio.len() as int);
        let some = deltas.take(n - 1);
        let all = deltas.take(n as int);
        assert forall|i: int| 0 <= i < all.len() implies {
            &&& 0 <= #[trigger] at[i]
            &&& at[i + 1] == at[i] + all[i].audio.len()
            &&& at[i + 1] <= b.audio.len()
            &&& cut_out(b.audio, at[i], all[i].audio.len() as int, all[i].audio)
        } by {
            if i < n - 1 {
                assert(at[i] == before[i]);
                assert(at[i + 1] == before[i + 1]);
                assert(all[i] == some[i]);
                assert(cut_out(a.audio, before[i], some[i].audio.len() as int, some[i].audio));
                assert forall|k: int| 0 <= k < all[i].audio.len() implies #[trigger] all[i].audio[k]
                    == b.audio[at[i] + k] by {
                    assert(some[i].audio[k] == a.audio[before[i] + k]);
                }
            } else {
                assert(at[i] == before[n - 1]);
                assert(before[n - 1] == a.audio.len());
                assert(all[i] == d);
            }
        }
        at
    }
}

proof fn lemma_stations_advance<
    N: Scalar,
    V: Fn(&Vec<N>, &Vec<N>, u32) -> Result<VadReply<N>, EmbeddingError>,
    R: Fn(&Vec<N>) -> Result<(Vec<N>, N), EmbeddingError>,
    S: Fn(Vec<N>) -> bool,
    C: Fn(bool) -> Received<N>,
    P: Fn(&Vec<N>) -> Option<N>,
    O: Fn(&Vec<N>) -> Result<OverlapReply<N>, EmbeddingError>,
    M: Fn(&[N], &[N], &Vec<Tensor<N>>) -> Result<TseReply<N>, TseError>,
    D: Fn(&Vec<N>) -> Result<Vec<N>, EmbeddingError>,
    I: Fn() -> usize,
    J: Fn(&Vec<N>) -> Result<Vec<N>, String>,
    E: Fn(N) -> N,
    Q: Fn(N) -> N,
    W: Fn(N) -> N,
    T: Fn(N) -> N,
    F: Fn(Memory),
>(
    kit: Kit<N, V, R, S, C, P, O, M, D, I, J, E, Q, W, T, F>,
    stations: Seq<Station<N>>,
    deltas: Seq<OutputView<N>>,
    cohort: Seq<Vec<N>>,
    config: StreamingConfig<N>,
    k: int,
)
    requires
        kit.is_run(false, stations, deltas, cohort, config),
        0 <= k <= deltas.len(),
    ensures
        512 * k <= stations[0].ring.len(),
        stations[k].ring == stations[0].ring.skip(512 * k),
    decreases k,
{
    if k == 0 {
        assert(stations[0].ring.skip(0) =~= stations[0].ring);
    } else {
        lemma_stations_advance(kit, stations, deltas, cohort, config, k - 1);
        let d = deltas[k - 1];
        assert(kit.is_turned(false, stations[k - 1], stations[k], d, cohort, config));
        assert(stations[k].ring =~= stations[0].ring.skip(512 * k));
    }
}

proof fn lemma_station_steps<
    N: Scalar,
    V: Fn(&Vec<N>, &Vec<N>, u32) -> Result<VadReply<N>, EmbeddingError>,
    R: Fn(&Vec<N>) -> Result<(Vec<N>, N), EmbeddingError>,
    S: Fn(Vec<N>) -> bool,
    C: Fn(bool) -> Received<N>,
    P: Fn(&Vec<N>) -> Option<N>,
    O: Fn(&Vec<N>) -> Result<OverlapReply<N>, EmbeddingError>,
    M: Fn(&[N], &[N], &Vec<Tensor<N>>) -> Result<TseReply<N>, TseError>,
    D: Fn(&Vec<N>) -> Result<Vec<N>, EmbeddingError>,
    I: Fn() -> usize,
    J: Fn(&Vec<N>) -> Result<Vec<N>, String>,
    E: Fn(N) -> N,
    Q: Fn(N) -> N,
    W: Fn(N) -> N,
    T: Fn(N) -> N,
    F: Fn(Memory),
>(
    kit: Kit<N, V, R, S, C, P, O, M, D, I, J, E, Q, W, T, F>,
    stations: Seq<Station<N>>,
    deltas: Seq<OutputView<N>>,
    cohort: Seq<Vec<N>>,
    config: StreamingConfig<N>,
    i: int,
)
    requires
        kit.is_run(false, stations, deltas, cohort, config),
        0 <= i < deltas.len(),
    ensures
        steps_on(
            kit,
            stations[0].ring,
            i,
            stations[i].at,
            stations[i + 1].at,
            cohort,
            config,
            deltas[i],
        ),
{
    lemma_stations_advance(kit, stations, deltas, cohort, config, i);
    lemma_stations_advance(kit, stations, deltas, cohort, config, i + 1);
    assert(kit.is_turned(false, stations[i], stations[i + 1], deltas[i], cohort, config));
    let frame = stations[i].ring.take(512);
    assert(kit.is_stepped(
        stations[i].at,
        frame,
        frame,
        cohort,
        config,
        stations[i + 1].at,
        deltas[i],
    ));
    assert(cut_out(stations[0].ring, 512 * i, 512, frame));
}

#[verifier::rlimit(40)]
#[verifier::spinoff_prover]
pub(crate) proof fn lemma_way_is_heard<
    N: Scalar,
    V: Fn(&Vec<N>, &Vec<N>, u32) -> Result<VadReply<N>, EmbeddingError>,
    R: Fn(&Vec<N>) -> Result<(Vec<N>, N), EmbeddingError>,
    S: Fn(Vec<N>) -> bool,
    C: Fn(bool) -> Received<N>,
    P: Fn(&Vec<N>) -> Option<N>,
    O: Fn(&Vec<N>) -> Result<OverlapReply<N>, EmbeddingError>,
    M: Fn(&[N], &[N], &Vec<Tensor<N>>) -> Result<TseReply<N>, TseError>,
    D: Fn(&Vec<N>) -> Result<Vec<N>, EmbeddingError>,
    I: Fn() -> usize,
    J: Fn(&Vec<N>) -> Result<Vec<N>, String>,
    E: Fn(N) -> N,
    Q: Fn(N) -> N,
    W: Fn(N) -> N,
    T: Fn(N) -> N,
    F: Fn(Memory),
>(
    kit: Kit<N, V, R, S, C, P, O, M, D, I, J, E, Q, W, T, F>,
    start: Station<N>,
    end: Station<N>,
    out: OutputView<N>,
    cohort: Seq<Vec<N>>,
    config: StreamingConfig<N>,
) -> (r: (Seq<Moment<N>>, Seq<OutputView<N>>, Seq<int>))
    requires
        kit.is_way(false, start, end, out, cohort, config),
        kit.is_dry(false, end.ring),
    ensures
        r.1.len() == start.ring.len() / 512,
        steps_through(kit, start.ring, r.0, cohort, config, r.1),
        are_in_sequence(r.1, r.2, out),
        r.0[0] == start.at,
        r.0.last() == end.at,
        end.ring.len() < 512,
        end.ring == start.ring.skip(512 * r.1.len() as int),
{
    let (stations, deltas) = choose|s: Seq<Station<N>>, d: Seq<OutputView<N>>|
        {
            &&& #[trigger] kit.is_run(false, s, d, cohort, config)
            &&& s[0] == start
            &&& s.last() == end
            &&& out == outputs(d, d.len())
        };
    let at = lemma_sequence(deltas, deltas.len());
    assert(deltas.take(deltas.len() as int) =~= deltas);
    let moments = Seq::new(stations.len(), |i: int| stations[i].at);
    assert forall|i: int| 0 <= i < deltas.len() implies steps_on(
        kit,
        start.ring,
        i,
        moments[i],
        moments[i + 1],
        cohort,
        config,
        #[trigger] deltas[i],
    ) by {
        lemma_station_steps(kit, stations, deltas, cohort, config, i);
    }
    lemma_stations_advance(kit, stations, deltas, cohort, config, deltas.len() as int);
    (moments, deltas, at)
}

/// Where the rates agree, a pushed block goes behind the audio that waited, the frames are the
/// consecutive stretches of 512 samples of that, each stepped once and in order, what is left
/// is less than a frame and waits, and the audio given out is that of the frames, one behind
/// the other.
pub proof fn lemma_blocks_are_heard_whole_and_in_order<
    N: Scalar,
    V: Fn(&Vec<N>, &Vec<N>, u32) -> Result<VadReply<N>, EmbeddingError>,
    R: Fn(&Vec<N>) -> Result<(Vec<N>, N), EmbeddingError>,
    S: Fn(Vec<N>) -> bool,
    C: Fn(bool) -> Received<N>,
    P: Fn(&Vec<N>) -> Option<N>,
    O: Fn(&Vec<N>) -> Result<OverlapReply<N>, EmbeddingError>,
    M: Fn(&[N], &[N], &Vec<Tensor<N>>) -> Result<TseReply<N>, TseError>,
    D: Fn(&Vec<N>) -> Result<Vec<N>, EmbeddingError>,
    I: Fn() -> usize,
    J: Fn(&Vec<N>) -> Result<Vec<N>, String>,
    E: Fn(N) -> N,
    Q: Fn(N) -> N,
    W: Fn(N) -> N,
    T: Fn(N) -> N,
    F: Fn(Memory),
>(
    kit: Kit<N, V, R, S, C, P, O, M, D, I, J, E, Q, W, T, F>,
    intake: &mut Intake<N>,
    state: &mut StreamingState<N>,
    vad: &mut SileroVad<N>,
    pool: &mut EmbeddingPool<N>,
    samples: &[N],
    cohort: Vec<Vec<N>>,
    config: StreamingConfig<N>,
    out: StreamingOutput<N>,
    audio: Seq<N>,
)
    requires
        call_ensures(
            Kit::<N, V, R, S, C, P, O, M, D, I, J, E, Q, W, T, F>::push_block,
            (&kit, intake, state, vad, pool, samples, &cohort, &config),
            Ok::<StreamingOutput<N>, PipelineError>(out),
        ),
        !old(intake).dual_rate,
        audio == old(intake).audio_ring@ + samples@,
    ensures
        exists|moments: Seq<Moment<N>>, deltas: Seq<OutputView<N>>, at: Seq<int>|
            {
                &&& deltas.len() == audio.len() / 512
                &&& moments[0].state == *old(state) && moments[0].vad == old(vad)@
                    && moments[0].pool == old(pool)@
                &&& moments.last().state == *final(state) && moments.last().vad == final(vad)@
                    && moments.last().pool == final(pool)@
                &&& #[trigger] steps_through(kit, audio, moments, cohort@, config, deltas)
                &&& #[trigger] are_in_sequence(deltas, at, out@)
            },
        final(intake).audio_ring@.len() < 512,
        cut_out(
            audio,
            audio.len() - final(intake).audio_ring@.len(),
            final(intake).audio_ring@.len() as int,
            final(intake).audio_ring@,
        ),
{
    let start = Station {
        ring: audio,
        at: Moment { state: *old(state), vad: old(vad)@, pool: old(pool)@ },
    };
    let end = Station {
        ring: final(intake).audio_ring@,
        at: Moment { state: *final(state), vad: final(vad)@, pool: final(pool)@ },
    };
    assert(kit.is_way(false, start, end, out@, cohort@, config));
    let (moments, deltas, at) = lemma_way_is_heard(kit, start, end, out@, cohort@, config);
    assert(steps_through(kit, audio, moments, cohort@, config, deltas));
    assert(are_in_sequence(deltas, at, out@));
}

/// At the end of a stream at one rate, no audio waits any more: what was left of it was heard,
/// followed by silence up to a whole frame.
pub proof fn lemma_flush_hears_the_rest<
    N: Scalar,
    V: Fn(&Vec<N>, &Vec<N>, u32) -> Result<VadReply<N>, EmbeddingError>,
    R: Fn(&Vec<N>) -> Result<(Vec<N>, N), EmbeddingError>,
    S: Fn(Vec<N>) -> bool,
    C: Fn(bool) -> Received<N>,
    P: Fn(&Vec<N>) -> Option<N>,
    O: Fn(&Vec<N>) -> Result<OverlapReply<N>, EmbeddingError>,
    M: Fn(&[N], &[N], &Vec<Tensor<N>>) -> Result<TseReply<N>, TseError>,
    D: Fn(&Vec<N>) -> Result<Vec<N>, EmbeddingError>,
    I: Fn() -> usize,
    J: Fn(&Vec<N>) -> Result<Vec<N>, String>,
    E: Fn(N) -> N,
    Q: Fn(N) -> N,
    W: Fn(N) -> N,
    T: Fn(N) -> N,
    F: Fn(Memory),
>(
    kit: Kit<N, V, R, S, C, P, O, M, D, I, J, E, Q, W, T, F>,
    intake: &mut Intake<N>,
    state: &mut StreamingState<N>,
    vad: &mut SileroVad<N>,
    pool: &mut EmbeddingPool<N>,
    cohort: Vec<Vec<N>>,
    config: StreamingConfig<N>,
    out: StreamingOutput<N>,
)
    requires
        call_ensures(
            Kit::<N, V, R, S, C, P, O, M, D, I, J, E, Q, W, T, F>::flush,
            (&kit, intake, state, vad, pool, &cohort, &config),
            Ok::<StreamingOutput<N>, PipelineError>(out),
        ),
        lawful::<N>(),
        !old(intake).dual_rate,
        0 < old(intake).audio_ring@.len() < 512,
    ensures
        final(intake).audio_ring@.len() == 0,
        final(state).channel matches Some(c) ==> c@.outstanding == 0 && c@.pending is None,
        exists|frame: Seq<N>, at: Moment<N>, delta: OutputView<N>|
            {
                &&& frame.len() == 512
                &&& forall|k: int|
                    0 <= k < old(intake).audio_ring@.len() ==> #[trigger] frame[k] == old(
                        intake,
                    ).audio_ring@[k]
                &&& forall|k: int|
                    old(intake).audio_ring@.len() <= k < 512 ==> #[trigger] frame[k] == num::<N>(0)
                &&& #[trigger] kit.is_stepped(
                    Moment { state: *old(state), vad: old(vad)@, pool: old(pool)@ },
                    frame,
                    frame,
                    cohort@,
                    config,
                    at,
                    delta,
                )
                &&& out@.gate_decisions == delta.gate_decisions
                &&& out@.gate_per_frame == delta.gate_per_frame
                &&& out@.score_per_frame == delta.score_per_frame
                &&& final(vad)@ == at.vad
                &&& final(state).audio_samples_emitted == at.state.audio_samples_emitted
            },
{
    let start = Station {
        ring: old(intake).audio_ring@,
        at: Moment { state: *old(state), vad: old(vad)@, pool: old(pool)@ },
    };
    let end = Station {
        ring: final(intake).audio_ring@,
        at: Moment { state: *final(state), vad: final(vad)@, pool: final(pool)@ },
    };
    let (frame, at, delta) = lemma_flushed_hears(kit, start, end, out@, cohort@, config);
    assert(kit.is_stepped(start.at, frame, frame, cohort@, config, at, delta));
}

pub(crate) proof fn lemma_flushed_hears<
    N: Scalar,
    V: Fn(&Vec<N>, &Vec<N>, u32) -> Result<VadReply<N>, EmbeddingError>,
    R: Fn(&Vec<N>) -> Result<(Vec<N>, N), EmbeddingError>,
    S: Fn(Vec<N>) -> bool,
    C: Fn(bool) -> Received<N>,
    P: Fn(&Vec<N>) -> Option<N>,
    O: Fn(&Vec<N>) -> Result<OverlapReply<N>, EmbeddingError>,
    M: Fn(&[N], &[N], &Vec<Tensor<N>>) -> Result<TseReply<N>, TseError>,
    D: Fn(&Vec<N>) -> Result<Vec<N>, EmbeddingError>,
    I: Fn() -> usize,
    J: Fn(&Vec<N>) -> Result<Vec<N>, String>,
    E: Fn(N) -> N,
    Q: Fn(N) -> N,
    W: Fn(N) -> N,
    T: Fn(N) -> N,
    F: Fn(Memory),
>(
    kit: Kit<N, V, R, S, C, P, O, M, D, I, J, E, Q, W, T, F>,
    start: Station<N>,
    end: Station<N>,
    out: OutputView<N>,
    cohort: Seq<Vec<N>>,
    config: StreamingConfig<N>,
) -> (r: (Seq<N>, Moment<N>, OutputView<N>))
    requires
        kit.is_flushed(false, start, end, out, cohort, config),
        lawful::<N>(),
        0 < start.ring.len() < 512,
    ensures
        end.ring.len() == 0,
        end.at.state.channel matches Some(c) ==> c@.outstanding == 0 && c@.pending is None,
        r.0.len() == 512,
        forall|k: int| 0 <= k < start.ring.len() ==> #[trigger] r.0[k] == start.ring[k],
        forall|k: int| start.ring.len() <= k < 512 ==> #[trigger] r.0[k] == num::<N>(0),
        kit.is_stepped(start.at, r.0, r.0, cohort, config, r.1, r.2),
        out.gate_decisions == r.2.gate_decisions,
        out.gate_per_frame == r.2.gate_per_frame,
        out.score_per_frame == r.2.score_per_frame,
        end.at.vad == r.1.vad,
        end.at.state.audio_samples_emitted == r.1.state.audio_samples_emitted,
{
    assert(kit.needs(false, 512));
    let (padded, ran, ran_out, drained, drained_out, whole) = choose|
        padded: Seq<N>,
        ran: Station<N>,
        ran_out: OutputView<N>,
        drained: StreamingState<N>,
        drained_out: OutputView<N>,
        whole: OutputView<N>,
    |
        {
            &&& kit.is_topped_up(false, start.ring, padded)
            &&& #[trigger] kit.is_way(
                false,
                Station { ring: padded, at: start.at },
                ran,
                ran_out,
                cohort,
                config,
            )
            &&& kit.is_dry(false, ran.ring)
            &&& #[trigger] kit.is_drained(
                ran.at.state,
                ran.at.pool,
                ran_out,
                cohort,
                config,
                drained,
                end.at.pool,
                drained_out,
            )
            &&& end.ring == ran.ring
            &&& end.at.vad == ran.at.vad
            &&& end.at.state == (StreamingState { chain: end.at.state.chain, ..drained })
            &&& #[trigger] kit.is_emptied(
                drained.chain@,
                drained_out,
                end.at.state.chain@,
                whole,
            )
            &&& out.gate_decisions == whole.gate_decisions
            &&& out.gate_per_frame == whole.gate_per_frame
            &&& out.score_per_frame == whole.score_per_frame
        };
    assert(padded.len() == 512);
    assert forall|k: int| 0 <= k < start.ring.len() implies #[trigger] padded[k]
        == start.ring[k] by {
        assert(padded.take(start.ring.len() as int)[k] == padded[k]);
    }
    let begin = Station { ring: padded, at: start.at };
    let (stations, deltas) = choose|s: Seq<Station<N>>, d: Seq<OutputView<N>>|
        {
            &&& #[trigger] kit.is_run(false, s, d, cohort, config)
            &&& s[0] == begin
            &&& s.last() == ran
            &&& ran_out == outputs(d, d.len())
        };
    lemma_stations_advance(kit, stations, deltas, cohort, config, deltas.len() as int);
    assert(deltas.len() == 1);
    assert(kit.is_turned(false, stations[0], stations[1], deltas[0], cohort, config));
    assert(padded.take(512) =~= padded);
    reveal_with_fuel(outputs, 2);
    assert(ran_out.gate_decisions =~= deltas[0].gate_decisions);
    assert(ran_out.gate_per_frame =~= deltas[0].gate_per_frame);
    assert(ran_out.score_per_frame =~= deltas[0].score_per_frame);
    (padded, ran.at, deltas[0])
}

/// Where the rates agree and no stage is chosen frame by frame, a stream gives out as many
/// samples as it took in: what a push does not give out is held back or waits, and a flush
/// gives out all of that.
pub proof fn lemma_output_is_as_long_as_input<
    N: Scalar,
    V: Fn(&Vec<N>, &Vec<N>, u32) -> Result<VadReply<N>, EmbeddingError>,
    R: Fn(&Vec<N>) -> Result<(Vec<N>, N), EmbeddingError>,
    S: Fn(Vec<N>) -> bool,
    C: Fn(bool) -> Received<N>,
    P: Fn(&Vec<N>) -> Option<N>,
    O: Fn(&Vec<N>) -> Result<OverlapReply<N>, EmbeddingError>,
    M: Fn(&[N], &[N], &Vec<Tensor<N>>) -> Result<TseReply<N>, TseError>,
    D: Fn(&Vec<N>) -> Result<Vec<N>, EmbeddingError>,
    I: Fn() -> usize,
    J: Fn(&Vec<N>) -> Result<Vec<N>, String>,
    E: Fn(N) -> N,
    Q: Fn(N) -> N,
    W: Fn(N) -> N,
    T: Fn(N) -> N,
    F: Fn(Memory),
>(
    kit: Kit<N, V, R, S, C, P, O, M, D, I, J, E, Q, W, T, F>,
    intake: &mut Intake<N>,
    state: &mut StreamingState<N>,
    vad: &mut SileroVad<N>,
    pool: &mut EmbeddingPool<N>,
    samples: &[N],
    cohort: Vec<Vec<N>>,
    config: StreamingConfig<N>,
    out: StreamingOutput<N>,
    intake2: &mut Intake<N>,
    state2: &mut StreamingState<N>,
    vad2: &mut SileroVad<N>,
    pool2: &mut EmbeddingPool<N>,
    rest: StreamingOutput<N>,
)
    requires
        call_ensures(
            Kit::<N, V, R, S, C, P, O, M, D, I, J, E, Q, W, T, F>::push_block,
            (&kit, intake, state, vad, pool, samples, &cohort, &config),
            Ok::<StreamingOutput<N>, PipelineError>(out),
        ),
        *intake2 == *final(intake),
        *state2 == *final(state),
        call_ensures(
            Kit::<N, V, R, S, C, P, O, M, D, I, J, E, Q, W, T, F>::flush,
            (&kit, intake2, state2, vad2, pool2, &cohort, &config),
            Ok::<StreamingOutput<N>, PipelineError>(rest),
        ),
        !old(intake).dual_rate,
        old(state).wf(config.pipeline),
        !(old(state).chain@.detector is Some && old(state).chain@.tse is Some && old(
            state,
        ).chain@.dfn3 is Some),
        old(intake).audio_ring@.len() == 0,
        old(state).chain@.held_back() == 0,
    ensures
        out.audio@.len() + rest.audio@.len() == samples@.len(),
{
}

/// Without a worker, an embedding is made of the very window that is due and is what the
/// scores are made of, at once, for the frame at hand; the speech so far decides on learning,
/// and no pool is begun.
pub proof fn lemma_due_window_is_scored<
    N: Scalar,
    V: Fn(&Vec<N>, &Vec<N>, u32) -> Result<VadReply<N>, EmbeddingError>,
    R: Fn(&Vec<N>) -> Result<(Vec<N>, N), EmbeddingError>,
    S: Fn(Vec<N>) -> bool,
    C: Fn(bool) -> Received<N>,
    P: Fn(&Vec<N>) -> Option<N>,
    O: Fn(&Vec<N>) -> Result<OverlapReply<N>, EmbeddingError>,
    M: Fn(&[N], &[N], &Vec<Tensor<N>>) -> Result<TseReply<N>, TseError>,
    D: Fn(&Vec<N>) -> Result<Vec<N>, EmbeddingError>,
    I: Fn() -> usize,
    J: Fn(&Vec<N>) -> Result<Vec<N>, String>,
    E: Fn(N) -> N,
    Q: Fn(N) -> N,
    W: Fn(N) -> N,
    T: Fn(N) -> N,
    F: Fn(Memory),
>(
    kit: Kit<N, V, R, S, C, P, O, M, D, I, J, E, Q, W, T, F>,
    state: &mut StreamingState<N>,
    pool: &mut EmbeddingPool<N>,
    window: Vec<N>,
    shrunk: bool,
    cohort: Vec<Vec<N>>,
    config: StreamingConfig<N>,
    out: &mut StreamingOutput<N>,
)
    requires
        call_ensures(
            Kit::<N, V, R, S, C, P, O, M, D, I, J, E, Q, W, T, F>::refresh,
            (&kit, state, pool, window, shrunk, &cohort, &config, out),
            Ok::<(), PipelineError>(()),
        ),
        lawful::<N>(),
        old(state).channel is None,
    ensures
        final(state).channel is None,
        !shrunk ==> final(state).turn == old(state).turn,
        shrunk && old(state).turn.state == TurnState::Shrunk ==> final(state).turn.shrunk_refresh_done && !final(state).turn.offset_failclosed_active,
        exists|heard: Vec<N>, embedding: Vec<N>, hz: N, event: Option<AutoLearnEvent<N>>|
            {
                &&& heard@ == window@
                &&& #[trigger] call_ensures(kit.embed, (&heard,), Ok((embedding, hz)))
                &&& #[trigger] is_refreshed(
                    old(pool)@,
                    old(state).score,
                    embedding,
                    hz,
                    old(state).frame_idx,
                    old(state).speech@.speech_ms,
                    cohort@,
                    config.gate,
                    config.pipeline.enable_auto_learn,
                    false,
                    config.pipeline.score_ema_alpha,
                    kit.eps,
                    kit.sqrt,
                    kit.exp,
                    final(pool)@,
                    final(state).score,
                    event,
                )
                &&& event matches Some(e) ==> final(out)@.events == old(out)@.events.push(e)
                &&& event is None ==> final(out)@.events == old(out)@.events
            },
{
    let outcome = choose|outcome: Result<(Vec<N>, N), EmbeddingError>|
        {
            &&& #[trigger] kit.measured(window@, outcome)
            &&& outcome matches Ok((emb, f0_mu)) && exists|mid: StreamingState<N>|
                {
                    &&& #[trigger] kit.is_folded(
                        *old(state),
                        old(pool)@,
                        old(out)@,
                        emb,
                        f0_mu,
                        old(state).frame_idx,
                        false,
                        cohort@,
                        config,
                        mid,
                        final(pool)@,
                        final(out)@,
                        Ok(()),
                    )
                    &&& *final(state) == (StreamingState {
                        turn: crate::streaming::told(mid.turn, shrunk),
                        ..mid
                    })
                }
        };
    let heard = choose|v: Vec<N>|
        v@ == window@ && #[trigger] call_ensures(kit.embed, (&v,), outcome);
    let (embedding, hz) = outcome->Ok_0;
    assert(call_ensures(kit.embed, (&heard,), Ok((embedding, hz))));
    let mid = choose|mid: StreamingState<N>|
        {
            &&& #[trigger] kit.is_folded(
                *old(state),
                old(pool)@,
                old(out)@,
                embedding,
                hz,
                old(state).frame_idx,
                false,
                cohort@,
                config,
                mid,
                final(pool)@,
                final(out)@,
                Ok(()),
            )
            &&& *final(state) == (StreamingState {
                turn: crate::streaming::told(mid.turn, shrunk),
                ..mid
            })
        };
    assert(final(state).score == mid.score);
    let event = choose|event: Option<AutoLearnEvent<N>>|
        {
            &&& final(out)@ == (OutputView {
                events: #[trigger] crate::pipeline::logged(old(out)@.events, event),
                ..old(out)@
            })
            &&& is_refreshed(
                old(pool)@,
                old(state).score,
                embedding,
                hz,
                old(state).frame_idx,
                old(state).speech@.speech_ms,
                cohort@,
                config.gate,
                config.pipeline.enable_auto_learn,
                false,
                config.pipeline.score_ema_alpha,
                kit.eps,
                kit.sqrt,
                kit.exp,
                final(pool)@,
                mid.score,
                event,
            )
        };
    assert(final(out)@.events == crate::pipeline::logged(old(out)@.events, event));
}

/// With a worker, the window that is due goes to it for the frame at hand, and nothing else is
/// touched: no score, no pool, no event.
pub proof fn lemma_due_window_goes_to_the_worker<
    N: Scalar,
    V: Fn(&Vec<N>, &Vec<N>, u32) -> Result<VadReply<N>, EmbeddingError>,
    R: Fn(&Vec<N>) -> Result<(Vec<N>, N), EmbeddingError>,
    S: Fn(Vec<N>) -> bool,
    C: Fn(bool) -> Received<N>,
    P: Fn(&Vec<N>) -> Option<N>,
    O: Fn(&Vec<N>) -> Result<OverlapReply<N>, EmbeddingError>,
    M: Fn(&[N], &[N], &Vec<Tensor<N>>) -> Result<TseReply<N>, TseError>,
    D: Fn(&Vec<N>) -> Result<Vec<N>, EmbeddingError>,
    I: Fn() -> usize,
    J: Fn(&Vec<N>) -> Result<Vec<N>, String>,
    E: Fn(N) -> N,
    Q: Fn(N) -> N,
    W: Fn(N) -> N,
    T: Fn(N) -> N,
    F: Fn(Memory),
>(
    kit: Kit<N, V, R, S, C, P, O, M, D, I, J, E, Q, W, T, F>,
    state: &mut StreamingState<N>,
    pool: &mut EmbeddingPool<N>,
    window: Vec<N>,
    shrunk: bool,
    cohort: Vec<Vec<N>>,
    config: StreamingConfig<N>,
    out: &mut StreamingOutput<N>,
    r: Result<(), PipelineError>,
)
    requires
        call_ensures(
            Kit::<N, V, R, S, C, P, O, M, D, I, J, E, Q, W, T, F>::refresh,
            (&kit, state, pool, window, shrunk, &cohort, &config, out),
            r,
        ),
        old(state).channel is Some,
    ensures
        r is Ok,
        final(pool)@ == old(pool)@,
        final(out)@ == old(out)@,
        final(state).score == old(state).score,
        final(state).channel matches Some(c) && c@.frames.last() == old(state).frame_idx,
        old(state).channel->0@.outstanding > 0 ==> final(state).channel->0@.pending == Some(
            window@,
        ),
        old(state).channel->0@.outstanding == 0 ==> exists|w: Vec<N>, taken: bool|
            w@ == window@ && #[trigger] call_ensures(kit.send, (w,), taken),
{
    if old(state).channel->0@.outstanding == 0 {
        let taken = choose|taken: bool| #[trigger]
            crate::refresh::offered(window@, kit.send, taken);
        let w = choose|w: Vec<N>| w@ == window@ && #[trigger] call_ensures(kit.send, (w,), taken);
        assert(call_ensures(kit.send, (w,), taken));
    }
}

/// A result that came back from the worker is what the scores are made of, for the frame that
/// asked first, and only such a result changes a score; a pool may be begun by it.
pub proof fn lemma_result_is_scored_for_its_frame<
    N: Scalar,
    V: Fn(&Vec<N>, &Vec<N>, u32) -> Result<VadReply<N>, EmbeddingError>,
    R: Fn(&Vec<N>) -> Result<(Vec<N>, N), EmbeddingError>,
    S: Fn(Vec<N>) -> bool,
    C: Fn(bool) -> Received<N>,
    P: Fn(&Vec<N>) -> Option<N>,
    O: Fn(&Vec<N>) -> Result<OverlapReply<N>, EmbeddingError>,
    M: Fn(&[N], &[N], &Vec<Tensor<N>>) -> Result<TseReply<N>, TseError>,
    D: Fn(&Vec<N>) -> Result<Vec<N>, EmbeddingError>,
    I: Fn() -> usize,
    J: Fn(&Vec<N>) -> Result<Vec<N>, String>,
    E: Fn(N) -> N,
    Q: Fn(N) -> N,
    W: Fn(N) -> N,
    T: Fn(N) -> N,
    F: Fn(Memory),
>(
    kit: Kit<N, V, R, S, C, P, O, M, D, I, J, E, Q, W, T, F>,
    state: &mut StreamingState<N>,
    pool: &mut EmbeddingPool<N>,
    cohort: Vec<Vec<N>>,
    config: StreamingConfig<N>,
    out: &mut StreamingOutput<N>,
)
    requires
        call_ensures(
            Kit::<N, V, R, S, C, P, O, M, D, I, J, E, Q, W, T, F>::poll,
            (&kit, state, pool, &cohort, &config, out),
            Ok::<(), PipelineError>(()),
        ),
        lawful::<N>(),
    ensures
        old(state).channel is None ==> final(state).score == old(state).score && final(pool)@
            == old(pool)@ && final(out)@ == old(out)@,
        final(state).score != old(state).score ==> {
            &&& old(state).channel matches Some(c)
            &&& c@.outstanding > 0
            &&& exists|embedding: Vec<N>, hz: N, frame: usize, event: Option<AutoLearnEvent<N>>|
                {
                    &&& c@.frames.len() > 0 ==> frame == c@.frames[0]
                    &&& #[trigger] call_ensures(
                        kit.receive,
                        (false,),
                        Received::Ready(Ok((embedding, hz))),
                    )
                    &&& #[trigger] is_refreshed(
                        old(pool)@,
                        old(state).score,
                        embedding,
                        hz,
                        frame,
                        old(state).speech@.speech_ms,
                        cohort@,
                        config.gate,
                        config.pipeline.enable_auto_learn,
                        true,
                        config.pipeline.score_ema_alpha,
                        kit.eps,
                        kit.sqrt,
                        kit.exp,
                        final(pool)@,
                        final(state).score,
                        event,
                    )
                }
        },
        final(pool)@ != old(pool)@ ==> (old(state).channel matches Some(c) && c@.outstanding > 0),
{
}

/// Where extraction is on, a learned embedding is what it is conditioned on from then on: the
/// mean of the anchors of the pool as it then is.
pub proof fn lemma_learning_tells_extraction<
    N: Scalar,
    V: Fn(&Vec<N>, &Vec<N>, u32) -> Result<VadReply<N>, EmbeddingError>,
    R: Fn(&Vec<N>) -> Result<(Vec<N>, N), EmbeddingError>,
    S: Fn(Vec<N>) -> bool,
    C: Fn(bool) -> Received<N>,
    P: Fn(&Vec<N>) -> Option<N>,
    O: Fn(&Vec<N>) -> Result<OverlapReply<N>, EmbeddingError>,
    M: Fn(&[N], &[N], &Vec<Tensor<N>>) -> Result<TseReply<N>, TseError>,
    D: Fn(&Vec<N>) -> Result<Vec<N>, EmbeddingError>,
    I: Fn() -> usize,
    J: Fn(&Vec<N>) -> Result<Vec<N>, String>,
    E: Fn(N) -> N,
    Q: Fn(N) -> N,
    W: Fn(N) -> N,
    T: Fn(N) -> N,
    F: Fn(Memory),
>(
    kit: Kit<N, V, R, S, C, P, O, M, D, I, J, E, Q, W, T, F>,
    state: &mut StreamingState<N>,
    pool: &mut EmbeddingPool<N>,
    cohort: Vec<Vec<N>>,
    config: StreamingConfig<N>,
    out: &mut StreamingOutput<N>,
)
    requires
        call_ensures(
            Kit::<N, V, R, S, C, P, O, M, D, I, J, E, Q, W, T, F>::poll,
            (&kit, state, pool, &cohort, &config, out),
            Ok::<(), PipelineError>(()),
        ),
        lawful::<N>(),
        old(state).chain@.tse is Some,
        final(out)@.events.len() > old(out)@.events.len(),
        final(out)@.events.last().kind == AutoLearnKind::Admit,
    ensures
        final(state).chain@.tse matches Some(t) && are_column_means(final(pool)@.anchors, t.cond),
{
    crate::laws::score::lemma_centroid_means(final(pool)@.anchors);
}

/// A frame is judged by the newest scores: what is recorded of it is what the scores are once
/// an embedding that was due, or came back, is counted in.
pub proof fn lemma_frame_is_judged_by_the_newest_score<
    N: Scalar,
    V: Fn(&Vec<N>, &Vec<N>, u32) -> Result<VadReply<N>, EmbeddingError>,
    R: Fn(&Vec<N>) -> Result<(Vec<N>, N), EmbeddingError>,
    S: Fn(Vec<N>) -> bool,
    C: Fn(bool) -> Received<N>,
    P: Fn(&Vec<N>) -> Option<N>,
    O: Fn(&Vec<N>) -> Result<OverlapReply<N>, EmbeddingError>,
    M: Fn(&[N], &[N], &Vec<Tensor<N>>) -> Result<TseReply<N>, TseError>,
    D: Fn(&Vec<N>) -> Result<Vec<N>, EmbeddingError>,
    I: Fn() -> usize,
    J: Fn(&Vec<N>) -> Result<Vec<N>, String>,
    E: Fn(N) -> N,
    Q: Fn(N) -> N,
    W: Fn(N) -> N,
    T: Fn(N) -> N,
    F: Fn(Memory),
>(
    kit: Kit<N, V, R, S, C, P, O, M, D, I, J, E, Q, W, T, F>,
    state: &mut StreamingState<N>,
    vad: &mut SileroVad<N>,
    pool: &mut EmbeddingPool<N>,
    chunk: &[N],
    frame: &[N],
    cohort: Vec<Vec<N>>,
    config: StreamingConfig<N>,
    delta: StreamingOutput<N>,
)
    requires
        call_ensures(
            Kit::<N, V, R, S, C, P, O, M, D, I, J, E, Q, W, T, F>::step_one_frame_core,
            (&kit, state, vad, pool, chunk, frame, &cohort, &config),
            Ok::<StreamingOutput<N>, PipelineError>(delta),
        ),
        config.diagnostics,
    ensures
        delta@.cos_sim_max_per_frame.len() == 1,
        delta@.cos_sim_max_per_frame[0] == final(state).score.last_cs,
        delta@.f0_match_per_frame.len() == 1,
        delta@.f0_match_per_frame[0] == final(state).score.last_fm,
        delta@.score_per_frame.len() == 1,
        !config.pipeline.fast_cue_enabled ==> delta@.score_per_frame[0] == final(state).score.last_score,
        delta@.gate_per_frame.len() == 1,
        final(state).current_decision == Some(delta@.gate_per_frame[0]),
        delta@.gate_decisions.len() == 0 <==> old(state).current_decision == Some(
            delta@.gate_per_frame[0],
        ),
        delta@.gate_decisions.len() > 0 ==> delta@.gate_decisions.len() == 1
            && delta@.gate_decisions[0] == (
            old(state).audio_samples_emitted,
            delta@.gate_per_frame[0],
        ),
        final(state).frame_idx == old(state).frame_idx + 1,
        final(state).audio_samples_emitted == old(state).audio_samples_emitted + chunk@.len(),
{
}

/// Result `i` takes the scores and the pool from one to the next, for the frame that asked for
/// it, and what it brought about is put behind the log.
pub open spec fn folds_in<
    N: Scalar,
    V: Fn(&Vec<N>, &Vec<N>, u32) -> Result<VadReply<N>, EmbeddingError>,
    R: Fn(&Vec<N>) -> Result<(Vec<N>, N), EmbeddingError>,
    S: Fn(Vec<N>) -> bool,
    C: Fn(bool) -> Received<N>,
    P: Fn(&Vec<N>) -> Option<N>,
    O: Fn(&Vec<N>) -> Result<OverlapReply<N>, EmbeddingError>,
    M: Fn(&[N], &[N], &Vec<Tensor<N>>) -> Result<TseReply<N>, TseError>,
    D: Fn(&Vec<N>) -> Result<Vec<N>, EmbeddingError>,
    I: Fn() -> usize,
    J: Fn(&Vec<N>) -> Result<Vec<N>, String>,
    E: Fn(N) -> N,
    Q: Fn(N) -> N,
    W: Fn(N) -> N,
    T: Fn(N) -> N,
    F: Fn(Memory),
>(
    kit: Kit<N, V, R, S, C, P, O, M, D, I, J, E, Q, W, T, F>,
    frames: Seq<usize>,
    ms: N,
    cohort: Seq<Vec<N>>,
    config: StreamingConfig<N>,
    result: (usize, Vec<N>, N),
    i: int,
    scores: Seq<ScoreState<N>>,
    pools: Seq<PoolView<N>>,
    logs: Seq<Seq<AutoLearnEvent<N>>>,
) -> bool {
    &&& result.0 == frames[i]
    &&& call_ensures(kit.receive, (true,), Received::Ready(Ok((result.1, result.2))))
    &&& exists|event: Option<AutoLearnEvent<N>>|
        {
            &&& #[trigger] is_refreshed(
                pools[i],
                scores[i],
                result.1,
                result.2,
                result.0,
                ms,
                cohort,
                config.gate,
                config.pipeline.enable_auto_learn,
                true,
                config.pipeline.score_ema_alpha,
                kit.eps,
                kit.sqrt,
                kit.exp,
                pools[i + 1],
                scores[i + 1],
                event,
            )
            &&& event matches Some(e) ==> logs[i + 1] == logs[i].push(e)
            &&& event is None ==> logs[i + 1] == logs[i]
        }
}

/// Results that come in at the end are scored one after the other, each for the frame that
/// asked for it and in the order in which those asked.
pub proof fn lemma_trailing_results_are_scored_in_order<
    N: Scalar,
    V: Fn(&Vec<N>, &Vec<N>, u32) -> Result<VadReply<N>, EmbeddingError>,
    R: Fn(&Vec<N>) -> Result<(Vec<N>, N), EmbeddingError>,
    S: Fn(Vec<N>) -> bool,
    C: Fn(bool) -> Received<N>,
    P: Fn(&Vec<N>) -> Option<N>,
    O: Fn(&Vec<N>) -> Result<OverlapReply<N>, EmbeddingError>,
    M: Fn(&[N], &[N], &Vec<Tensor<N>>) -> Result<TseReply<N>, TseError>,
    D: Fn(&Vec<N>) -> Result<Vec<N>, EmbeddingError>,
    I: Fn() -> usize,
    J: Fn(&Vec<N>) -> Result<Vec<N>, String>,
    E: Fn(N) -> N,
    Q: Fn(N) -> N,
    W: Fn(N) -> N,
    T: Fn(N) -> N,
    F: Fn(Memory),
>(
    kit: Kit<N, V, R, S, C, P, O, M, D, I, J, E, Q, W, T, F>,
    state: &mut StreamingState<N>,
    pool: &mut EmbeddingPool<N>,
    cohort: Vec<Vec<N>>,
    config: StreamingConfig<N>,
    out: &mut StreamingOutput<N>,
)
    requires
        call_ensures(
            Kit::<N, V, R, S, C, P, O, M, D, I, J, E, Q, W, T, F>::drain_trailing_refreshes,
            (&kit, state, pool, &cohort, &config, out),
            Ok::<(), PipelineError>(()),
        ),
        lawful::<N>(),
        old(state).channel matches Some(c) && c.wf(),
    ensures
        final(state).channel matches Some(c) && c@.outstanding == 0 && c@.pending is None,
        exists|
            results: Seq<(usize, Vec<N>, N)>,
            scores: Seq<ScoreState<N>>,
            pools: Seq<PoolView<N>>,
            logs: Seq<Seq<AutoLearnEvent<N>>>,
        |
            {
                &&& scores.len() == pools.len() == results.len() + 1
                &&& logs.len() == results.len() + 1
                &&& results.len() >= old(state).channel->0@.outstanding
                &&& scores[0] == old(state).score && scores.last() == final(state).score
                &&& pools[0] == old(pool)@ && pools.last() == final(pool)@
                &&& logs[0] == old(out)@.events && logs.last() == final(out)@.events
                &&& #[trigger] fold_in_turn(
                    kit,
                    old(state).channel->0@.frames,
                    old(state).speech@.speech_ms,
                    cohort@,
                    config,
                    results,
                    scores,
                    pools,
                    logs,
                )
            },
{
    let c = old(state).channel->0@;
    let results = choose|results: Seq<(usize, Vec<N>, N)>|
        {
            &&& #[trigger] are_answers(c, kit.send, kit.receive, results)
            &&& kit.is_trailed(
                results,
                *old(state),
                old(pool)@,
                old(out)@.events,
                cohort@,
                config,
                final(state).score,
                final(pool)@,
                final(out)@.events,
            )
        };
    let (scores, pools, events) = choose|
        scores: Seq<ScoreState<N>>,
        pools: Seq<PoolView<N>>,
        events: Seq<Option<AutoLearnEvent<N>>>,
    |
        {
            &&& #[trigger] kit.are_folded(
                results,
                old(state).speech@.speech_ms,
                cohort@,
                config,
                scores,
                pools,
                events,
            )
            &&& events.len() == results.len()
            &&& scores[0] == old(state).score
            &&& pools[0] == old(pool)@
            &&& scores.last() == final(state).score
            &&& pools.last() == final(pool)@
            &&& final(out)@.events == logged_all(old(out)@.events, events, events.len())
        };
    let logs = Seq::new(
        events.len() + 1,
        |i: int| logged_all(old(out)@.events, events, i as nat),
    );
    assert forall|i: int| 0 <= i < results.len() implies folds_in(
        kit,
        c.frames,
        old(state).speech@.speech_ms,
        cohort@,
        config,
        #[trigger] results[i],
        i,
        scores,
        pools,
        logs,
    ) by {
        let event = events[i];
        assert(is_refreshed(
            pools[i],
            scores[i],
            results[i].1,
            results[i].2,
            results[i].0,
            old(state).speech@.speech_ms,
            cohort@,
            config.gate,
            config.pipeline.enable_auto_learn,
            true,
            config.pipeline.score_ema_alpha,
            kit.eps,
            kit.sqrt,
            kit.exp,
            pools[i + 1],
            scores[i + 1],
            event,
        ));
        assert(logs[i + 1] == crate::pipeline::logged(logs[i], event));
    }
    assert(fold_in_turn(
        kit,
        c.frames,
        old(state).speech@.speech_ms,
        cohort@,
        config,
        results,
        scores,
        pools,
        logs,
    ));
}

/// The results fold in one after the other.
pub open spec fn fold_in_turn<
    N: Scalar,
    V: Fn(&Vec<N>, &Vec<N>, u32) -> Result<VadReply<N>, EmbeddingError>,
    R: Fn(&Vec<N>) -> Result<(Vec<N>, N), EmbeddingError>,
    S: Fn(Vec<N>) -> bool,
    C: Fn(bool) -> Received<N>,
    P: Fn(&Vec<N>) -> Option<N>,
    O: Fn(&Vec<N>) -> Result<OverlapReply<N>, EmbeddingError>,
    M: Fn(&[N], &[N], &Vec<Tensor<N>>) -> Result<TseReply<N>, TseError>,
    D: Fn(&Vec<N>) -> Result<Vec<N>, EmbeddingError>,
    I: Fn() -> usize,
    J: Fn(&Vec<N>) -> Result<Vec<N>, String>,
    E: Fn(N) -> N,
    Q: Fn(N) -> N,
    W: Fn(N) -> N,
    T: Fn(N) -> N,
    F: Fn(Memory),
>(
    kit: Kit<N, V, R, S, C, P, O, M, D, I, J, E, Q, W, T, F>,
    frames: Seq<usize>,
    ms: N,
    cohort: Seq<Vec<N>>,
    config: StreamingConfig<N>,
    results: Seq<(usize, Vec<N>, N)>,
    scores: Seq<ScoreState<N>>,
    pools: Seq<PoolView<N>>,
    logs: Seq<Seq<AutoLearnEvent<N>>>,
) -> bool {
    forall|i: int|
        0 <= i < results.len() ==> folds_in(
            kit,
            frames,
            ms,
            cohort,
            config,
            #[trigger] results[i],
            i,
            scores,
            pools,
            logs,
        )
}

} // verus!
