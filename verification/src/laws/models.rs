//! Laws of what goes into the networks and what is made of their replies.
use crate::dfn3::{
    analysed_as, are_analysed, are_enhanced, are_inputs, are_synthesised, enhanced_as,
    init_state_lerp, is_chunk, laid_out, process, product, ran_on, replied, synthesised_as,
    AnalysedFrame, Dfn3Streamer, SpecReply,
};
use crate::embedding::EmbeddingError;
use crate::gating::lemma_peak_bounds;
use crate::laws::listen::is_end_of;
use crate::laws::score::bounds;
use crate::laws::{adds_up, cut_out, has_units, lemma_sum_adds_up};
use crate::overlap::{
    are_overlap_probs, argmax, frame_scores, inferred, is_probability, overlap_count, summarise,
    OverlapDecision, OverlapDetector, OverlapReply,
};
use crate::scalar::{
    bottom, count, gt, highest, lawful, le, num, peak, sum, total_order, Scalar,
};
use crate::tse::{
    is_row, make_initial_state, Tensor, TseConfig, TseError, TseReply, TseSession,
};
use crate::tse_stage::{is_padded, is_trace, joined, piece, TseStage};
use crate::vad::{heard, SileroVad, VadReply};
use vstd::arithmetic::power2::pow2;
use vstd::prelude::*;
use vstd::std_specs::ops::{AddSpec, DivSpec, MulSpec, SubSpec};

verus! {

// ---------------------------------------------------------------------
// Voice activity
// ---------------------------------------------------------------------
/// The network hears the end of the last chunk, then this one, and the state it left; its
/// first value is the probability. What it leaves goes on to the next chunk, as does the
/// end of this one. A failure changes nothing.
pub proof fn lemma_vad_carries_context<
    N: Scalar,
    M: Fn(&Vec<N>, &Vec<N>, u32) -> Result<VadReply<N>, EmbeddingError>,
>(vad: &mut SileroVad<N>, chunk: &[N], run: &M, r: Result<N, EmbeddingError>)
    requires
        call_ensures(SileroVad::<N>::score::<M>, (vad, chunk, run), r),
        vad.wf(),
    ensures
        r is Err ==> final(vad)@ == old(vad)@,
        r matches Ok(prob) ==> exists|fed: Vec<N>, state: Vec<N>, reply: VadReply<N>|
            {
                &&& #[trigger] call_ensures(
                    *run,
                    (&fed, &state, old(vad)@.sample_rate),
                    Ok(reply),
                )
                &&& state@ == old(vad)@.state
                &&& cut_out(fed@, 0, old(vad)@.context.len() as int, old(vad)@.context)
                &&& cut_out(
                    fed@,
                    old(vad)@.context.len() as int,
                    fed@.len() - old(vad)@.context.len(),
                    chunk@,
                )
                &&& reply.data@.len() > 0 && prob == reply.data@[0]
                &&& final(vad)@.state == reply.state_data@
            },
        r is Ok ==> is_end_of(chunk@, old(vad)@.context.len(), final(vad)@.context),
        r is Ok && old(vad)@.sample_rate == 16_000 ==> chunk@.len() == 512
            && final(vad)@.context.len() == 64,
        r is Ok && old(vad)@.sample_rate == 8_000 ==> chunk@.len() == 256
            && final(vad)@.context.len() == 32,
        final(vad)@.sample_rate == old(vad)@.sample_rate,
{
    if let Ok(prob) = r {
        let before = old(vad)@;
        let outcome = choose|outcome: Result<VadReply<N>, EmbeddingError>|
            {
                &&& #[trigger] heard(before, chunk@, *run, outcome)
                &&& outcome matches Ok(reply) && prob == reply.data@[0] && reply.data@.len() > 0
                    && final(vad)@.state == reply.state_data@
            };
        let (fed, state) = choose|fed: Vec<N>, state: Vec<N>|
            {
                &&& fed@ == before.context + chunk@
                &&& state@ == before.state
                &&& #[trigger] call_ensures(*run, (&fed, &state, before.sample_rate), outcome)
            };
        let reply = outcome->Ok_0;
        assert(call_ensures(*run, (&fed, &state, before.sample_rate), Ok(reply)));
        assert(cut_out(fed@, 0, before.context.len() as int, before.context));
        assert(cut_out(
            fed@,
            before.context.len() as int,
            fed@.len() - before.context.len(),
            chunk@,
        ));
    }
}

// ---------------------------------------------------------------------
// Overlap
// ---------------------------------------------------------------------
/// The detector listens to the newest second. It gives a verdict exactly when it has heard
/// a second and the cadence has passed since the last, and that verdict is on what it
/// holds then.
pub proof fn lemma_overlap_hears_the_newest<
    N: Scalar,
    M: Fn(&Vec<N>) -> Result<OverlapReply<N>, EmbeddingError>,
    F: Fn(N) -> N,
>(
    d: &mut OverlapDetector<N>,
    samples: &[N],
    infer: &M,
    exp: &F,
    r: Result<Option<OverlapDecision<N>>, EmbeddingError>,
)
    requires
        call_ensures(OverlapDetector::<N>::push::<M, F>, (d, samples, infer, exp), r),
        old(d)@.since_last_run + samples@.len() <= usize::MAX,
    ensures
        is_end_of(old(d)@.window + samples@, 16_000, final(d)@.window),
        final(d)@.cadence == old(d)@.cadence,
        old(d)@.window.len() + samples@.len() < 16_000 || old(d)@.since_last_run + samples@.len()
            < old(d)@.cadence ==> {
            &&& r matches Ok(None)
            &&& final(d)@.since_last_run == old(d)@.since_last_run + samples@.len()
        },
        old(d)@.window.len() + samples@.len() >= 16_000 && old(d)@.since_last_run + samples@.len()
            >= old(d)@.cadence ==> {
            &&& !(r matches Ok(None))
            &&& final(d)@.since_last_run == 0
            &&& exists|window: Vec<N>, reply: Result<OverlapReply<N>, EmbeddingError>|
                {
                    &&& is_end_of(old(d)@.window + samples@, 16_000, window@)
                    &&& #[trigger] call_ensures(*infer, (&window,), reply)
                    &&& reply matches Err(e) ==> r == Err::<
                        Option<OverlapDecision<N>>,
                        EmbeddingError,
                    >(e)
                }
        },
{
    if old(d)@.window.len() + samples@.len() >= 16_000 && old(d)@.since_last_run + samples@.len()
        >= old(d)@.cadence {
        let w = final(d)@.window;
        let verdict: Result<OverlapDecision<N>, EmbeddingError> = match r {
            Ok(Some(x)) => Ok(x),
            Ok(None) => arbitrary(),
            Err(e) => Err(e),
        };
        let reply = choose|reply: Result<OverlapReply<N>, EmbeddingError>|
            {
                &&& #[trigger] inferred(w, *infer, reply)
                &&& reply matches Err(e) ==> verdict == Err::<
                    OverlapDecision<N>,
                    EmbeddingError,
                >(e)
            };
        let window = choose|v: Vec<N>| v@ == w && #[trigger] call_ensures(*infer, (&v,), reply);
        assert(is_end_of(old(d)@.window + samples@, 16_000, window@));
        assert(call_ensures(*infer, (&window,), reply));
    }
}

/// The class of a frame is `c`: no class has a larger score, and none before it an equal
/// one.
pub open spec fn is_class<N: Scalar>(scores: Seq<N>, c: nat) -> bool {
    &&& c < scores.len()
    &&& forall|i: int| 0 <= i < scores.len() ==> le(#[trigger] scores[i], scores[c as int])
    &&& forall|i: int| 0 <= i < c ==> !le(scores[c as int], #[trigger] scores[i])
}

/// How many of the classes stand for two speakers.
pub open spec fn pairs(classes: Seq<nat>) -> nat
    decreases classes.len(),
{
    if classes.len() == 0 {
        0
    } else {
        pairs(classes.drop_last()) + if classes.last() >= 4 {
            1nat
        } else {
            0nat
        }
    }
}

/// The scores of frame `f`, seven to a frame.
pub open spec fn row<N>(data: Seq<N>, f: int) -> Seq<N> {
    Seq::new(7, |c: int| data[f * 7 + c])
}

/// The probability of a frame: those of the last three of its seven classes added up.
pub open spec fn is_pair_prob<N: Scalar, F: Fn(N) -> N>(
    data: Seq<N>,
    f: int,
    exp: F,
    p: N,
) -> bool {
    exists|a: N, b: N, c: N|
        {
            &&& #[trigger] is_logistic(data[f * 7 + 4], exp, a)
            &&& #[trigger] is_logistic(data[f * 7 + 5], exp, b)
            &&& #[trigger] is_logistic(data[f * 7 + 6], exp, c)
            &&& p == num::<N>(0).add_spec(a).add_spec(b).add_spec(c)
        }
}

/// `p` is one over one plus the exponential of minus `x`.
pub open spec fn is_logistic<N: Scalar, F: Fn(N) -> N>(x: N, exp: F, p: N) -> bool {
    exists|e: N| #[trigger]
        call_ensures(exp, (num::<N>(0).sub_spec(x),), e) && p == num::<N>(1).div_spec(
            num::<N>(1).add_spec(e),
        )
}

/// A verdict sums up the frames: mean and largest of their probabilities of two speakers,
/// and how many have a class of two speakers as their likeliest.
pub proof fn lemma_verdict_sums_up_frames<N: Scalar, F: Fn(N) -> N>(
    dims: &[i64],
    data: &[N],
    exp: &F,
    d: OverlapDecision<N>,
)
    requires
        call_ensures(summarise::<N, F>, (dims, data, exp), Ok(d)),
        lawful::<N>(),
        total_order::<N>(),
        forall|x: N| le(bottom::<N>(), x) && !#[trigger] le(x, bottom::<N>()) || x == bottom::<N>(),
        forall|i: int| 0 <= i < data@.len() ==> #[trigger] data@[i] != bottom::<N>(),
    ensures
        dims@.len() == 3 && dims@[0] == 1 && dims@[2] == 7,
        d.total_frames == dims@[1],
        exists|p: Seq<N>, t: N|
            {
                &&& p.len() == dims@[1]
                &&& forall|f: int| 0 <= f < p.len() ==> is_pair_prob(data@, f, *exp, #[trigger] p[f])
                &&& #[trigger] adds_up(p, t)
                &&& p.len() > 0 ==> d.mean_overlap_prob == t.div_spec(count(p.len()))
                &&& bounds(p, d.max_overlap_prob)
                &&& d.max_overlap_prob == num::<N>(0) || p.contains(d.max_overlap_prob)
            },
        exists|classes: Seq<nat>|
            {
                &&& classes.len() == dims@[1]
                &&& forall|f: int|
                    0 <= f < classes.len() ==> is_class(row(data@, f), #[trigger] classes[f])
                &&& d.overlap_frame_count == #[trigger] pairs(classes)
            },
{
    let frames = dims@[1] as nat;
    let p = choose|p: Seq<N>|
        {
            &&& p.len() == frames
            &&& #[trigger] are_overlap_probs(data@, *exp, p)
            &&& d.mean_overlap_prob == sum(p, frames).div_spec(
                count(
                    if frames == 0 {
                        1
                    } else {
                        frames
                    },
                ),
            )
            &&& d.max_overlap_prob == peak(p, frames)
        };
    lemma_sum_adds_up(p);
    lemma_peak_bounds(p, frames);
    if d.max_overlap_prob != num::<N>(0) {
        assert(p.len() > 0);
        let i = choose|i: int| 0 <= i < p.len() && #[trigger] p[i] == d.max_overlap_prob;
        assert(p.contains(d.max_overlap_prob));
    }
    assert forall|f: int| 0 <= f < p.len() implies is_pair_prob(
        data@,
        f,
        *exp,
        #[trigger] p[f],
    ) by {
        let s = frame_scores(data@, f as nat);
        let (a, b, c) = choose|a: N, b: N, c: N|
            {
                &&& #[trigger] is_probability(s[4], *exp, a)
                &&& #[trigger] is_probability(s[5], *exp, b)
                &&& #[trigger] is_probability(s[6], *exp, c)
                &&& p[f] == num::<N>(0).add_spec(a).add_spec(b).add_spec(c)
            };
        assert(s[4] == data@[f * 7 + 4]);
        assert(s[5] == data@[f * 7 + 5]);
        assert(s[6] == data@[f * 7 + 6]);
        assert(is_logistic(data@[f * 7 + 4], *exp, a));
        assert(is_logistic(data@[f * 7 + 5], *exp, b));
        assert(is_logistic(data@[f * 7 + 6], *exp, c));
    }
    assert(adds_up(p, sum(p, p.len())));
    let classes = Seq::new(frames, |f: int| argmax(frame_scores(data@, f as nat), 7));
    assert forall|f: int| 0 <= f < classes.len() implies is_class(
        row(data@, f),
        #[trigger] classes[f],
    ) by {
        let s = frame_scores(data@, f as nat);
        assert(s =~= row(data@, f));
        assert forall|i: int| 0 <= i < 7 implies #[trigger] s[i] != bottom::<N>() by {
            assert(s[i] == data@[f * 7 + i]);
        }
        lemma_argmax_is_class(s, 7);
    }
    lemma_pairs_are_counted(data@, classes, frames);
}

proof fn lemma_argmax_is_class<N: Scalar>(s: Seq<N>, n: nat)
    requires
        0 < n <= s.len(),
        total_order::<N>(),
        forall|x: N| le(bottom::<N>(), x) && !#[trigger] le(x, bottom::<N>()) || x == bottom::<N>(),
        forall|i: int| 0 <= i < s.len() ==> #[trigger] s[i] != bottom::<N>(),
    ensures
        argmax(s, n) < n,
        highest(s, n) == s[argmax(s, n) as int],
        forall|i: int| 0 <= i < n ==> le(#[trigger] s[i], s[argmax(s, n) as int]),
        forall|i: int| 0 <= i < argmax(s, n) ==> !le(s[argmax(s, n) as int], #[trigger] s[i]),
    decreases n,
{
    let last = s[n - 1];
    assert(gt(last, highest(s, (n - 1) as nat)) == !le(last, highest(s, (n - 1) as nat)));
    assert(le(last, last));
    if n > 1 {
        lemma_argmax_is_class(s, (n - 1) as nat);
        let top = s[argmax(s, (n - 1) as nat) as int];
        assert(le(top, last) || le(last, top));
        if !le(last, top) {
            assert forall|i: int| 0 <= i < n - 1 implies !le(last, #[trigger] s[i]) by {
                assert(le(s[i], top));
                if le(last, s[i]) {
                    assert(le(last, top));
                }
            }
        }
    } else {
        assert(highest(s, 0) == bottom::<N>());
        assert(!le(last, bottom::<N>()));
    }
}

proof fn lemma_pairs_are_counted<N: Scalar>(data: Seq<N>, classes: Seq<nat>, n: nat)
    requires
        classes.len() == n,
        forall|f: int|
            0 <= f < n ==> #[trigger] classes[f] == argmax(frame_scores(data, f as nat), 7),
        forall|f: int| 0 <= f < n ==> #[trigger] classes[f] < 7,
    ensures
        overlap_count(data, n) == pairs(classes),
    decreases n,
{
    if n > 0 {
        let rest = classes.drop_last();
        assert forall|f: int| 0 <= f < n - 1 implies #[trigger] rest[f] == argmax(
            frame_scores(data, f as nat),
            7,
        ) && rest[f] < 7 by {
            assert(rest[f] == classes[f]);
        }
        lemma_pairs_are_counted(data, rest, (n - 1) as nat);
        assert(classes.last() == classes[n - 1]);
    }
}

// ---------------------------------------------------------------------
// Noise suppression
// ---------------------------------------------------------------------
/// Pieces that are put together again are the stream up to there.
proof fn lemma_pieces_join<N>(stream: Seq<N>, c: nat, lists: Seq<Vec<N>>, n: nat)
    requires
        n <= lists.len(),
        n * c <= stream.len(),
        forall|i: int| 0 <= i < n ==> (#[trigger] lists[i])@ == piece(stream, c, i as nat),
    ensures
        joined(lists, n) == stream.take((n * c) as int),
    decreases n,
{
    if n > 0 {
        assert((n - 1) * c + c == n * c) by (nonlinear_arith);
        assert((n - 1) * c >= 0) by (nonlinear_arith)
            requires
                n > 0,
        ;
        lemma_pieces_join(stream, c, lists, (n - 1) as nat);
        assert(lists[n - 1]@ == piece(stream, c, (n - 1) as nat));
        assert(joined(lists, n) =~= stream.take((n * c) as int));
    } else {
        assert(0 * c == 0) by (nonlinear_arith);
        assert(joined(lists, 0) =~= stream.take(0));
    }
}

/// With a model that hands its chunk back the audio passes as it is: what comes out and
/// what waits are what was waiting and what went in, in that order.
pub proof fn lemma_suppression_keeps_the_order<
    N: Scalar,
    M: Fn(&Vec<N>) -> Result<Vec<N>, EmbeddingError>,
>(s: &mut Dfn3Streamer<N>, samples: &[N], enhance: &M, out: Vec<N>)
    requires
        call_ensures(Dfn3Streamer::<N>::push_samples::<M>, (s, samples, enhance), Ok(out)),
        forall|v: Vec<N>, w: Vec<N>| #[trigger]
            call_ensures(*enhance, (&v,), Ok::<Vec<N>, EmbeddingError>(w)) ==> w@ == v@,
    ensures
        out@ + final(s)@ == old(s)@ + samples@,
        final(s)@.len() < 48_960,
{
    let stream = old(s)@ + samples@;
    let c = crate::dfn3::SAMPLES_PER_CHUNK as nat;
    let outs = choose|outs: Seq<Vec<N>>|
        {
            &&& #[trigger] are_enhanced(stream, *enhance, outs)
            &&& outs.len() == stream.len() / c
            &&& out@ == joined(outs, outs.len())
            &&& final(s)@ == stream.skip((outs.len() * c) as int)
        };
    assert forall|i: int| 0 <= i < outs.len() implies (#[trigger] outs[i])@ == piece(
        stream,
        c,
        i as nat,
    ) by {
        let v = choose|v: Vec<N>| v@ == piece(stream, c, i as nat) && #[trigger] call_ensures(
            *enhance,
            (&v,),
            Ok::<Vec<N>, EmbeddingError>(outs[i]),
        );
    }
    assert(outs.len() * c <= stream.len()) by {
        vstd::arithmetic::div_mod::lemma_fundamental_div_mod(stream.len() as int, c as int);
        vstd::arithmetic::div_mod::lemma_mod_bound(stream.len() as int, c as int);
        assert(c * (stream.len() / c) == outs.len() * c) by (nonlinear_arith)
            requires
                outs.len() == stream.len() / c,
        ;
    }
    lemma_pieces_join(stream, c, outs, outs.len());
    assert(out@ + final(s)@ =~= stream);
}

/// At the end the model hears what waits, followed by silence up to a chunk; nothing where
/// nothing waits.
pub proof fn lemma_suppression_ends_with_silence<
    N: Scalar,
    M: Fn(&Vec<N>) -> Result<Vec<N>, EmbeddingError>,
>(s: &mut Dfn3Streamer<N>, enhance: &M, r: Result<Vec<N>, EmbeddingError>)
    requires
        call_ensures(Dfn3Streamer::<N>::flush::<M>, (s, enhance), r),
        old(s)@.len() <= 48_960,
        lawful::<N>(),
    ensures
        final(s)@.len() == 0,
        old(s)@.len() == 0 ==> (r matches Ok(out) && out@.len() == 0),
        old(s)@.len() > 0 ==> exists|chunk: Vec<N>|
            {
                &&& ends_in_silence(old(s)@, 48_960, chunk@)
                &&& #[trigger] call_ensures(*enhance, (&chunk,), r)
            },
{
    if old(s)@.len() > 0 {
        let c = choose|c: Seq<N>| #[trigger]
            is_padded(old(s)@, crate::dfn3::SAMPLES_PER_CHUNK as nat, c) && enhanced_as(
                c,
                *enhance,
                r,
            );
        let chunk = choose|v: Vec<N>| v@ == c && #[trigger] call_ensures(*enhance, (&v,), r);
        assert forall|i: int| 0 <= i < old(s)@.len() implies #[trigger] chunk@[i] == old(s)@[i] by {
            assert(old(s)@[i] == c.take(old(s)@.len() as int)[i]);
        }
        assert(ends_in_silence(old(s)@, 48_960, chunk@));
    }
}

/// `chunk` is `s`, followed by silence up to the length `n`.
pub open spec fn ends_in_silence<N: Scalar>(s: Seq<N>, n: nat, chunk: Seq<N>) -> bool {
    &&& chunk.len() == n
    &&& forall|i: int| 0 <= i < s.len() ==> #[trigger] chunk[i] == s[i]
    &&& forall|i: int| s.len() <= i < n ==> #[trigger] chunk[i] == num::<N>(0)
}

/// With a network that changes nothing, and a synthesis that undoes the analysis, a chunk
/// comes out as it went in: hop by hop, in order, cut or filled up with silence.
pub proof fn lemma_suppression_puts_hops_together<
    N: Scalar,
    A: Fn(&Vec<N>) -> AnalysedFrame<N>,
    M: Fn(&[N], &[N], &[N]) -> Result<SpecReply<N>, EmbeddingError>,
    S: Fn(&Vec<N>) -> Vec<N>,
>(audio: &[N], analyse: &A, net: &M, synthesise: &S, out: Vec<N>)
    requires
        call_ensures(process::<N, A, M, S>, (audio, analyse, net, synthesise), Ok(out)),
        lawful::<N>(),
        forall|v: Vec<N>, f: AnalysedFrame<N>| #[trigger]
            call_ensures(*analyse, (&v,), f) ==> f.spectrum@.len() == 962,
        forall|v: Vec<N>, f: AnalysedFrame<N>, w: Vec<N>, h: Vec<N>|
            #[trigger] call_ensures(*analyse, (&v,), f) && #[trigger] call_ensures(
                *synthesise,
                (&w,),
                h,
            ) && w@ == f.spectrum@ ==> h@ == v@,
        forall|a: &[N], b: &[N], c: &[N], reply: SpecReply<N>| #[trigger]
            call_ensures(*net, (a, b, c), Ok::<SpecReply<N>, EmbeddingError>(reply))
                ==> reply.data@ == a@,
    ensures
        audio@.len() >= 48_960 ==> out@ == audio@.take(48_960),
        audio@.len() <= 48_960 ==> ends_in_silence(audio@, 48_960, out@),
{
    let (chunk, inputs, outcome, enhanced) = choose|
        chunk: Seq<N>,
        inputs: (Seq<N>, Seq<N>, Seq<N>),
        outcome: Result<SpecReply<N>, EmbeddingError>,
        enhanced: Result<Vec<N>, EmbeddingError>,
    |
        {
            &&& is_chunk(audio@, chunk)
            &&& #[trigger] are_inputs(chunk, *analyse, inputs)
            &&& #[trigger] ran_on(inputs, *net, outcome)
            &&& #[trigger] replied(outcome, enhanced)
            &&& match enhanced {
                Err(e) => false,
                Ok(v) => exists|hops: Seq<Vec<N>>|
                    {
                        &&& hops.len() == 102
                        &&& #[trigger] are_synthesised(v@, *synthesise, hops)
                        &&& out@ == joined(hops, hops.len())
                    },
            }
        };
    let v = enhanced->Ok_0;
    let hops = choose|hops: Seq<Vec<N>>|
        {
            &&& hops.len() == 102
            &&& #[trigger] are_synthesised(v@, *synthesise, hops)
            &&& out@ == joined(hops, hops.len())
        };
    let frames = choose|frames: Seq<AnalysedFrame<N>>|
        {
            &&& frames.len() == 102
            &&& #[trigger] are_analysed(chunk, *analyse, frames)
            &&& inputs == laid_out(frames, frames.len())
        };
    let (a, b, c) = choose|a: &[N], b: &[N], c: &[N]|
        (a@, b@, c@) == inputs && #[trigger] call_ensures(*net, (a, b, c), outcome);
    assert(v@ == inputs.0);
    assert(chunk.len() == 48_960);
    assert forall|i: int| 0 <= i < frames.len() implies (#[trigger] frames[i]).spectrum@.len()
        == 962 by {
        assert(analysed_as(piece(chunk, 480, i as nat), *analyse, frames[i]));
    }
    lemma_spectra_laid_out(frames, frames.len());
    assert forall|i: int| 0 <= i < 102 implies (#[trigger] hops[i])@ == piece(
        chunk,
        480,
        i as nat,
    ) by {
        assert(analysed_as(piece(chunk, 480, i as nat), *analyse, frames[i]));
        assert(synthesised_as(piece(v@, 962, i as nat), *synthesise, hops[i]));
        let x = choose|x: Vec<N>| x@ == piece(chunk, 480, i as nat) && #[trigger] call_ensures(
            *analyse,
            (&x,),
            frames[i],
        );
        let w = choose|w: Vec<N>| w@ == piece(v@, 962, i as nat) && #[trigger] call_ensures(
            *synthesise,
            (&w,),
            hops[i],
        );
        assert(piece(laid_out(frames, frames.len()).0, 962, i as nat) == frames[i].spectrum@);
    }
    lemma_pieces_join(chunk, 480, hops, 102);
    assert(out@ =~= chunk);
    if audio@.len() < 48_960 {
        assert forall|i: int| 0 <= i < audio@.len() implies #[trigger] out@[i] == audio@[i] by {
            assert(audio@[i] == chunk.take(audio@.len() as int)[i]);
        }
    }
}

/// What the network gets of the hops of a chunk: their spectra, their band features and their
/// low bins, each kind by itself and in the order of the hops.
pub open spec fn hears_each_kind<
    N,
    A: Fn(&Vec<N>) -> AnalysedFrame<N>,
    M: Fn(&[N], &[N], &[N]) -> Result<SpecReply<N>, EmbeddingError>,
>(
    chunk: Seq<N>,
    analyse: A,
    net: M,
    frames: Seq<AnalysedFrame<N>>,
    outcome: Result<SpecReply<N>, EmbeddingError>,
) -> bool {
    &&& frames.len() == 102
    &&& forall|i: int|
        0 <= i < 102 ==> analysed_as(
            chunk.subrange(480 * i, 480 * i + 480),
            analyse,
            #[trigger] frames[i],
        )
    &&& exists|a: &[N], b: &[N], c: &[N]|
        {
            &&& #[trigger] call_ensures(net, (a, b, c), outcome)
            &&& a@.len() == 102 * 962 && b@.len() == 102 * 32 && c@.len() == 102 * 192
            &&& forall|i: int|
                0 <= i < 102 ==> {
                    &&& a@.subrange(962 * i, 962 * i + 962) == (#[trigger] frames[i]).spectrum@
                    &&& b@.subrange(32 * i, 32 * i + 32) == frames[i].erb@
                    &&& c@.subrange(192 * i, 192 * i + 192) == frames[i].df@
                }
        }
}

/// The network hears the hops of the chunk, each kind of feature in its own place, and it is
/// its outcome that is replied.
pub proof fn lemma_network_hears_each_kind<
    N: Scalar,
    A: Fn(&Vec<N>) -> AnalysedFrame<N>,
    M: Fn(&[N], &[N], &[N]) -> Result<SpecReply<N>, EmbeddingError>,
    S: Fn(&Vec<N>) -> Vec<N>,
>(audio: &[N], analyse: &A, net: &M, synthesise: &S, r: Result<Vec<N>, EmbeddingError>)
    requires
        call_ensures(process::<N, A, M, S>, (audio, analyse, net, synthesise), r),
        forall|v: Vec<N>, f: AnalysedFrame<N>| #[trigger]
            call_ensures(*analyse, (&v,), f) ==> f.spectrum@.len() == 962 && f.erb@.len() == 32
                && f.df@.len() == 192,
        lawful::<N>(),
    ensures
        exists|
            chunk: Seq<N>,
            frames: Seq<AnalysedFrame<N>>,
            outcome: Result<SpecReply<N>, EmbeddingError>,
        |
            {
                &&& #[trigger] hears_each_kind(chunk, *analyse, *net, frames, outcome)
                &&& audio@.len() >= 48_960 ==> chunk == audio@.take(48_960)
                &&& audio@.len() <= 48_960 ==> ends_in_silence(audio@, 48_960, chunk)
                &&& outcome matches Err(e) ==> r == Err::<Vec<N>, EmbeddingError>(e)
            },
{
    let (chunk, inputs, outcome, enhanced) = choose|
        chunk: Seq<N>,
        inputs: (Seq<N>, Seq<N>, Seq<N>),
        outcome: Result<SpecReply<N>, EmbeddingError>,
        enhanced: Result<Vec<N>, EmbeddingError>,
    |
        {
            &&& is_chunk(audio@, chunk)
            &&& #[trigger] are_inputs(chunk, *analyse, inputs)
            &&& #[trigger] ran_on(inputs, *net, outcome)
            &&& #[trigger] replied(outcome, enhanced)
            &&& enhanced matches Err(e) ==> r == Err::<Vec<N>, EmbeddingError>(e)
        };
    let frames = choose|frames: Seq<AnalysedFrame<N>>|
        {
            &&& frames.len() == 102
            &&& #[trigger] are_analysed(chunk, *analyse, frames)
            &&& inputs == laid_out(frames, frames.len())
        };
    let (a, b, c) = choose|a: &[N], b: &[N], c: &[N]|
        (a@, b@, c@) == inputs && #[trigger] call_ensures(*net, (a, b, c), outcome);
    assert(chunk.len() == 48_960);
    if audio@.len() < 48_960 {
        assert forall|i: int| 0 <= i < audio@.len() implies #[trigger] chunk[i] == audio@[i] by {
            assert(audio@[i] == chunk.take(audio@.len() as int)[i]);
        }
    }
    assert forall|i: int| 0 <= i < 102 implies analysed_as(
        chunk.subrange(480 * i, 480 * i + 480),
        *analyse,
        #[trigger] frames[i],
    ) && frames[i].spectrum@.len() == 962 && frames[i].erb@.len() == 32 && frames[i].df@.len()
        == 192 by {
        assert(analysed_as(piece(chunk, 480, i as nat), *analyse, frames[i]));
        assert(piece(chunk, 480, i as nat) =~= chunk.subrange(480 * i, 480 * i + 480));
    }
    lemma_kinds_laid_out(frames, 102);
    assert(hears_each_kind(chunk, *analyse, *net, frames, outcome));
}

proof fn lemma_kinds_laid_out<N>(frames: Seq<AnalysedFrame<N>>, n: nat)
    requires
        n <= frames.len(),
        forall|i: int|
            0 <= i < frames.len() ==> (#[trigger] frames[i]).spectrum@.len() == 962
                && frames[i].erb@.len() == 32 && frames[i].df@.len() == 192,
    ensures
        laid_out(frames, n).0.len() == n * 962,
        laid_out(frames, n).1.len() == n * 32,
        laid_out(frames, n).2.len() == n * 192,
        forall|i: int|
            0 <= i < n ==> {
                &&& laid_out(frames, n).0.subrange(962 * i, 962 * i + 962) == (
                #[trigger] frames[i]).spectrum@
                &&& laid_out(frames, n).1.subrange(32 * i, 32 * i + 32) == frames[i].erb@
                &&& laid_out(frames, n).2.subrange(192 * i, 192 * i + 192) == frames[i].df@
            },
    decreases n,
{
    if n > 0 {
        lemma_kinds_laid_out(frames, (n - 1) as nat);
        let before = laid_out(frames, (n - 1) as nat);
        let now = laid_out(frames, n);
        let last = frames[n - 1];
        assert(last.spectrum@.len() == 962);
        assert(now == (before.0 + last.spectrum@, before.1 + last.erb@, before.2 + last.df@));
        assert forall|i: int| 0 <= i < n implies {
            &&& now.0.subrange(962 * i, 962 * i + 962) == (#[trigger] frames[i]).spectrum@
            &&& now.1.subrange(32 * i, 32 * i + 32) == frames[i].erb@
            &&& now.2.subrange(192 * i, 192 * i + 192) == frames[i].df@
        } by {
            if i < n - 1 {
                let f = frames[i];
                assert(now.0.subrange(962 * i, 962 * i + 962) =~= before.0.subrange(
                    962 * i,
                    962 * i + 962,
                ));
                assert(now.1.subrange(32 * i, 32 * i + 32) =~= before.1.subrange(
                    32 * i,
                    32 * i + 32,
                ));
                assert(now.2.subrange(192 * i, 192 * i + 192) =~= before.2.subrange(
                    192 * i,
                    192 * i + 192,
                ));
            } else {
                assert(now.0.subrange(962 * i, 962 * i + 962) =~= last.spectrum@);
                assert(now.1.subrange(32 * i, 32 * i + 32) =~= last.erb@);
                assert(now.2.subrange(192 * i, 192 * i + 192) =~= last.df@);
            }
        }
    }
}

proof fn lemma_spectra_laid_out<N>(frames: Seq<AnalysedFrame<N>>, n: nat)
    requires
        n <= frames.len(),
        forall|i: int| 0 <= i < frames.len() ==> (#[trigger] frames[i]).spectrum@.len() == 962,
    ensures
        laid_out(frames, n).0.len() == n * 962,
        forall|i: int|
            0 <= i < n ==> piece(laid_out(frames, n).0, 962, i as nat) == (
            #[trigger] frames[i]).spectrum@,
    decreases n,
{
    if n > 0 {
        lemma_spectra_laid_out(frames, (n - 1) as nat);
        let before = laid_out(frames, (n - 1) as nat).0;
        let now = laid_out(frames, n).0;
        assert(frames[n - 1].spectrum@.len() == 962);
        assert(now == before + frames[n - 1].spectrum@);
        assert forall|i: int| 0 <= i < n implies piece(now, 962, i as nat) == (
        #[trigger] frames[i]).spectrum@ by {
            if i < n - 1 {
                assert(piece(before, 962, i as nat) == frames[i].spectrum@);
                assert(piece(now, 962, i as nat) =~= piece(before, 962, i as nat));
            } else {
                assert(piece(now, 962, i as nat) =~= frames[i].spectrum@);
            }
        }
    }
}

/// The points start at the first value and end at the last.
pub proof fn lemma_points_reach_both_ends<N: Scalar>(first: N, last: N, n: usize, r: Vec<N>)
    requires
        call_ensures(init_state_lerp::<N>, (first, last, n), r),
        lawful::<N>(),
        has_units::<N>(),
        n > 1,
        forall|x: N| #[trigger] num::<N>(0).div_spec(x) == num::<N>(0),
        forall|x: N, y: N| #[trigger] x.mul_spec(y).div_spec(y) == x,
        forall|x: N, y: N| #[trigger] x.add_spec(y.sub_spec(x)) == y,
        count::<N>((n - 1) as nat) == count::<N>(n as nat).sub_spec(num(1)),
    ensures
        r@.len() == n,
        r@[0] == first,
        r@[n - 1] == last,
{
    assert(count::<N>(0) == num::<N>(0));
}

// ---------------------------------------------------------------------
// Extraction
// ---------------------------------------------------------------------
/// A model that hands its chunk back.
pub open spec fn echoes<
    N: Scalar,
    M: Fn(&[N], &[N], &Vec<Tensor<N>>) -> Result<TseReply<N>, TseError>,
>(run: M) -> bool {
    forall|a: &[N], b: &[N], c: Vec<Tensor<N>>, reply: TseReply<N>| #[trigger]
        call_ensures(run, (a, b, &c), Ok::<TseReply<N>, TseError>(reply)) ==> reply.extracted@
            == a@
}

/// With a model that hands its chunk back the audio passes as it is: what comes out and
/// what waits are what was waiting and what went in, in that order.
pub proof fn lemma_extraction_keeps_the_order<
    N: Scalar,
    M: Fn(&[N], &[N], &Vec<Tensor<N>>) -> Result<TseReply<N>, TseError>,
>(s: &mut TseStage<N>, samples: &[N], run: &M, out: Vec<N>)
    requires
        call_ensures(TseStage::<N>::process::<M>, (s, samples, run), Ok(out)),
        s.wf(),
        echoes(*run),
    ensures
        out@ + final(s)@.pending == old(s)@.pending + samples@,
        final(s)@.cond == old(s)@.cond,
        final(s)@.chunk == old(s)@.chunk,
        samples@.len() > 0 ==> final(s)@.pending.len() < old(s)@.chunk,
{
    s.lemma_stage_bounds();
    let before = old(s)@;
    let c = before.chunk;
    let stream = before.pending + samples@;
    let k = crate::tse_stage::completed(before.pending.len(), samples@.len(), c);
    let (states, outs) = choose|states: Seq<Vec<Tensor<N>>>, outs: Seq<Vec<N>>|
        {
            &&& #[trigger] is_trace(before.model, stream, c, before.cond, *run, states, outs)
            &&& states[0] == before.carried
            &&& outs.len() == k
            &&& out@ == joined(outs, k)
            &&& final(s)@.pending == stream.subrange((k * c) as int, stream.len() as int)
            &&& final(s)@.cond == before.cond
            &&& final(s)@.chunk == before.chunk
        };
    assert(k * c <= stream.len() && (samples@.len() > 0 ==> stream.len() - k * c < c)) by {
        if samples@.len() > 0 {
            vstd::arithmetic::div_mod::lemma_fundamental_div_mod(stream.len() as int, c as int);
            vstd::arithmetic::div_mod::lemma_mod_bound(stream.len() as int, c as int);
            assert(c * (stream.len() / c) == k * c) by (nonlinear_arith)
                requires
                    k == stream.len() / c,
            ;
        } else {
            assert(0 * c == 0) by (nonlinear_arith);
        }
    }
    assert forall|i: int| 0 <= i < k implies (#[trigger] outs[i])@ == piece(stream, c, i as nat) by {
        let (v, w) = choose|v: &[N], w: &[N]|
            v@ == piece(stream, c, i as nat) && w@ == before.cond
                && #[trigger] crate::tse::chunk_step(
                before.model,
                states[i],
                v,
                w,
                *run,
                states[i + 1],
                Ok(outs[i]),
            );
        let outcome = choose|outcome: Result<TseReply<N>, TseError>|
            {
                &&& #[trigger] call_ensures(*run, (v, w, &states[i]), outcome)
                &&& outcome matches Ok(reply) && reply.extracted == outs[i]
            };
        assert(call_ensures(*run, (v, w, &states[i]), Ok(outcome->Ok_0)));
    }
    lemma_pieces_join(stream, c, outs, k);
    assert(out@ + final(s)@.pending =~= stream);
}

/// The model is given the chunk, the embedding and the state that its last run left; what
/// it extracts is returned, and what it leaves is carried on. A failure leaves the state.
pub proof fn lemma_extraction_carries_its_state<
    N: Scalar,
    M: Fn(&[N], &[N], &Vec<Tensor<N>>) -> Result<TseReply<N>, TseError>,
>(
    s: &mut TseSession<N>,
    chunk: &[N],
    cond: &[N],
    run: &M,
    r: Result<Vec<N>, TseError>,
)
    requires
        call_ensures(TseSession::<N>::process_chunk_slice::<M>, (s, chunk, cond, run), r),
    ensures
        r matches Ok(out) ==> exists|reply: TseReply<N>|
            {
                &&& #[trigger] call_ensures(*run, (chunk, cond, &old(s).carried()), Ok(reply))
                &&& out == reply.extracted
                &&& final(s).carried() == reply.state
            },
        r is Err ==> final(s).carried() == old(s).carried(),
        r is Ok ==> chunk@.len() > 0 && chunk@.len() % old(s).model().enc_stride as nat == 0
            && cond@.len() == 192,
{
    if let Ok(out) = r {
        let state = old(s).carried();
        let outcome = choose|outcome: Result<TseReply<N>, TseError>|
            {
                &&& #[trigger] call_ensures(*run, (chunk, cond, &state), outcome)
                &&& outcome matches Ok(reply) && reply.extracted == out && final(s).carried()
                    == reply.state
            };
        assert(call_ensures(*run, (chunk, cond, &state), Ok(outcome->Ok_0)));
    }
}

/// A session starts from nothing but zeros: the overlap of the encoder first and that of
/// the decoder last, and in front of each block's statistics a ring that doubles from block
/// to block within a repeat.
pub proof fn lemma_extraction_starts_from_silence<N: Scalar>(
    config: TseConfig,
    state: Vec<Tensor<N>>,
    k: int,
)
    requires
        call_ensures(make_initial_state::<N>, (config,), state),
        config.n_blocks > 0,
        config.tcn_kernel > 0,
        0 <= k < config.n_repeats * config.n_blocks,
    ensures
        state@.len() == 5 + 7 * (config.n_repeats * config.n_blocks),
        state@[0].data@.len() == config.enc_overlap,
        state@.last().data@.len() == config.enc_overlap,
        state@[4 + 7 * k].data@.len() == config.hidden * ((config.tcn_kernel - 1) * pow2(
            (k % config.n_blocks as int) as nat,
        )),
        lawful::<N>() ==> forall|i: int, j: int|
            0 <= i < state@.len() && 0 <= j < state@[i].data@.len() ==> #[trigger] state@[i].data@[j]
                == num::<N>(0),
{
    let n = state@.len() as int;
    let b = (config.n_repeats * config.n_blocks) as int;
    assert(config.blocks() == b) by {
        assert(config.n_repeats * config.n_blocks >= 0) by (nonlinear_arith);
    }
    assert(n == 5 + 7 * b);
    let i = 4 + 7 * k;
    assert((i - 4) % 7 == 0 && (i - 4) / 7 == k);
    let first = state@[0];
    let last = state@[n - 1];
    let ring = state@[i];
    let p = (k % config.n_blocks as int) as nat;
    assert(crate::tse::is_zero_tensor(first, config.state_shape(0)));
    assert(crate::tse::is_zero_tensor(last, config.state_shape(n - 1)));
    assert(crate::tse::is_zero_tensor(ring, config.state_shape(i)));
    assert((config.tcn_kernel - 1) * pow2(p) >= 0) by (nonlinear_arith)
        requires
            config.tcn_kernel > 0,
    ;
    assert(config.state_shape(i) == seq![1, config.hidden as nat, config.pad(p)]);
    assert(1 * config.hidden * config.pad(p) == config.hidden * config.pad(p)) by (nonlinear_arith);
    assert(1nat * 1nat * config.enc_overlap == config.enc_overlap) by (nonlinear_arith);
    if lawful::<N>() {
        assert forall|x: int, j: int|
            0 <= x < state@.len() && 0 <= j < state@[x].data@.len() implies #[trigger] state@[x].data@[j]
            == num::<N>(0) by {
            assert(crate::tse::is_zero_tensor(state@[x], config.state_shape(x)));
        }
    }
}

} // verus!
