//! Laws of the audio chain behind the speaker gate.
use crate::chain::{
    add_dither, blended, clamp_share, dithered, gain_factor, guides, is_dfn3_tail, is_guided,
    is_last_tail,
    is_level_match, is_limited, is_mix, is_mixed, is_staged, is_tail, is_tse_tail, lesser,
    level_floor, level_match, mix_sample, Chain, ChainMode, ChainView, HoldView, Memory, Mix,
};
use crate::config::StreamingConfig;
use crate::dfn3::is_pushed;
use crate::embedding::EmbeddingError;
use crate::gating::finite;
use crate::laws::listen::is_end_of;
use crate::laws::{has_units, lemma_integers_have_units};
use crate::overlap::{
    due, is_verdict, listened, DetectorView, OverlapDecision, OverlapReply,
};
use crate::pipeline::PipelineError;
use crate::scalar::{count, dot, ge, gt, lawful, lt, num, pick, Scalar};
use crate::tse::{Tensor, TseError, TseReply};
use crate::tse_stage::is_fed;
use vstd::prelude::*;
use vstd::std_specs::cmp::PartialEqSpec;
use vstd::std_specs::ops::{AddSpec, DivSpec, MulSpec, SubSpec};

verus! {

/// `y` is `v` at the gain `g`, limited first where that is asked for, and silence where
/// that is no finite number.
pub open spec fn leaves_as<N: Scalar, T: Fn(N) -> N>(v: N, g: N, clip: bool, tanh: T, y: N) -> bool {
    exists|w: N|
        {
            &&& if clip {
                call_ensures(tanh, (v,), w)
            } else {
                w == v
            }
            &&& y == if (#[trigger] w.mul_spec(g)).sub_spec(w.mul_spec(g)).eq_spec(&num(0)) {
                w.mul_spec(g)
            } else {
                num(0)
            }
        }
}

/// During overlap the extracted sample, at its level, has the share `alpha` in what
/// leaves, and the raw sample the rest: the raw sample alone leaves for a share of zero,
/// whatever was extracted, and the extracted one alone for a share of one or more.
pub proof fn lemma_alpha_is_share_of_extraction<N: Scalar, T: Fn(N) -> N>(
    x: N,
    raw: N,
    g: N,
    m: Mix<N>,
    tanh: &T,
    y: N,
)
    requires
        call_ensures(mix_sample::<N, T>, (x, raw, g, &m, tanh), y),
        lawful::<N>(),
        m.mode == ChainMode::Overlap,
    ensures
        has_units::<N>() && m.alpha == num::<N>(0) ==> leaves_as(raw, g, m.soft_clip, *tanh, y),
        !lt(m.alpha, num(1)) ==> leaves_as(
            x.mul_spec(m.level).mul_spec(m.overlap),
            g,
            m.soft_clip,
            *tanh,
            y,
        ),
        lt(m.alpha, num(1)) && raw == num::<N>(0) && has_units::<N>() ==> leaves_as(
            m.alpha.mul_spec(x.mul_spec(m.level).mul_spec(m.overlap)),
            g,
            m.soft_clip,
            *tanh,
            y,
        ),
        lt(m.alpha, num(1)) && x == num::<N>(0) && has_units::<N>() ==> leaves_as(
            num::<N>(1).sub_spec(m.alpha).mul_spec(raw),
            g,
            m.soft_clip,
            *tanh,
            y,
        ),
        lt(m.alpha, num(1)) ==> leaves_as(
            m.alpha.mul_spec(x.mul_spec(m.level).mul_spec(m.overlap)).add_spec(
                num::<N>(1).sub_spec(m.alpha).mul_spec(raw),
            ),
            g,
            m.soft_clip,
            *tanh,
            y,
        ),
{
    let w = choose|w: N| #[trigger] is_limited(blended(x, raw, m), m.soft_clip, *tanh, w) && y
        == if finite(w.mul_spec(g)) {
        w.mul_spec(g)
    } else {
        num(0)
    };
    assert(w.mul_spec(g).sub_spec(w.mul_spec(g)) == w.mul_spec(g).sub_spec(w.mul_spec(g)));
}

/// With a single speaker what leaves is the suppressed sample at its gain; the raw
/// sample, the share and the level of the extraction do not matter.
pub proof fn lemma_solo_is_suppression_alone<N: Scalar, T: Fn(N) -> N>(
    x: N,
    raw: N,
    g: N,
    m: Mix<N>,
    tanh: &T,
    y: N,
)
    requires
        call_ensures(mix_sample::<N, T>, (x, raw, g, &m, tanh), y),
        lawful::<N>(),
        m.mode == ChainMode::Solo,
    ensures
        leaves_as(x.mul_spec(m.solo), g, m.soft_clip, *tanh, y),
        has_units::<N>() && m.solo == num::<N>(1) ==> leaves_as(x, g, m.soft_clip, *tanh, y),
{
    let w = choose|w: N| #[trigger] is_limited(blended(x, raw, m), m.soft_clip, *tanh, w) && y
        == if finite(w.mul_spec(g)) {
        w.mul_spec(g)
    } else {
        num(0)
    };
    assert(w.mul_spec(g).sub_spec(w.mul_spec(g)) == w.mul_spec(g).sub_spec(w.mul_spec(g)));
}

/// During overlap with the share of the extraction at zero the chain only delays: the
/// samples come out in the order in which they went in, each times the gain that went in
/// with it, and what has not come out is still there.
pub proof fn lemma_dry_chain_is_a_delay<
    N: Scalar,
    M: Fn(&[N], &[N], &Vec<Tensor<N>>) -> Result<TseReply<N>, TseError>,
    D: Fn(&Vec<N>) -> Result<Vec<N>, EmbeddingError>,
    Q: Fn(N) -> N,
    P: Fn(N) -> N,
    T: Fn(N) -> N,
>(
    c: &mut Chain<N>,
    chunk: &[N],
    gain: &[N],
    config: &StreamingConfig<N>,
    run: &M,
    enhance: &D,
    sqrt: &Q,
    pow10: &P,
    tanh: &T,
    out: Vec<N>,
)
    requires
        call_ensures(
            Chain::<N>::route::<M, D, Q, P, T>,
            (c, chunk, gain, config, run, enhance, sqrt, pow10, tanh),
            Ok(out),
        ),
        lawful::<N>(),
        has_units::<N>(),
        old(c)@.hold.mode == ChainMode::Overlap,
        config.overlap_wet_dry_alpha == num::<N>(0),
    ensures
        out@.len() <= old(c)@.gains.len() + gain@.len(),
        forall|i: int|
            0 <= i < out@.len() ==> leaves_as(
                (old(c)@.raws + chunk@)[i],
                (old(c)@.gains + gain@)[i],
                config.chain_soft_clip,
                *tanh,
                #[trigger] out@[i],
            ),
        final(c)@.raws == (old(c)@.raws + chunk@).skip(out@.len() as int),
        final(c)@.gains == (old(c)@.gains + gain@).skip(out@.len() as int),
{
    let gains = old(c)@.gains + gain@;
    let raws = old(c)@.raws + chunk@;
    let n = out@.len() as int;
    let (cooked, m) = choose|cooked: Seq<N>, m: Mix<N>|
        {
            &&& n == lesser(cooked.len(), gains.len())
            &&& #[trigger] is_staged(
                old(c)@.stages(),
                dithered(chunk@),
                *run,
                *enhance,
                final(c)@.stages(),
                cooked,
            )
            &&& #[trigger] is_mix(
                old(c)@.hold.mode,
                raws.take(n),
                cooked.take(n),
                *config,
                *sqrt,
                *pow10,
                m,
            )
            &&& forall|i: int|
                0 <= i < n ==> is_mixed(cooked[i], raws[i], gains[i], m, *tanh, #[trigger] out@[i])
        };
    assert forall|i: int| 0 <= i < out@.len() implies leaves_as(
        raws[i],
        gains[i],
        config.chain_soft_clip,
        *tanh,
        #[trigger] out@[i],
    ) by {
        let (x, raw, g, y) = (cooked[i], raws[i], gains[i], out@[i]);
        assert(is_mixed(x, raw, g, m, *tanh, y));
        let w = choose|w: N| #[trigger] is_limited(blended(x, raw, m), m.soft_clip, *tanh, w) && y
            == if finite(w.mul_spec(g)) {
            w.mul_spec(g)
        } else {
            num(0)
        };
        assert(w.mul_spec(g).sub_spec(w.mul_spec(g)) == w.mul_spec(g).sub_spec(w.mul_spec(g)));
    }
}

/// Only one stage of an adaptive chain is at work: extraction hears nothing while one
/// speaker is heard, noise suppression hears nothing during overlap.
pub proof fn lemma_adaptive_chain_runs_one_stage<
    N: Scalar,
    M: Fn(&[N], &[N], &Vec<Tensor<N>>) -> Result<TseReply<N>, TseError>,
    D: Fn(&Vec<N>) -> Result<Vec<N>, EmbeddingError>,
    Q: Fn(N) -> N,
    P: Fn(N) -> N,
    T: Fn(N) -> N,
>(
    c: &mut Chain<N>,
    chunk: &[N],
    gain: &[N],
    config: &StreamingConfig<N>,
    run: &M,
    enhance: &D,
    sqrt: &Q,
    pow10: &P,
    tanh: &T,
    out: Vec<N>,
)
    requires
        call_ensures(
            Chain::<N>::route::<M, D, Q, P, T>,
            (c, chunk, gain, config, run, enhance, sqrt, pow10, tanh),
            Ok(out),
        ),
        lawful::<N>(),
        old(c)@.detector is Some && old(c)@.tse is Some && old(c)@.dfn3 is Some,
    ensures
        old(c)@.hold.mode == ChainMode::Solo ==> final(c)@.tse == old(c)@.tse,
        old(c)@.hold.mode == ChainMode::Overlap ==> final(c)@.dfn3 == old(c)@.dfn3,
{
    assert(old(c)@.stages().adaptive);
    assert(final(c)@.stages().tse == final(c)@.tse);
    assert(final(c)@.stages().dfn3 == final(c)@.dfn3);
}

/// Where no detector chooses between the stages, all of them are at work: extraction hears the
/// dithered audio, and noise suppression hears what extraction gives, or the audio itself where
/// nothing is extracted.
pub proof fn lemma_stages_work_in_turn<
    N: Scalar,
    M: Fn(&[N], &[N], &Vec<Tensor<N>>) -> Result<TseReply<N>, TseError>,
    D: Fn(&Vec<N>) -> Result<Vec<N>, EmbeddingError>,
    Q: Fn(N) -> N,
    P: Fn(N) -> N,
    T: Fn(N) -> N,
>(
    c: &mut Chain<N>,
    chunk: &[N],
    gain: &[N],
    config: &StreamingConfig<N>,
    run: &M,
    enhance: &D,
    sqrt: &Q,
    pow10: &P,
    tanh: &T,
    out: Vec<N>,
    dithered_chunk: Vec<N>,
)
    requires
        call_ensures(
            Chain::<N>::route::<M, D, Q, P, T>,
            (c, chunk, gain, config, run, enhance, sqrt, pow10, tanh),
            Ok(out),
        ),
        call_ensures(add_dither::<N>, (chunk,), dithered_chunk),
        lawful::<N>(),
        old(c)@.detector is None,
    ensures
        old(c)@.tse is Some && old(c)@.dfn3 is Some ==> exists|mid: Vec<N>, cooked: Vec<N>|
            {
                &&& #[trigger] is_fed(
                    old(c)@.tse->0,
                    dithered_chunk@,
                    *run,
                    final(c)@.tse->0,
                    Ok(mid),
                )
                &&& #[trigger] is_pushed(
                    old(c)@.dfn3->0,
                    mid@,
                    *enhance,
                    final(c)@.dfn3->0,
                    Ok(cooked),
                )
            },
        old(c)@.tse is Some && old(c)@.dfn3 is None ==> exists|mid: Vec<N>| #[trigger]
            is_fed(old(c)@.tse->0, dithered_chunk@, *run, final(c)@.tse->0, Ok(mid)),
        old(c)@.tse is None && old(c)@.dfn3 is Some ==> exists|cooked: Vec<N>| #[trigger]
            is_pushed(
                old(c)@.dfn3->0,
                dithered_chunk@,
                *enhance,
                final(c)@.dfn3->0,
                Ok(cooked),
            ),
{
    assert(dithered_chunk@ =~= dithered(chunk@));
    let cooked = choose|cooked: Seq<N>| #[trigger]
        is_staged(
            old(c)@.stages(),
            dithered(chunk@),
            *run,
            *enhance,
            final(c)@.stages(),
            cooked,
        );
    let mid = choose|mid: Vec<N>| #[trigger]
        crate::chain::is_extracted(
            old(c)@.stages(),
            dithered(chunk@),
            *run,
            final(c)@.stages(),
            mid,
        ) && crate::chain::is_suppressed(
            old(c)@.stages(),
            mid@,
            *enhance,
            final(c)@.stages(),
            cooked,
        );
    assert(final(c)@.stages().tse == final(c)@.tse);
    assert(final(c)@.stages().dfn3 == final(c)@.dfn3);
}

/// The level brings the output to the level of the input, but lifts it no further than
/// allowed: times the level of the output it gives that of the input, both no lower than
/// what is told from silence, unless the largest gain is less than that.
pub proof fn lemma_level_matches_input<N: Scalar, Q: Fn(N) -> N, P: Fn(N) -> N>(
    raw: Vec<N>,
    out: Vec<N>,
    max_db: N,
    sqrt: &Q,
    pow10: &P,
    g: N,
)
    requires
        call_ensures(level_match::<N, Q, P>, (&raw, &out, max_db, sqrt, pow10), g),
        lawful::<N>(),
        forall|x: N, y: N| #[trigger] x.div_spec(y).mul_spec(y) == x,
        forall|x: N| #[trigger] x.eq_spec(&x),
        raw@.len() == out@.len(),
    ensures
        exists|a: N, b: N, m: N|
            {
                &&& #[trigger] call_ensures(
                    *sqrt,
                    (dot(raw@, raw@, raw@.len()).div_spec(count(raw@.len())),),
                    a,
                )
                &&& #[trigger] call_ensures(
                    *sqrt,
                    (dot(out@, out@, out@.len()).div_spec(count(out@.len())),),
                    b,
                )
                &&& #[trigger] call_ensures(*pow10, (max_db.div_spec(num(20)),), m)
                &&& g == m || g.mul_spec(pick(b, level_floor())) == pick(a, level_floor())
                &&& lt(m, m) || !lt(m, g)
            },
{
}

/// Extraction takes over exactly when overlap was heard without a break for the hold-on
/// time, counted in whole verdicts.
pub proof fn lemma_overlap_takes_over_after_hold_on<F: Fn(Memory)>(
    chains: Seq<&mut Chain<u64>>,
    probs: Seq<u64>,
    cadence_ms: u64,
    config: &StreamingConfig<u64>,
    forget: &F,
    n: int,
)
    requires
        chains.len() == probs.len(),
        forall|i: int|
            0 <= i < probs.len() ==> call_ensures(
                Chain::<u64>::note_overlap::<F>,
                (chains[i], #[trigger] probs[i], cadence_ms, config, forget),
                (),
            ),
        forall|i: int|
            0 < i < probs.len() ==> *(#[trigger] chains[i]) == *final(chains[i - 1]),
        0 < n <= probs.len(),
        chains[0]@.hold == (HoldView { mode: ChainMode::Solo, above_ms: 0u64, below_ms: 0u64 }),
        forall|i: int| 0 <= i < probs.len() ==> #[trigger] probs[i] >= config.overlap_threshold,
        (n - 1) * cadence_ms < config.overlap_hold_on_ms,
        n * cadence_ms <= u64::MAX,
    ensures
        final(chains[n - 1])@.hold.mode == ChainMode::Overlap <==> n * cadence_ms >= config.overlap_hold_on_ms,
        n * cadence_ms < config.overlap_hold_on_ms ==> final(chains[n - 1])@.hold == (HoldView {
            mode: ChainMode::Solo,
            above_ms: (n * cadence_ms) as u64,
            below_ms: 0u64,
        }),
    decreases n,
{
    lemma_integers_have_units();
    assert(num::<u64>(0) == 0u64);
    assert(n * cadence_ms == (n - 1) * cadence_ms + cadence_ms) by (nonlinear_arith);
    assert(probs[n - 1] >= config.overlap_threshold);
    if n > 1 {
        assert((n - 2) * cadence_ms <= (n - 1) * cadence_ms) by (nonlinear_arith)
            requires
                n > 1,
        ;
        lemma_overlap_takes_over_after_hold_on(chains, probs, cadence_ms, config, forget, n - 1);
    } else {
        assert((n - 1) * cadence_ms == 0) by (nonlinear_arith)
            requires
                n == 1,
        ;
    }
}

/// Noise suppression takes over again exactly when no overlap was heard for the hold-off
/// time, counted in whole verdicts.
pub proof fn lemma_suppression_takes_over_after_hold_off<F: Fn(Memory)>(
    chains: Seq<&mut Chain<u64>>,
    probs: Seq<u64>,
    cadence_ms: u64,
    config: &StreamingConfig<u64>,
    forget: &F,
    n: int,
)
    requires
        chains.len() == probs.len(),
        forall|i: int|
            0 <= i < probs.len() ==> call_ensures(
                Chain::<u64>::note_overlap::<F>,
                (chains[i], #[trigger] probs[i], cadence_ms, config, forget),
                (),
            ),
        forall|i: int|
            0 < i < probs.len() ==> *(#[trigger] chains[i]) == *final(chains[i - 1]),
        0 < n <= probs.len(),
        chains[0]@.hold == (HoldView { mode: ChainMode::Overlap, above_ms: 0u64, below_ms: 0u64 }),
        forall|i: int| 0 <= i < probs.len() ==> #[trigger] probs[i] < config.overlap_threshold,
        (n - 1) * cadence_ms < config.overlap_hold_off_ms,
        n * cadence_ms <= u64::MAX,
    ensures
        final(chains[n - 1])@.hold.mode == ChainMode::Solo <==> n * cadence_ms >= config.overlap_hold_off_ms,
        n * cadence_ms < config.overlap_hold_off_ms ==> final(chains[n - 1])@.hold == (HoldView {
            mode: ChainMode::Overlap,
            above_ms: 0u64,
            below_ms: (n * cadence_ms) as u64,
        }),
    decreases n,
{
    lemma_integers_have_units();
    assert(num::<u64>(0) == 0u64);
    assert(n * cadence_ms == (n - 1) * cadence_ms + cadence_ms) by (nonlinear_arith);
    assert(probs[n - 1] < config.overlap_threshold);
    if n > 1 {
        assert((n - 2) * cadence_ms <= (n - 1) * cadence_ms) by (nonlinear_arith)
            requires
                n > 1,
        ;
        lemma_suppression_takes_over_after_hold_off(chains, probs, cadence_ms, config, forget, n - 1);
    } else {
        assert((n - 1) * cadence_ms == 0) by (nonlinear_arith)
            requires
                n == 1,
        ;
    }
}

/// One verdict the other way starts the count anew.
pub proof fn lemma_verdict_breaks_the_run<F: Fn(Memory)>(
    c: &mut Chain<u64>,
    prob: u64,
    cadence_ms: u64,
    config: &StreamingConfig<u64>,
    forget: &F,
)
    requires
        call_ensures(
            Chain::<u64>::note_overlap::<F>,
            (c, prob, cadence_ms, config, forget),
            (),
        ),
        final(c)@.hold.mode == old(c)@.hold.mode,
    ensures
        prob >= config.overlap_threshold ==> final(c)@.hold.below_ms == 0,
        prob < config.overlap_threshold ==> final(c)@.hold.above_ms == 0,
{
    lemma_integers_have_units();
    assert(num::<u64>(0) == 0u64);
}

/// Audio is moved off silence by a ten-millionth, up and down in turn, so that no two
/// neighbours are moved the same way.
pub proof fn lemma_dither_goes_up_and_down<N: Scalar>(audio: &[N], r: Vec<N>, i: int)
    requires
        call_ensures(add_dither::<N>, (audio,), r),
        lawful::<N>(),
        0 <= i < audio@.len(),
    ensures
        r@.len() == audio@.len(),
        ({
            let e = num::<N>(1).div_spec(num::<N>(10_000).mul_spec(num(1000)));
            r@[i] == if i % 2 == 0 {
                audio@[i].add_spec(e)
            } else {
                audio@[i].add_spec(num::<N>(0).sub_spec(e))
            }
        }),
{
    assert(r@ =~= dithered(audio@));
}

/// A gain in decibels is a power of ten, a factor of ten for each twenty of them; none at all
/// changes nothing.
pub proof fn lemma_gain_is_in_decibels<N: Scalar, P: Fn(N) -> N>(db: N, pow10: &P, g: N)
    requires
        call_ensures(gain_factor::<N, P>, (db, pow10), g),
        lawful::<N>(),
    ensures
        db.eq_spec(&num(0)) ==> g == num::<N>(1),
        !db.eq_spec(&num(0)) ==> call_ensures(*pow10, (db.div_spec(num(20)),), g),
{
}

/// A share lies between nothing and all: what is less is nothing, what is more is all, and what
/// lies between stays.
pub proof fn lemma_share_is_kept_within_bounds<N: Scalar>(x: N, r: N)
    requires
        call_ensures(clamp_share::<N>, (x,), r),
        lawful::<N>(),
    ensures
        lt(x, num(0)) ==> r == num::<N>(0),
        !lt(x, num(0)) && gt(x, num(1)) ==> r == num::<N>(1),
        !lt(x, num(0)) && !gt(x, num(1)) ==> r == x,
{
}

/// At the end of a stream the stages are emptied: every sample that was held back comes out
/// once, times the gain that waited for it, in order, and nothing waits any more.
pub proof fn lemma_tail_meets_its_gains<
    N: Scalar,
    M: Fn(&[N], &[N], &Vec<Tensor<N>>) -> Result<TseReply<N>, TseError>,
    D: Fn(&Vec<N>) -> Result<Vec<N>, EmbeddingError>,
>(chain: &mut Chain<N>, run: &M, enhance: &D, r: Option<Vec<N>>)
    requires
        chain.wf(),
        call_ensures(Chain::<N>::drain_tail::<M, D>, (chain, run, enhance), Ok(r)),
        lawful::<N>(),
    ensures
        r is None <==> old(chain)@.gains.len() == 0,
        r is None ==> final(chain)@ == old(chain)@,
        r matches Some(out) ==> {
            &&& out@.len() == old(chain)@.gains.len()
            &&& final(chain)@.held_back() == 0
            &&& final(chain)@.gains.len() == 0
            &&& final(chain)@.raws.len() == 0
            &&& old(chain)@.dfn3 is None ==> exists|tail: Vec<N>|
                {
                    &&& #[trigger] is_tse_tail(
                        old(chain)@.tse,
                        *run,
                        final(chain)@.tse,
                        tail,
                    )
                    &&& forall|i: int|
                        0 <= i < out@.len() ==> #[trigger] out@[i] == tail@[i].mul_spec(
                            old(chain)@.gains[i],
                        )
                }
        },
{
}

/// The detector of a chain hears the frame behind what it heard before, and only a verdict can
/// change how the chain works; without a detector nothing changes.
pub proof fn lemma_chain_listens_for_overlap<
    N: Scalar,
    O: Fn(&Vec<N>) -> Result<OverlapReply<N>, EmbeddingError>,
    E: Fn(N) -> N,
    F: Fn(Memory),
>(
    chain: &mut Chain<N>,
    frame: &[N],
    config: StreamingConfig<N>,
    infer: &O,
    exp: &E,
    forget: &F,
    r: Result<(), PipelineError>,
)
    requires
        call_ensures(
            Chain::<N>::update_chain_mode::<O, E, F>,
            (chain, frame, &config, infer, exp, forget),
            r,
        ),
    ensures
        old(chain)@.detector is None ==> r is Ok && final(chain)@ == old(chain)@,
        old(chain)@.detector matches Some(d) ==> {
            &&& final(chain)@.detector matches Some(e)
            &&& is_end_of(d.window + frame@, 16_000, e.window)
            &&& e.cadence == d.cadence
            &&& d.window.len() + frame@.len() < 16_000 ==> final(chain)@.hold == old(chain)@.hold
                && r is Ok
            &&& d.since_last_run + frame@.len() < d.cadence ==> final(chain)@.hold == old(
                chain,
            )@.hold && r is Ok
        },
{
}

/// A verdict counts by its mean probability: below the threshold it ends what speaks for
/// overlap, at the threshold or above it ends what speaks against it, and the other time grows
/// by the time between two verdicts unless the mode flips.
pub proof fn lemma_chain_follows_mean_of_verdict<
    N: Scalar,
    O: Fn(&Vec<N>) -> Result<OverlapReply<N>, EmbeddingError>,
    E: Fn(N) -> N,
    F: Fn(Memory),
>(
    chain: &mut Chain<N>,
    frame: &[N],
    config: StreamingConfig<N>,
    infer: &O,
    exp: &E,
    forget: &F,
)
    requires
        call_ensures(
            Chain::<N>::update_chain_mode::<O, E, F>,
            (chain, frame, &config, infer, exp, forget),
            Ok(()),
        ),
        lawful::<N>(),
        old(chain)@.detector matches Some(d) && d.window.len() + frame@.len() >= 16_000
            && d.since_last_run + frame@.len() >= d.cadence && d.cadence <= usize::MAX,
    ensures
        exists|d: OverlapDecision<N>|
            {
                &&& #[trigger] is_verdict(final(chain)@.detector->0.window, *infer, *exp, Ok(d))
                &&& ge(d.mean_overlap_prob, config.overlap_threshold) ==> {
                    &&& final(chain)@.hold.below_ms == num::<N>(0)
                    &&& final(chain)@.hold.mode == old(chain)@.hold.mode
                        ==> final(chain)@.hold.above_ms == old(chain)@.hold.above_ms.add_spec(
                        lasting(old(chain)@.detector->0.cadence),
                    )
                }
                &&& !ge(d.mean_overlap_prob, config.overlap_threshold) ==> {
                    &&& final(chain)@.hold.above_ms == num::<N>(0)
                    &&& final(chain)@.hold.mode == old(chain)@.hold.mode
                        ==> final(chain)@.hold.below_ms == old(chain)@.hold.below_ms.add_spec(
                        lasting(old(chain)@.detector->0.cadence),
                    )
                }
            },
{
    lemma_verdict_is_followed(
        old(chain)@,
        listened(old(chain)@.detector->0, frame@),
        config,
        *infer,
        *exp,
        *forget,
        final(chain)@,
    );
}

proof fn lemma_verdict_is_followed<
    N: Scalar,
    O: Fn(&Vec<N>) -> Result<OverlapReply<N>, EmbeddingError>,
    E: Fn(N) -> N,
    F: Fn(Memory),
>(
    before: ChainView<N>,
    heard: DetectorView<N>,
    config: StreamingConfig<N>,
    infer: O,
    exp: E,
    forget: F,
    after: ChainView<N>,
)
    requires
        lawful::<N>(),
        due(heard),
        is_guided(before, heard, config, infer, exp, forget, after, Ok(())),
    ensures
        exists|d: OverlapDecision<N>|
            {
                &&& #[trigger] is_verdict(after.detector->0.window, infer, exp, Ok(d))
                &&& ge(d.mean_overlap_prob, config.overlap_threshold) ==> {
                    &&& after.hold.below_ms == num::<N>(0)
                    &&& after.hold.mode == before.hold.mode ==> after.hold.above_ms
                        == before.hold.above_ms.add_spec(lasting(heard.cadence))
                }
                &&& !ge(d.mean_overlap_prob, config.overlap_threshold) ==> {
                    &&& after.hold.above_ms == num::<N>(0)
                    &&& after.hold.mode == before.hold.mode ==> after.hold.below_ms
                        == before.hold.below_ms.add_spec(lasting(heard.cadence))
                }
            },
{
    let ran = DetectorView { since_last_run: 0, ..heard };
    let (d, cadence) = choose|d: OverlapDecision<N>, cadence: N| #[trigger]
        guides(before, ran, d, cadence, config, infer, exp, forget, after);
    assert(after.detector == Some(ran));
    assert(is_verdict(after.detector->0.window, infer, exp, Ok(d)));
    assert(cadence == lasting::<N>(heard.cadence));
}

/// How long so many samples last, in milliseconds.
pub open spec fn lasting<N: Scalar>(samples: nat) -> N {
    count::<N>(samples).div_spec(count(16_000)).mul_spec(num(1_000))
}

/// A reset chain starts afresh: nothing waits in it, and each stage that it had it still has.
pub proof fn lemma_reset_chain_is_empty<N: Scalar, F: Fn(Memory)>(chain: &mut Chain<N>, forget: &F)
    requires
        call_ensures(Chain::<N>::reset::<F>, (chain, forget), ()),
    ensures
        final(chain)@.gains.len() == 0,
        final(chain)@.raws.len() == 0,
        final(chain)@.held_back() == 0,
        final(chain)@.hold == old(chain)@.hold,
        final(chain)@.detector == old(chain)@.detector,
        final(chain)@.tse is Some <==> old(chain)@.tse is Some,
        final(chain)@.dfn3 is Some <==> old(chain)@.dfn3 is Some,
        final(chain)@.tse matches Some(t) ==> t.cond == old(chain)@.tse->0.cond,
{
}

/// `g` is the factor of a gain of `db` decibels.
pub open spec fn is_decibels<N: Scalar, P: Fn(N) -> N>(db: N, pow10: P, g: N) -> bool {
    &&& db.eq_spec(&num(0)) ==> g == num::<N>(1)
    &&& !db.eq_spec(&num(0)) ==> call_ensures(pow10, (db.div_spec(num(20)),), g)
}

/// `level` brings `out` to the level of `raw`, where the configuration asks for that and there
/// is something to bring there.
pub open spec fn is_leveled<N: Scalar, Q: Fn(N) -> N, P: Fn(N) -> N>(
    config: StreamingConfig<N>,
    raw: Seq<N>,
    out: Seq<N>,
    sqrt: Q,
    pow10: P,
    level: N,
) -> bool {
    &&& !config.overlap_rms_match || out.len() == 0 ==> level == num::<N>(1)
    &&& config.overlap_rms_match && out.len() > 0 ==> is_level_match(
        raw,
        out,
        config.overlap_rms_match_max_gain_db,
        sqrt,
        pow10,
        level,
    )
}

/// While one speaker is heard, what the stages give for the dithered audio leaves at the gain
/// for that, limited where that is asked for, times the gain that waited for it.
pub proof fn lemma_solo_leaves_at_its_gain<
    N: Scalar,
    M: Fn(&[N], &[N], &Vec<Tensor<N>>) -> Result<TseReply<N>, TseError>,
    D: Fn(&Vec<N>) -> Result<Vec<N>, EmbeddingError>,
    Q: Fn(N) -> N,
    P: Fn(N) -> N,
    T: Fn(N) -> N,
>(
    c: &mut Chain<N>,
    chunk: &[N],
    gain: &[N],
    config: &StreamingConfig<N>,
    run: &M,
    enhance: &D,
    sqrt: &Q,
    pow10: &P,
    tanh: &T,
    out: Vec<N>,
)
    requires
        call_ensures(
            Chain::<N>::route::<M, D, Q, P, T>,
            (c, chunk, gain, config, run, enhance, sqrt, pow10, tanh),
            Ok(out),
        ),
        lawful::<N>(),
        old(c)@.hold.mode == ChainMode::Solo,
    ensures
        exists|cooked: Seq<N>, s: N|
            {
                &&& #[trigger] is_staged(
                    old(c)@.stages(),
                    dithered(chunk@),
                    *run,
                    *enhance,
                    final(c)@.stages(),
                    cooked,
                )
                &&& #[trigger] is_decibels(config.makeup_gain_db_solo, *pow10, s)
                &&& out@.len() <= cooked.len()
                &&& out@.len() == cooked.len() || out@.len() == old(c)@.gains.len() + gain@.len()
                &&& forall|i: int|
                    0 <= i < out@.len() ==> leaves_as(
                        cooked[i].mul_spec(s),
                        (old(c)@.gains + gain@)[i],
                        config.chain_soft_clip,
                        *tanh,
                        #[trigger] out@[i],
                    )
            },
{
    let gains = old(c)@.gains + gain@;
    let raws = old(c)@.raws + chunk@;
    let n = out@.len() as int;
    let (cooked, m) = choose|cooked: Seq<N>, m: Mix<N>|
        {
            &&& n == lesser(cooked.len(), gains.len())
            &&& #[trigger] is_staged(
                old(c)@.stages(),
                dithered(chunk@),
                *run,
                *enhance,
                final(c)@.stages(),
                cooked,
            )
            &&& #[trigger] is_mix(
                old(c)@.hold.mode,
                raws.take(n),
                cooked.take(n),
                *config,
                *sqrt,
                *pow10,
                m,
            )
            &&& forall|i: int|
                0 <= i < n ==> is_mixed(cooked[i], raws[i], gains[i], m, *tanh, #[trigger] out@[i])
        };
    assert forall|i: int| 0 <= i < out@.len() implies leaves_as(
        cooked[i].mul_spec(m.solo),
        gains[i],
        config.chain_soft_clip,
        *tanh,
        #[trigger] out@[i],
    ) by {
        let (x, raw, g, y) = (cooked[i], raws[i], gains[i], out@[i]);
        assert(is_mixed(x, raw, g, m, *tanh, y));
        let w = choose|w: N| #[trigger] is_limited(blended(x, raw, m), m.soft_clip, *tanh, w) && y
            == if finite(w.mul_spec(g)) {
            w.mul_spec(g)
        } else {
            num(0)
        };
        assert(w.mul_spec(g).sub_spec(w.mul_spec(g)) == w.mul_spec(g).sub_spec(w.mul_spec(g)));
    }
    assert(is_staged(
        old(c)@.stages(),
        dithered(chunk@),
        *run,
        *enhance,
        final(c)@.stages(),
        cooked,
    ));
    assert(is_decibels(config.makeup_gain_db_solo, *pow10, m.solo));
}

/// During overlap, with the extraction alone, what the stages give for the dithered audio
/// leaves at the gain for that, brought to the level of the raw audio where that is asked for,
/// limited where that is asked for, times the gain that waited for it.
pub proof fn lemma_overlap_leaves_at_its_gain<
    N: Scalar,
    M: Fn(&[N], &[N], &Vec<Tensor<N>>) -> Result<TseReply<N>, TseError>,
    D: Fn(&Vec<N>) -> Result<Vec<N>, EmbeddingError>,
    Q: Fn(N) -> N,
    P: Fn(N) -> N,
    T: Fn(N) -> N,
>(
    c: &mut Chain<N>,
    chunk: &[N],
    gain: &[N],
    config: &StreamingConfig<N>,
    run: &M,
    enhance: &D,
    sqrt: &Q,
    pow10: &P,
    tanh: &T,
    out: Vec<N>,
)
    requires
        call_ensures(
            Chain::<N>::route::<M, D, Q, P, T>,
            (c, chunk, gain, config, run, enhance, sqrt, pow10, tanh),
            Ok(out),
        ),
        lawful::<N>(),
        old(c)@.hold.mode == ChainMode::Overlap,
        gt(config.overlap_wet_dry_alpha, num(1)),
        !lt(config.overlap_wet_dry_alpha, num(0)),
        has_units::<N>(),
    ensures
        exists|cooked: Seq<N>, level: N, o: N|
            {
                &&& #[trigger] is_staged(
                    old(c)@.stages(),
                    dithered(chunk@),
                    *run,
                    *enhance,
                    final(c)@.stages(),
                    cooked,
                )
                &&& #[trigger] is_decibels(config.makeup_gain_db_overlap, *pow10, o)
                &&& #[trigger] is_leveled(
                    *config,
                    (old(c)@.raws + chunk@).take(out@.len() as int),
                    cooked.take(out@.len() as int),
                    *sqrt,
                    *pow10,
                    level,
                )
                &&& out@.len() <= cooked.len()
                &&& forall|i: int|
                    0 <= i < out@.len() ==> leaves_as(
                        cooked[i].mul_spec(level).mul_spec(o),
                        (old(c)@.gains + gain@)[i],
                        config.chain_soft_clip,
                        *tanh,
                        #[trigger] out@[i],
                    )
            },
{
    let gains = old(c)@.gains + gain@;
    let raws = old(c)@.raws + chunk@;
    let n = out@.len() as int;
    let (cooked, m) = choose|cooked: Seq<N>, m: Mix<N>|
        {
            &&& n == lesser(cooked.len(), gains.len())
            &&& #[trigger] is_staged(
                old(c)@.stages(),
                dithered(chunk@),
                *run,
                *enhance,
                final(c)@.stages(),
                cooked,
            )
            &&& #[trigger] is_mix(
                old(c)@.hold.mode,
                raws.take(n),
                cooked.take(n),
                *config,
                *sqrt,
                *pow10,
                m,
            )
            &&& forall|i: int|
                0 <= i < n ==> is_mixed(cooked[i], raws[i], gains[i], m, *tanh, #[trigger] out@[i])
        };
    assert forall|i: int| 0 <= i < out@.len() implies leaves_as(
        cooked[i].mul_spec(m.level).mul_spec(m.overlap),
        gains[i],
        config.chain_soft_clip,
        *tanh,
        #[trigger] out@[i],
    ) by {
        let (x, raw, g, y) = (cooked[i], raws[i], gains[i], out@[i]);
        assert(is_mixed(x, raw, g, m, *tanh, y));
        let w = choose|w: N| #[trigger] is_limited(blended(x, raw, m), m.soft_clip, *tanh, w) && y
            == if finite(w.mul_spec(g)) {
            w.mul_spec(g)
        } else {
            num(0)
        };
        assert(w.mul_spec(g).sub_spec(w.mul_spec(g)) == w.mul_spec(g).sub_spec(w.mul_spec(g)));
    }
    assert(is_staged(
        old(c)@.stages(),
        dithered(chunk@),
        *run,
        *enhance,
        final(c)@.stages(),
        cooked,
    ));
    assert(is_decibels(config.makeup_gain_db_overlap, *pow10, m.overlap));
    assert(is_leveled(*config, raws.take(n), cooked.take(n), *sqrt, *pow10, m.level));
}

/// At the end of a stream, what extraction gives goes through noise suppression behind what
/// waited there; what is then still left is filled up with silence, and comes out last.
pub proof fn lemma_tail_goes_through_suppression<
    N: Scalar,
    M: Fn(&[N], &[N], &Vec<Tensor<N>>) -> Result<TseReply<N>, TseError>,
    D: Fn(&Vec<N>) -> Result<Vec<N>, EmbeddingError>,
>(chain: &mut Chain<N>, run: &M, enhance: &D, out: Vec<N>)
    requires
        call_ensures(Chain::<N>::drain_tail::<M, D>, (chain, run, enhance), Ok(Some(out))),
        lawful::<N>(),
        old(chain)@.dfn3 is Some,
    ensures
        exists|mid: Vec<N>, between: Seq<N>, first: Vec<N>, last: Vec<N>|
            {
                &&& #[trigger] is_tse_tail(old(chain)@.tse, *run, final(chain)@.tse, mid)
                &&& #[trigger] is_pushed(
                    old(chain)@.dfn3->0,
                    mid@,
                    *enhance,
                    between,
                    Ok(first),
                )
                &&& #[trigger] is_last_tail(between, *enhance, last)
                &&& forall|i: int|
                    0 <= i < out@.len() && i < first@.len() ==> #[trigger] out@[i]
                        == first@[i].mul_spec(old(chain)@.gains[i])
                &&& forall|i: int|
                    first@.len() <= i < out@.len() ==> #[trigger] out@[i] == last@[i
                        - first@.len()].mul_spec(old(chain)@.gains[i])
            },
{
    let tail = choose|tail: Seq<N>|
        {
            &&& #[trigger] is_tail(
                old(chain)@.stages(),
                *run,
                *enhance,
                final(chain)@.stages(),
                tail,
            )
            &&& out@.len() == lesser(tail.len(), old(chain)@.gains.len())
            &&& forall|i: int|
                0 <= i < out@.len() ==> #[trigger] out@[i] == tail[i].mul_spec(
                    old(chain)@.gains[i],
                )
        };
    let mid = choose|mid: Vec<N>| #[trigger]
        is_tse_tail(old(chain)@.tse, *run, final(chain)@.tse, mid) && is_dfn3_tail(
            old(chain)@.dfn3,
            mid@,
            *enhance,
            final(chain)@.dfn3,
            tail,
        );
    let (between, pushed, last) = choose|
        between: Seq<N>,
        pushed: Result<Vec<N>, EmbeddingError>,
        last: Vec<N>,
    |
        {
            &&& #[trigger] is_pushed(old(chain)@.dfn3->0, mid@, *enhance, between, pushed)
            &&& #[trigger] is_last_tail(between, *enhance, last)
            &&& pushed matches Ok(first)
            &&& tail == first@ + last@
        };
    assert(is_pushed(old(chain)@.dfn3->0, mid@, *enhance, between, Ok(pushed->Ok_0)));
}

} // verus!
