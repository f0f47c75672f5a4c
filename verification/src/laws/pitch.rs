//! Laws of pitch estimation.
use crate::f0::{
    correlation, cumulative_mean_normalized, difference, f0_statistics, filled, find_tau_dip,
    is_bottom, is_chosen_dip, is_correlated, is_dip, is_estimate, is_found, is_hint, is_pcm,
    is_range, last_pitch, lemma_difference_is_squared_difference, parabolic_refine, running, spread,
    squared_difference, track_frame, PitchMath,
};
use crate::laws::{adds_up, are_running_sums, cut_out, has_units, lemma_integers_have_units};
use crate::laws::{lemma_sum_adds_up, score::squares_about};
use crate::scalar::{count, frac, gt, lawful, le, lt, num, sum, Scalar};
use vstd::prelude::*;
use vstd::std_specs::cmp::PartialEqSpec;
use vstd::std_specs::ops::{AddSpec, DivSpec, MulSpec, SubSpec};

verus! {

/// The track moves through the audio: estimate `i` is made on the frame that starts `i`
/// hops into it.
pub proof fn lemma_track_follows_the_audio<N: Scalar, A, Z, W>(
    math: PitchMath<A, Z, W>,
    audio: &[N],
    sample_rate: u32,
    frame_size: usize,
    hop_size: usize,
    f_min: N,
    f_max: N,
    unvoiced: N,
    track: Vec<N>,
    i: int,
) where A: Fn(&Vec<N>) -> Vec<N>, Z: Fn(N) -> usize, W: Fn(N) -> N
    requires
        call_ensures(
            PitchMath::<A, Z, W>::estimate_f0_track::<N>,
            (&math, audio, sample_rate, frame_size, hop_size, f_min, f_max, unvoiced),
            track,
        ),
        lawful::<N>(),
        0 <= i < track@.len(),
    ensures
        i * hop_size + frame_size <= audio@.len(),
        exists|frame: Seq<N>, before: Option<N>, estimate: Option<N>|
            {
                &&& #[trigger] cut_out(audio@, i * hop_size, frame_size as int, frame)
                &&& #[trigger] math.is_yin(
                    frame,
                    sample_rate,
                    f_min,
                    f_max,
                    frac(1, 10),
                    before,
                    estimate,
                )
                &&& i == 0 ==> before is None
                &&& i > 0 && before is Some && track@[i - 1] != unvoiced ==> before == Some(
                    track@[i - 1],
                )
                &&& estimate is Some ==> track@[i] == estimate->0
                &&& estimate is None ==> track@[i] == unvoiced
            },
{
    let estimates = choose|estimates: Seq<Option<N>>|
        {
            &&& track@ == #[trigger] filled(estimates, unvoiced)
            &&& lawful::<N>() ==> math.are_estimates(
                audio@,
                sample_rate,
                frame_size as nat,
                hop_size as nat,
                f_min,
                f_max,
                estimates,
            )
        };
    assert(track@.len() == estimates.len());
    let n = audio@.len();
    let k = (n - frame_size) / (hop_size as int);
    assert(i * hop_size <= k * hop_size) by (nonlinear_arith)
        requires
            i <= k,
    ;
    assert(k * hop_size <= n - frame_size) by (nonlinear_arith)
        requires
            k == (n - frame_size) / (hop_size as int),
            hop_size > 0,
    ;
    let frame = track_frame(audio@, frame_size as nat, hop_size as nat, i);
    let before = last_pitch(estimates, i);
    let estimate = estimates[i];
    assert(0 <= i * hop_size) by (nonlinear_arith)
        requires
            0 <= i,
    ;
    assert(cut_out(audio@, i * hop_size, frame_size as int, frame));
    assert(math.is_yin(frame, sample_rate, f_min, f_max, frac(1, 10), before, estimate));
    assert(track@[i] == filled(estimates, unvoiced)[i]);
    if i > 0 {
        assert(track@[i - 1] == filled(estimates, unvoiced)[i - 1]);
    }
}

/// A track has an estimate for every hop whose frame the audio covers, and none after.
pub proof fn lemma_track_covers_the_audio<N: Scalar, A, Z, W>(
    math: PitchMath<A, Z, W>,
    audio: &[N],
    sample_rate: u32,
    frame_size: usize,
    hop_size: usize,
    f_min: N,
    f_max: N,
    unvoiced: N,
    track: Vec<N>,
    i: int,
) where A: Fn(&Vec<N>) -> Vec<N>, Z: Fn(N) -> usize, W: Fn(N) -> N
    requires
        call_ensures(
            PitchMath::<A, Z, W>::estimate_f0_track::<N>,
            (&math, audio, sample_rate, frame_size, hop_size, f_min, f_max, unvoiced),
            track,
        ),
        hop_size > 0,
        0 <= i,
    ensures
        i < track@.len() <==> i * hop_size + frame_size <= audio@.len(),
{
    let n = audio@.len() as int;
    let h = hop_size as int;
    if n >= frame_size {
        let k = (n - frame_size) / h;
        assert(i <= k <==> i * h <= n - frame_size) by (nonlinear_arith)
            requires
                k == (n - frame_size) / h,
                h > 0,
                0 <= i,
                n >= frame_size,
        ;
    } else {
        assert(i * h >= 0) by (nonlinear_arith)
            requires
                0 <= i,
                h > 0,
        ;
    }
}

/// A pitch is the rate over a delay that was found between those of the highest and the
/// lowest pitch asked for, in the autocorrelation of the very frame.
pub proof fn lemma_pitch_lies_in_range<N: Scalar, A, Z, W>(
    math: PitchMath<A, Z, W>,
    frame: &[N],
    sample_rate: u32,
    f_min: N,
    f_max: N,
    threshold: N,
    prev: Option<N>,
    hz: N,
) where A: Fn(&Vec<N>) -> Vec<N>, Z: Fn(N) -> usize, W: Fn(N) -> N
    requires
        call_ensures(
            PitchMath::<A, Z, W>::yin_frame_with_hint::<N>,
            (&math, frame, sample_rate, f_min, f_max, threshold, prev),
            Some(hz),
        ),
        lawful::<N>(),
    ensures
        frame@.len() >= 64,
        exists|shortest: usize, longest: usize, tau: usize, t: N, whole: Vec<N>, auto: Vec<N>|
            {
                &&& #[trigger] call_ensures(
                    math.trunc,
                    (count::<N>(sample_rate as nat).div_spec(f_max),),
                    shortest,
                )
                &&& #[trigger] call_ensures(
                    math.trunc,
                    (count::<N>(sample_rate as nat).div_spec(f_min),),
                    longest,
                )
                &&& shortest <= tau < longest
                &&& 2 <= tau
                &&& 2 * tau < frame@.len()
                &&& whole@ == frame@
                &&& #[trigger] call_ensures(math.autocorr, (&whole,), auto)
                &&& #[trigger] is_near(t, tau)
                &&& call_ensures(math.narrow, (count::<N>(sample_rate as nat).div_spec(t),), hz)
                &&& !le(t, num(0))
            },
{
    let sr = count::<N>(sample_rate as nat);
    let (lo, hi) = choose|lo: usize, hi: usize|
        {
            &&& #[trigger] is_range(frame@.len(), sr, f_min, f_max, math.trunc, lo, hi)
            &&& if hi <= lo {
                false
            } else {
                exists|hint: Option<(usize, usize)>, auto: Vec<N>|
                    {
                        &&& #[trigger] is_hint(prev, sr, lo, hi, math.trunc, hint)
                        &&& #[trigger] is_correlated(frame@, math.autocorr, auto)
                        &&& is_estimate(
                            frame@,
                            auto@,
                            sr,
                            lo,
                            hi,
                            hint,
                            threshold,
                            math.narrow,
                            Some(hz),
                        )
                    }
            }
        };
    let (hint, auto) = choose|hint: Option<(usize, usize)>, auto: Vec<N>|
        {
            &&& #[trigger] is_hint(prev, sr, lo, hi, math.trunc, hint)
            &&& #[trigger] is_correlated(frame@, math.autocorr, auto)
            &&& is_estimate(
                frame@,
                auto@,
                sr,
                lo,
                hi,
                hint,
                threshold,
                math.narrow,
                Some(hz),
            )
        };
    let cmnd = crate::f0::normalised(crate::f0::differences(frame@, auto@, (hi + 1) as nat));
    let found = choose|found: Option<usize>|
        {
            &&& #[trigger] is_chosen_dip(cmnd, lo as int, hi as int, threshold, hint, found)
            &&& match found {
                None => false,
                Some(t) => crate::f0::is_pitch(
                    cmnd,
                    t as int,
                    hi as int,
                    sr,
                    math.narrow,
                    Some(hz),
                ),
            }
        };
    let tau = found->0;
    let t = crate::f0::refined(cmnd, tau as int, hi as int);
    let (a, b) = choose|a: usize, b: usize|
        {
            &&& #[trigger] call_ensures(math.trunc, (sr.div_spec(f_max),), a)
            &&& #[trigger] call_ensures(math.trunc, (sr.div_spec(f_min),), b)
            &&& lo == if a < 2 {
                2
            } else {
                a
            }
            &&& hi == if b < frame@.len() / 2 {
                b as nat
            } else {
                frame@.len() / 2
            }
        };
    let whole = choose|v: Vec<N>| v@ == frame@ && #[trigger] call_ensures(
        math.autocorr,
        (&v,),
        auto,
    );
    if let Some((x, y)) = hint {
        lemma_hint_is_inside(prev, sr, lo, hi, math.trunc, hint);
    }
    assert(lo <= tau < hi);
    let whole_tau = count::<N>(tau as nat);
    if tau >= 1 && tau + 1 < hi {
        let s0 = cmnd[tau - 1];
        let s2 = cmnd[tau + 1];
        let denom = s0.add_spec(s2).sub_spec(num::<N>(2).mul_spec(cmnd[tau as int]));
        if !denom.eq_spec(&num(0)) {
            let x = frac::<N>(1, 2).mul_spec(s0.sub_spec(s2)).div_spec(denom);
            assert(t == whole_tau.add_spec(x));
        }
    }
    assert(is_near(t, tau));
}

/// `t` is `tau`, or `tau` and a correction.
pub open spec fn is_near<N: Scalar>(t: N, tau: usize) -> bool {
    t == count::<N>(tau as nat) || exists|x: N| t == #[trigger] count::<N>(tau as nat).add_spec(x)
}

proof fn lemma_hint_is_inside<N: Scalar, Z: Fn(N) -> usize>(
    prev: Option<N>,
    sr: N,
    lo: usize,
    hi: usize,
    trunc: Z,
    r: Option<(usize, usize)>,
)
    requires
        is_hint(prev, sr, lo, hi, trunc, r),
    ensures
        r matches Some((a, b)) ==> lo <= a && b <= hi,
{
}

/// A lag of that range lies below the threshold.
pub open spec fn has_dip<N: Scalar>(cmnd: Seq<N>, from: int, to: int, threshold: N) -> bool {
    exists|t: int| from <= t < to && lt(#[trigger] cmnd[t], threshold)
}

/// Lags from seven tenths to seven fifths of `t`, and no others than those of the whole range.
pub open spec fn are_near<N: Scalar, Z: Fn(N) -> usize>(
    t: usize,
    lo: usize,
    hi: usize,
    trunc: Z,
    from: usize,
    to: usize,
) -> bool {
    exists|a: usize, b: usize|
        {
            &&& #[trigger] call_ensures(
                trunc,
                (count::<N>(t as nat).mul_spec(num::<N>(7).div_spec(num(10))),),
                a,
            )
            &&& #[trigger] call_ensures(
                trunc,
                (count::<N>(t as nat).mul_spec(num::<N>(7).div_spec(num(5))),),
                b,
            )
            &&& from >= a && from >= lo && (from == a || from == lo)
            &&& to <= b && to <= hi && (to == b || to == hi)
        }
}

/// The dip `tau` lies near the lag of `hz` where there is one near it.
pub open spec fn is_tried_first<N: Scalar, Z: Fn(N) -> usize>(
    cmnd: Seq<N>,
    lo: usize,
    hi: usize,
    threshold: N,
    sr: N,
    hz: N,
    trunc: Z,
    tau: Option<usize>,
) -> bool {
    exists|t: usize, from: usize, to: usize|
        {
            &&& #[trigger] call_ensures(trunc, (sr.div_spec(hz),), t)
            &&& lo <= t <= hi ==> {
                &&& are_near::<N, Z>(t, lo, hi, trunc, from, to)
                &&& to > from + 1 && #[trigger] has_dip(cmnd, from as int, to as int, threshold)
                    ==> (tau matches Some(x) && from <= x < to)
            }
        }
}

/// Among the lags from `lo` to `hi` a dip is found exactly where there is one, near the lag of
/// the pitch before it where there is one near that; and there is no pitch without a dip.
pub open spec fn is_searched<N: Scalar, A, Z, W>(
    math: PitchMath<A, Z, W>,
    frame: Seq<N>,
    lo: usize,
    hi: usize,
    threshold: N,
    sr: N,
    prev: Option<N>,
    r: Option<N>,
) -> bool where A: Fn(&Vec<N>) -> Vec<N>, Z: Fn(N) -> usize, W: Fn(N) -> N {
    exists|auto: Vec<N>, cmnd: Seq<N>, tau: Option<usize>|
        {
            &&& #[trigger] is_correlated(frame, math.autocorr, auto)
            &&& cmnd == crate::f0::normalised(
                crate::f0::differences(frame, auto@, (hi + 1) as nat),
            )
            &&& tau is Some <==> #[trigger] has_dip(cmnd, lo as int, hi as int, threshold)
            &&& tau is None ==> r is None
            &&& #[trigger] is_led(cmnd, lo, hi, threshold, sr, prev, math.trunc, tau)
        }
}

/// A pitch before, if it is one, is tried first.
pub open spec fn is_led<N: Scalar, Z: Fn(N) -> usize>(
    cmnd: Seq<N>,
    lo: usize,
    hi: usize,
    threshold: N,
    sr: N,
    prev: Option<N>,
    trunc: Z,
    tau: Option<usize>,
) -> bool {
    prev matches Some(hz) ==> hz.sub_spec(hz).eq_spec(&num(0)) && !le(hz, num(0))
        ==> is_tried_first(cmnd, lo, hi, threshold, sr, hz, trunc, tau)
}

proof fn lemma_found_has_dip<N: Scalar>(
    cmnd: Seq<N>,
    from: int,
    to: int,
    threshold: N,
    tau: Option<usize>,
)
    requires
        is_found(cmnd, from, to, threshold, tau),
    ensures
        tau is Some <==> has_dip(cmnd, from, to, threshold),
        tau matches Some(x) ==> from <= x < to,
{
    if let Some(x) = tau {
        let first = choose|first: int| #[trigger]
            is_dip(cmnd, from, to, threshold, first, x as int);
        assert(lt(cmnd[first], threshold));
    }
}

/// A pitch that was heard before is looked for first: where a dip lies near its lag, the dip that
/// is taken lies there too. But it hides nothing: a dip is found exactly where there is one among
/// all lags, and there is no pitch without one.
pub proof fn lemma_hint_is_tried_first_and_hides_nothing<N: Scalar, A, Z, W>(
    math: PitchMath<A, Z, W>,
    frame: &[N],
    sample_rate: u32,
    f_min: N,
    f_max: N,
    threshold: N,
    prev: Option<N>,
    r: Option<N>,
) where A: Fn(&Vec<N>) -> Vec<N>, Z: Fn(N) -> usize, W: Fn(N) -> N
    requires
        call_ensures(
            PitchMath::<A, Z, W>::yin_frame_with_hint::<N>,
            (&math, frame, sample_rate, f_min, f_max, threshold, prev),
            r,
        ),
        lawful::<N>(),
        frame@.len() >= 64,
    ensures
        exists|lo: usize, hi: usize|
            {
                &&& #[trigger] is_range(
                    frame@.len(),
                    count::<N>(sample_rate as nat),
                    f_min,
                    f_max,
                    math.trunc,
                    lo,
                    hi,
                )
                &&& hi <= lo ==> r is None
                &&& hi > lo ==> is_searched(
                    math,
                    frame@,
                    lo,
                    hi,
                    threshold,
                    count::<N>(sample_rate as nat),
                    prev,
                    r,
                )
            },
{
    let sr = count::<N>(sample_rate as nat);
    let (lo, hi) = choose|lo: usize, hi: usize|
        {
            &&& #[trigger] is_range(frame@.len(), sr, f_min, f_max, math.trunc, lo, hi)
            &&& if hi <= lo {
                r is None
            } else {
                exists|hint: Option<(usize, usize)>, auto: Vec<N>|
                    {
                        &&& #[trigger] is_hint(prev, sr, lo, hi, math.trunc, hint)
                        &&& #[trigger] is_correlated(frame@, math.autocorr, auto)
                        &&& is_estimate(
                            frame@,
                            auto@,
                            sr,
                            lo,
                            hi,
                            hint,
                            threshold,
                            math.narrow,
                            r,
                        )
                    }
            }
        };
    if hi > lo {
        let (hint, auto) = choose|hint: Option<(usize, usize)>, auto: Vec<N>|
            {
                &&& #[trigger] is_hint(prev, sr, lo, hi, math.trunc, hint)
                &&& #[trigger] is_correlated(frame@, math.autocorr, auto)
                &&& is_estimate(
                    frame@,
                    auto@,
                    sr,
                    lo,
                    hi,
                    hint,
                    threshold,
                    math.narrow,
                    r,
                )
            };
        let cmnd = crate::f0::normalised(crate::f0::differences(frame@, auto@, (hi + 1) as nat));
        let tau = choose|tau: Option<usize>|
            {
                &&& #[trigger] is_chosen_dip(cmnd, lo as int, hi as int, threshold, hint, tau)
                &&& tau is None ==> r is None
            };
        lemma_searched(cmnd, lo, hi, threshold, sr, prev, math.trunc, hint, tau);
        assert(is_led(cmnd, lo, hi, threshold, sr, prev, math.trunc, tau));
        assert(is_correlated(frame@, math.autocorr, auto));
        assert(has_dip(cmnd, lo as int, hi as int, threshold) == (tau is Some));
    }
}

proof fn lemma_searched<N: Scalar, Z: Fn(N) -> usize>(
    cmnd: Seq<N>,
    lo: usize,
    hi: usize,
    threshold: N,
    sr: N,
    prev: Option<N>,
    trunc: Z,
    hint: Option<(usize, usize)>,
    tau: Option<usize>,
)
    requires
        is_hint(prev, sr, lo, hi, trunc, hint),
        is_chosen_dip(cmnd, lo as int, hi as int, threshold, hint, tau),
    ensures
        tau is Some <==> has_dip(cmnd, lo as int, hi as int, threshold),
        is_led(cmnd, lo, hi, threshold, sr, prev, trunc, tau),
{
    if hint is None {
        lemma_found_has_dip(cmnd, lo as int, hi as int, threshold, tau);
    }
    if let Some(hz) = prev {
        if hz.sub_spec(hz).eq_spec(&num(0)) && !le(hz, num(0)) {
            let t = choose|t: usize|
                {
                    &&& #[trigger] call_ensures(trunc, (sr.div_spec(hz),), t)
                    &&& if t < lo || t > hi {
                        hint is None
                    } else {
                        crate::f0::is_narrowed::<N, Z>(t, lo, hi, trunc, hint)
                    }
                };
            if lo <= t <= hi {
                let (x, y) = choose|x: usize, y: usize|
                    {
                        &&& #[trigger] call_ensures(
                            trunc,
                            (count::<N>(t as nat).mul_spec(frac(7, 10)),),
                            x,
                        )
                        &&& #[trigger] call_ensures(
                            trunc,
                            (count::<N>(t as nat).mul_spec(frac(7, 5)),),
                            y,
                        )
                        &&& hint == {
                            let from = if x > lo {
                                x
                            } else {
                                lo
                            };
                            let to = if y < hi {
                                y
                            } else {
                                hi
                            };
                            if to > from + 1 {
                                Some((from, to))
                            } else {
                                None
                            }
                        }
                    };
                let from: usize = if x > lo {
                    x
                } else {
                    lo
                };
                let to: usize = if y < hi {
                    y
                } else {
                    hi
                };
                assert(are_near::<N, Z>(t, lo, hi, trunc, from, to));
                if hint is Some {
                    if is_found(cmnd, from as int, to as int, threshold, tau) {
                        lemma_found_has_dip(cmnd, from as int, to as int, threshold, tau);
                    } else {
                        lemma_found_has_dip(cmnd, from as int, to as int, threshold, None);
                        lemma_found_has_dip(cmnd, lo as int, hi as int, threshold, tau);
                    }
                }
                if has_dip(cmnd, from as int, to as int, threshold) {
                    let u = choose|u: int| from <= u < to && lt(#[trigger] cmnd[u], threshold);
                    assert(lo <= u < hi && lt(cmnd[u], threshold));
                }
                assert(is_tried_first(cmnd, lo, hi, threshold, sr, hz, trunc, tau));
            } else {
                assert(has_dip(cmnd, lo as int, hi as int, threshold) == (tau is Some));
                assert(is_tried_first(cmnd, lo, hi, threshold, sr, hz, trunc, tau));
            }
        }
    }
}

/// The dip that is found is the bottom of the first descent below the threshold: nothing
/// before it is below, and it goes on only up. Nothing is found exactly where nothing is
/// below the threshold.
pub proof fn lemma_dip_is_the_first<N: Scalar>(
    cmnd: &[N],
    tau_min: usize,
    tau_max: usize,
    threshold: N,
    r: Option<usize>,
)
    requires
        call_ensures(find_tau_dip::<N>, (cmnd, tau_min, tau_max, threshold), r),
        lawful::<N>(),
    ensures
        r is None <==> forall|t: int|
            tau_min <= t < tau_max ==> !lt(#[trigger] cmnd@[t], threshold),
        r matches Some(tau) ==> {
            &&& tau_min <= tau < tau_max
            &&& tau + 1 < tau_max ==> !lt(cmnd@[tau + 1], cmnd@[tau as int])
            &&& forall|t: int|
                tau_min <= t < tau && lt(#[trigger] cmnd@[t], threshold) ==> lt(
                    cmnd@[t + 1],
                    cmnd@[t],
                )
        },
{
    if let Some(tau) = r {
        assert(is_bottom(cmnd@, tau_min as int, tau_max as int, threshold, tau as int));
        let first = choose|first: int| #[trigger]
            is_dip(cmnd@, tau_min as int, tau_max as int, threshold, first, tau as int);
        assert(lt(cmnd@[first], threshold));
        assert forall|t: int| tau_min <= t < tau && lt(#[trigger] cmnd@[t], threshold) implies lt(
            cmnd@[t + 1],
            cmnd@[t],
        ) by {
            assert(t >= first);
            let u = t + 1;
            assert(lt(cmnd@[u], cmnd@[u - 1]));
        }
    }
}

/// Each normalised difference times the sum of the differences up to its delay is the
/// difference times the delay; it is one at no delay and where that sum is not positive.
pub proof fn lemma_normalised_by_running_mean<N: Scalar>(diff: &[N], r: Vec<N>, t: int)
    requires
        call_ensures(cumulative_mean_normalized::<N>, (diff,), r),
        lawful::<N>(),
        0 <= t < diff@.len(),
        forall|x: N, y: N| gt(y, num(0)) ==> #[trigger] x.div_spec(y).mul_spec(y) == x,
    ensures
        r@.len() == diff@.len(),
        t == 0 ==> r@[t] == num::<N>(1),
        t > 0 ==> exists|s: N|
            {
                &&& #[trigger] adds_up(diff@.subrange(1, t + 1), s)
                &&& !gt(s, num(0)) ==> r@[t] == num::<N>(1)
                &&& gt(s, num(0)) ==> r@[t].mul_spec(s) == diff@[t].mul_spec(count(t as nat))
            },
{
    if t > 0 {
        let p = Seq::new((t + 1) as nat, |i: int| running(diff@, i));
        let terms = diff@.subrange(1, t + 1);
        assert(are_running_sums(terms, p)) by {
            assert forall|i: int| 0 <= i < terms.len() implies p[i + 1] == p[i].add_spec(
                #[trigger] terms[i],
            ) by {
                assert(terms[i] == diff@[i + 1]);
            }
        }
        let s = running(diff@, t);
        assert(adds_up(terms, s));
        assert(r@[t] == crate::f0::normalised(diff@)[t]);
    }
}

/// The difference function of whole-number samples, given their autocorrelation, is the
/// sum of the squared differences of samples that lie the delay apart.
pub proof fn lemma_difference_compares_the_frame_with_itself(
    frame: &[u64],
    auto: Vec<u64>,
    max_tau: usize,
    r: Vec<u64>,
    tau: int,
)
    requires
        call_ensures(difference::<u64>, (frame, &auto, max_tau), r),
        is_pcm(frame@),
        1 <= tau < max_tau,
        tau < frame@.len() <= auto@.len(),
        auto@[tau] == correlation(frame@, tau, (frame@.len() - tau) as nat),
    ensures
        r@[tau] == squared_difference(frame@, tau, (frame@.len() - tau) as nat),
{
    lemma_integers_have_units();
    lemma_difference_is_squared_difference(frame@, auto@, tau);
    assert(r@[tau] == crate::f0::differences(frame@, auto@, max_tau as nat)[tau]);
}

/// A dip between equal neighbours is not moved; any other is moved by half the
/// difference of its neighbours over how sharply it is bent. The pitch is the rate over
/// that delay.
pub proof fn lemma_refined_at_the_vertex<N: Scalar, W: Fn(N) -> N>(
    cmnd: &[N],
    tau: usize,
    tau_max: usize,
    sr: N,
    narrow: &W,
    r: Option<N>,
)
    requires
        call_ensures(parabolic_refine::<N, W>, (cmnd, tau, tau_max, sr, narrow), r),
        lawful::<N>(),
        1 <= tau,
        tau + 1 < tau_max <= cmnd@.len(),
        !le(count::<N>(tau as nat), num(0)),
        has_units::<N>(),
        forall|x: N|
            !x.eq_spec(&num(0)) ==> #[trigger] num::<N>(0).div_spec(x) == num::<N>(0),
        cmnd@[tau - 1] == cmnd@[tau + 1],
    ensures
        r matches Some(hz) && call_ensures(*narrow, (sr.div_spec(count(tau as nat)),), hz),
{
}

/// The statistics of a track are the mean of its finite values and the root of their
/// mean squared distance from it; zero for both where there are none.
pub proof fn lemma_statistics_are_mean_and_deviation<N: Scalar, Q: Fn(N) -> N>(
    track: &[N],
    sqrt: &Q,
    r: (N, N),
)
    requires
        call_ensures(f0_statistics::<N, Q>, (track, sqrt), r),
        lawful::<N>(),
    ensures
        exists|v: Seq<N>, t: N, q: N|
            {
                &&& v == track@.filter(|x: N| x.sub_spec(x).eq_spec(&num(0)))
                &&& #[trigger] adds_up(v, t)
                &&& #[trigger] adds_up(squares_about(v, r.0), q)
                &&& v.len() == 0 ==> r == (num::<N>(0), num::<N>(0))
                &&& v.len() > 0 ==> r.0 == t.div_spec(count(v.len()))
                &&& v.len() > 0 ==> call_ensures(*sqrt, (q.div_spec(count(v.len())),), r.1)
            },
{
    let v = crate::f0::voiced(track@);
    assert(v =~= track@.filter(|x: N| x.sub_spec(x).eq_spec(&num(0)))) by {
        lemma_same_filter(
            track@,
            |x: N| crate::gating::finite(x),
            |x: N| x.sub_spec(x).eq_spec(&num(0)),
        );
    }
    let t = sum(v, v.len());
    lemma_sum_adds_up(v);
    let d = spread(v, r.0);
    lemma_sum_adds_up(d);
    assert(d =~= squares_about(v, r.0));
    assert(adds_up(v, t) && adds_up(squares_about(v, r.0), sum(d, d.len())));
}

proof fn lemma_same_filter<N>(s: Seq<N>, f: spec_fn(N) -> bool, g: spec_fn(N) -> bool)
    requires
        forall|x: N| #[trigger] f(x) == g(x),
    ensures
        s.filter(f) == s.filter(g),
    decreases s.len(),
{
    reveal(Seq::filter);
    if s.len() > 0 {
        lemma_same_filter(s.drop_last(), f, g);
        assert(f(s.last()) == g(s.last()));
    }
}

} // verus!
