//! Pitch estimation after YIN: the squared-difference function from an
//! autocorrelation, its cumulative-mean normalisation, the first dip below a
//! threshold, and parabolic refinement. The autocorrelation is a parameter.
use crate::gating::{finite, is_finite};
use crate::scalar::{
    count, dot, frac, fraction, from_count, gt, lawful, le, lt, num, pick, pick_larger, sum, sum_of,
    total, Scalar,
};
use crate::tse_stage::append_samples;
use vstd::prelude::*;
use vstd::std_specs::cmp::PartialEqSpec;
use vstd::std_specs::ops::{AddSpec, DivSpec, MulSpec, SubSpec};

verus! {

/// Lower bound of voiced pitch in hertz.
pub const DEFAULT_F_MIN: u16 = 50;

/// Upper bound of voiced pitch in hertz.
pub const DEFAULT_F_MAX: u16 = 500;

/// Frames shorter than this have no pitch.
pub const MIN_FRAME: usize = 64;

/// The aperiodicity threshold that is used unless another is given: one tenth.
pub fn default_threshold<N: Scalar>() -> (r: N)
    requires
        total::<N>(),
    ensures
        lawful::<N>() ==> r == frac::<N>(1, 10),
{
    fraction(1, 10)
}

// ---------------------------------------------------------------------
// Difference function
// ---------------------------------------------------------------------
/// The squared difference of a frame and itself `tau` samples later, from the
/// energies of both parts and their correlation; never below zero.
pub open spec fn difference_at<N: Scalar>(frame: Seq<N>, auto: Seq<N>, tau: int) -> N {
    let n = frame.len();
    let left = dot(frame, frame, (n - tau) as nat);
    let right = dot(frame, frame, n).sub_spec(dot(frame, frame, tau as nat));
    pick(left.add_spec(right).sub_spec(num::<N>(2).mul_spec(auto[tau])), num(0))
}

/// The difference function up to `max_tau`: nothing at no delay and where the
/// frame does not reach.
pub open spec fn differences<N: Scalar>(frame: Seq<N>, auto: Seq<N>, max_tau: nat) -> Seq<N> {
    Seq::new(
        max_tau,
        |t: int|
            if 1 <= t < frame.len() {
                difference_at(frame, auto, t)
            } else {
                num(0)
            },
    )
}

/// The squares of a frame summed up to each sample.
fn energies<N: Scalar>(frame: &[N]) -> (r: Vec<N>)
    requires
        total::<N>(),
    ensures
        r@.len() == frame@.len() + 1,
        lawful::<N>() ==> forall|k: int|
            0 <= k <= frame@.len() ==> #[trigger] r@[k] == dot(frame@, frame@, k as nat),
{
    let mut out: Vec<N> = Vec::new();
    let mut acc: N = N::from(0u16);
    out.push(acc);
    let mut i: usize = 0;
    while i < frame.len()
        invariant
            total::<N>(),
            i <= frame@.len(),
            out@.len() == i + 1,
            lawful::<N>() ==> acc == dot(frame@, frame@, i as nat),
            lawful::<N>() ==> forall|k: int|
                0 <= k <= i ==> #[trigger] out@[k] == dot(frame@, frame@, k as nat),
        decreases frame@.len() - i,
    {
        let x: N = frame[i];
        acc = acc + x * x;
        out.push(acc);
        i = i + 1;
    }
    out
}

/// Computes [`differences`] from the autocorrelation of the frame.
pub fn difference<N: Scalar>(frame: &[N], autocorr: &Vec<N>, max_tau: usize) -> (r: Vec<N>)
    requires
        total::<N>(),
        autocorr@.len() >= frame@.len(),
    ensures
        r@.len() == max_tau,
        lawful::<N>() ==> r@ =~= differences(frame@, autocorr@, max_tau as nat),
{
    let zero: N = N::from(0u16);
    let two: N = N::from(2u16);
    let n: usize = frame.len();
    let energy: Vec<N> = energies(frame);
    let mut diff: Vec<N> = Vec::new();
    let mut tau: usize = 0;
    while tau < max_tau
        invariant
            total::<N>(),
            tau <= max_tau,
            n == frame@.len(),
            energy@.len() == n + 1,
            autocorr@.len() >= n,
            diff@.len() == tau,
            lawful::<N>() ==> zero == num::<N>(0) && two == num::<N>(2),
            lawful::<N>() ==> forall|k: int|
                0 <= k <= n ==> #[trigger] energy@[k] == dot(frame@, frame@, k as nat),
            lawful::<N>() ==> forall|t: int|
                0 <= t < tau ==> #[trigger] diff@[t] == differences(
                    frame@,
                    autocorr@,
                    max_tau as nat,
                )[t],
        decreases max_tau - tau,
    {
        if tau >= 1 && tau < n {
            let left: N = energy[n - tau];
            let right: N = energy[n] - energy[tau];
            let raw: N = left + right - two * autocorr[tau];
            diff.push(pick_larger(raw, zero));
        } else {
            diff.push(zero);
        }
        tau = tau + 1;
    }
    diff
}

// ---------------------------------------------------------------------
// Normalisation
// ---------------------------------------------------------------------
/// The sum of the differences from the first delay to `tau`.
pub open spec fn running<N: Scalar>(diff: Seq<N>, tau: int) -> N
    decreases tau,
{
    if tau <= 0 {
        num(0)
    } else {
        running(diff, tau - 1).add_spec(diff[tau])
    }
}

/// Each difference relative to the mean of those up to it; one where there is
/// nothing to compare with.
pub open spec fn normalised<N: Scalar>(diff: Seq<N>) -> Seq<N> {
    Seq::new(
        diff.len(),
        |t: int|
            if t > 0 && gt(running(diff, t), num(0)) {
                diff[t].mul_spec(count(t as nat)).div_spec(running(diff, t))
            } else {
                num(1)
            },
    )
}

/// Computes [`normalised`].
pub fn cumulative_mean_normalized<N: Scalar>(diff: &[N]) -> (r: Vec<N>)
    requires
        total::<N>(),
    ensures
        r@.len() == diff@.len(),
        lawful::<N>() ==> r@ =~= normalised(diff@),
{
    let zero: N = N::from(0u16);
    let one: N = N::from(1u16);
    let mut cmnd: Vec<N> = Vec::new();
    if diff.len() == 0 {
        return cmnd;
    }
    cmnd.push(one);
    let mut acc: N = zero;
    let mut tau: usize = 1;
    while tau < diff.len()
        invariant
            total::<N>(),
            1 <= tau <= diff@.len(),
            cmnd@.len() == tau,
            lawful::<N>() ==> zero == num::<N>(0) && one == num::<N>(1),
            lawful::<N>() ==> acc == running(diff@, tau - 1),
            lawful::<N>() ==> forall|t: int|
                0 <= t < tau ==> #[trigger] cmnd@[t] == normalised(diff@)[t],
        decreases diff@.len() - tau,
    {
        let d: N = diff[tau];
        acc = acc + d;
        assert(lawful::<N>() ==> acc == running(diff@, tau as int));
        if acc > zero {
            cmnd.push(d * from_count::<N>(tau as u64) / acc);
        } else {
            cmnd.push(one);
        }
        tau = tau + 1;
    }
    cmnd
}

// ---------------------------------------------------------------------
// The dip
// ---------------------------------------------------------------------
/// `first` is the first delay of the range that lies below the threshold, and
/// `tau` the end of the descent that starts there.
pub open spec fn is_dip<N: Scalar>(
    cmnd: Seq<N>,
    tau_min: int,
    tau_max: int,
    threshold: N,
    first: int,
    tau: int,
) -> bool {
    &&& tau_min <= first <= tau < tau_max
    &&& forall|t: int| tau_min <= t < first ==> !lt(#[trigger] cmnd[t], threshold)
    &&& lt(cmnd[first], threshold)
    &&& forall|t: int| first < t <= tau ==> lt(#[trigger] cmnd[t], cmnd[t - 1])
    &&& tau + 1 < tau_max ==> !lt(cmnd[tau + 1], cmnd[tau])
}

/// `tau` is the bottom of the first dip of the range.
pub open spec fn is_bottom<N: Scalar>(
    cmnd: Seq<N>,
    tau_min: int,
    tau_max: int,
    threshold: N,
    tau: int,
) -> bool {
    exists|first: int| #[trigger] is_dip(cmnd, tau_min, tau_max, threshold, first, tau)
}

/// What [`find_tau_dip`] returns: the bottom of the first dip below the
/// threshold, or nothing where no delay of the range lies below it.
pub open spec fn is_found<N: Scalar>(
    cmnd: Seq<N>,
    tau_min: int,
    tau_max: int,
    threshold: N,
    r: Option<usize>,
) -> bool {
    match r {
        Some(tau) => is_bottom(cmnd, tau_min, tau_max, threshold, tau as int),
        None => forall|t: int| tau_min <= t < tau_max ==> !lt(#[trigger] cmnd[t], threshold),
    }
}

/// Finds the bottom of the first dip below the threshold.
pub fn find_tau_dip<N: Scalar>(cmnd: &[N], tau_min: usize, tau_max: usize, threshold: N) -> (r:
    Option<usize>)
    requires
        total::<N>() || lawful::<N>(),
        tau_max <= cmnd@.len(),
    ensures
        r matches Some(tau) ==> tau_min <= tau < tau_max,
        lawful::<N>() ==> is_found(cmnd@, tau_min as int, tau_max as int, threshold, r),
{
    let mut tau: usize = tau_min;
    while tau < tau_max
        invariant
            total::<N>() || lawful::<N>(),
            tau_min <= tau,
            tau_max <= cmnd@.len(),
            lawful::<N>() ==> forall|t: int|
                tau_min <= t < tau ==> !lt(#[trigger] cmnd@[t], threshold),
        decreases tau_max - tau,
    {
        if cmnd[tau] < threshold {
            let ghost first = tau as int;
            while tau + 1 < tau_max && cmnd[tau + 1] < cmnd[tau]
                invariant
                    total::<N>() || lawful::<N>(),
                    tau_min <= first <= tau < tau_max <= cmnd@.len(),
                    lawful::<N>() ==> forall|t: int|
                        tau_min <= t < first ==> !lt(#[trigger] cmnd@[t], threshold),
                    lawful::<N>() ==> lt(cmnd@[first], threshold),
                    lawful::<N>() ==> forall|t: int|
                        first < t <= tau ==> lt(#[trigger] cmnd@[t], cmnd@[t - 1]),
                decreases tau_max - tau,
            {
                tau = tau + 1;
            }
            proof {
                let lo = tau_min as int;
                let hi = tau_max as int;
                if lawful::<N>() {
                    assert(is_dip(cmnd@, lo, hi, threshold, first, tau as int));
                    assert(is_bottom(cmnd@, lo, hi, threshold, tau as int));
                }
            }
            return Some(tau);
        }
        tau = tau + 1;
    }
    None
}

/// The delay refined by the parabola through the dip and its neighbours, where
/// it has two and they are not in line.
pub open spec fn refined<N: Scalar>(cmnd: Seq<N>, tau: int, tau_max: int) -> N {
    let whole = count::<N>(tau as nat);
    if tau >= 1 && tau + 1 < tau_max {
        let s0 = cmnd[tau - 1];
        let s2 = cmnd[tau + 1];
        let denom = s0.add_spec(s2).sub_spec(num::<N>(2).mul_spec(cmnd[tau]));
        if denom.eq_spec(&num(0)) {
            whole
        } else {
            whole.add_spec(frac::<N>(1, 2).mul_spec(s0.sub_spec(s2)).div_spec(denom))
        }
    } else {
        whole
    }
}

/// The pitch at a dip: the sample rate over the refined delay; none where that
/// is not positive. `narrow` rounds to the precision of results.
pub open spec fn is_pitch<N: Scalar, W: Fn(N) -> N>(
    cmnd: Seq<N>,
    tau: int,
    tau_max: int,
    sr: N,
    narrow: W,
    r: Option<N>,
) -> bool {
    let t = refined(cmnd, tau, tau_max);
    if le(t, num(0)) {
        r is None
    } else {
        r matches Some(hz) && call_ensures(narrow, (sr.div_spec(t),), hz)
    }
}

/// The pitch at a dip.
pub fn parabolic_refine<N: Scalar, W: Fn(N) -> N>(
    cmnd: &[N],
    found_tau: usize,
    tau_max: usize,
    sr: N,
    narrow: &W,
) -> (r: Option<N>)
    requires
        total::<N>(),
        found_tau < tau_max <= cmnd@.len(),
        forall|x: N| call_requires(*narrow, (x,)),
    ensures
        lawful::<N>() ==> is_pitch(cmnd@, found_tau as int, tau_max as int, sr, *narrow, r),
{
    let zero: N = N::from(0u16);
    let whole: N = from_count::<N>(found_tau as u64);
    let tau: N = if found_tau >= 1 && found_tau + 1 < tau_max {
        let s0: N = cmnd[found_tau - 1];
        let s1: N = cmnd[found_tau];
        let s2: N = cmnd[found_tau + 1];
        let denom: N = s0 + s2 - N::from(2u16) * s1;
        if denom == zero {
            whole
        } else {
            whole + fraction::<N>(1, 2) * (s0 - s2) / denom
        }
    } else {
        whole
    };
    if tau <= zero {
        return None;
    }
    Some(narrow(sr / tau))
}

// ---------------------------------------------------------------------
// One frame
// ---------------------------------------------------------------------
/// What the estimator does not compute itself.
pub struct PitchMath<A, Z, W> {
    /// Autocorrelation of a frame, one value per delay.
    pub autocorr: A,
    /// A number without its fraction, zero for a negative one.
    pub trunc: Z,
    /// Rounds to the precision of results.
    pub narrow: W,
}

/// The delays that a voiced pitch can have: from that of the highest pitch, at
/// least two, to that of the lowest, at most half a frame.
pub open spec fn is_range<N: Scalar, Z: Fn(N) -> usize>(
    len: nat,
    sr: N,
    f_min: N,
    f_max: N,
    trunc: Z,
    lo: usize,
    hi: usize,
) -> bool {
    exists|a: usize, b: usize|
        {
            &&& #[trigger] call_ensures(trunc, (sr.div_spec(f_max),), a)
            &&& #[trigger] call_ensures(trunc, (sr.div_spec(f_min),), b)
            &&& lo == if a < 2 {
                2
            } else {
                a
            }
            &&& hi == if b < len / 2 {
                b as nat
            } else {
                len / 2
            }
        }
}

/// The delays around that of an earlier pitch: from seven tenths to seven
/// fifths of it, within the full range; none unless the earlier pitch lies in
/// the range and two delays are left.
pub open spec fn is_hint<N: Scalar, Z: Fn(N) -> usize>(
    prev: Option<N>,
    sr: N,
    lo: usize,
    hi: usize,
    trunc: Z,
    r: Option<(usize, usize)>,
) -> bool {
    match prev {
        None => r is None,
        Some(hz) => if !finite(hz) || le(hz, num(0)) {
            r is None
        } else {
            exists|t: usize|
                {
                    &&& #[trigger] call_ensures(trunc, (sr.div_spec(hz),), t)
                    &&& if t < lo || t > hi {
                        r is None
                    } else {
                        is_narrowed(t, lo, hi, trunc, r)
                    }
                }
        },
    }
}

/// The delays around `t`.
pub open spec fn is_narrowed<N: Scalar, Z: Fn(N) -> usize>(
    t: usize,
    lo: usize,
    hi: usize,
    trunc: Z,
    r: Option<(usize, usize)>,
) -> bool {
    exists|a: usize, b: usize|
        {
            &&& #[trigger] call_ensures(trunc, (count::<N>(t as nat).mul_spec(frac(7, 10)),), a)
            &&& #[trigger] call_ensures(trunc, (count::<N>(t as nat).mul_spec(frac(7, 5)),), b)
            &&& r == {
                let from = if a > lo {
                    a
                } else {
                    lo
                };
                let to = if b < hi {
                    b
                } else {
                    hi
                };
                if to > from + 1 {
                    Some((from, to))
                } else {
                    None
                }
            }
        }
}

/// The dip that is used: one in the hinted range if there is one, otherwise one
/// in the full range.
pub open spec fn is_chosen_dip<N: Scalar>(
    cmnd: Seq<N>,
    lo: int,
    hi: int,
    threshold: N,
    hint: Option<(usize, usize)>,
    tau: Option<usize>,
) -> bool {
    match hint {
        Some((a, b)) => {
            ||| tau is Some && is_found(cmnd, a as int, b as int, threshold, tau)
            ||| is_found(cmnd, a as int, b as int, threshold, None) && is_found(
                cmnd,
                lo,
                hi,
                threshold,
                tau,
            )
        },
        None => is_found(cmnd, lo, hi, threshold, tau),
    }
}

/// The estimate from an autocorrelation.
pub open spec fn is_estimate<N: Scalar, W: Fn(N) -> N>(
    frame: Seq<N>,
    auto: Seq<N>,
    sr: N,
    lo: usize,
    hi: usize,
    hint: Option<(usize, usize)>,
    threshold: N,
    narrow: W,
    r: Option<N>,
) -> bool {
    let cmnd = normalised(differences(frame, auto, (hi + 1) as nat));
    exists|tau: Option<usize>|
        {
            &&& #[trigger] is_chosen_dip(cmnd, lo as int, hi as int, threshold, hint, tau)
            &&& match tau {
                None => r is None,
                Some(t) => is_pitch(cmnd, t as int, hi as int, sr, narrow, r),
            }
        }
}

/// The autocorrelation of a frame was computed.
pub open spec fn is_correlated<N, A: Fn(&Vec<N>) -> Vec<N>>(
    frame: Seq<N>,
    autocorr: A,
    auto: Vec<N>,
) -> bool {
    exists|v: Vec<N>| v@ == frame && #[trigger] call_ensures(autocorr, (&v,), auto)
}

impl<A, Z, W> PitchMath<A, Z, W> {
    /// Everything can be called, and autocorrelations cover their frame.
    pub open spec fn ready<N>(&self) -> bool where
        A: Fn(&Vec<N>) -> Vec<N>,
        Z: Fn(N) -> usize,
        W: Fn(N) -> N,
     {
        &&& forall|v: &Vec<N>| call_requires(self.autocorr, (v,))
        &&& forall|x: N| call_requires(self.trunc, (x,))
        &&& forall|x: N| call_requires(self.narrow, (x,))
        &&& forall|v: &Vec<N>, auto: Vec<N>| #[trigger]
            call_ensures(self.autocorr, (v,), auto) ==> auto@.len() >= v@.len()
    }

    /// What [`PitchMath::yin_frame_with_hint`] returns.
    pub open spec fn is_yin<N: Scalar>(
        &self,
        frame: Seq<N>,
        sample_rate: u32,
        f_min: N,
        f_max: N,
        threshold: N,
        prev: Option<N>,
        r: Option<N>,
    ) -> bool where A: Fn(&Vec<N>) -> Vec<N>, Z: Fn(N) -> usize, W: Fn(N) -> N {
        let sr = count::<N>(sample_rate as nat);
        if frame.len() < MIN_FRAME {
            r is None
        } else {
            exists|lo: usize, hi: usize|
                {
                    &&& #[trigger] is_range(frame.len(), sr, f_min, f_max, self.trunc, lo, hi)
                    &&& if hi <= lo {
                        r is None
                    } else {
                        exists|hint: Option<(usize, usize)>, auto: Vec<N>|
                            {
                                &&& #[trigger] is_hint(prev, sr, lo, hi, self.trunc, hint)
                                &&& #[trigger] is_correlated(frame, self.autocorr, auto)
                                &&& is_estimate(
                                    frame,
                                    auto@,
                                    sr,
                                    lo,
                                    hi,
                                    hint,
                                    threshold,
                                    self.narrow,
                                    r,
                                )
                            }
                    }
                }
        }
    }

    fn hint_range<N: Scalar>(&self, prev: Option<N>, sr: N, lo: usize, hi: usize) -> (r: Option<
        (usize, usize),
    >) where A: Fn(&Vec<N>) -> Vec<N>, Z: Fn(N) -> usize, W: Fn(N) -> N
        requires
            self.ready::<N>(),
            total::<N>(),
        ensures
            r matches Some((a, b)) ==> lo <= a && b <= hi,
            lawful::<N>() ==> is_hint(prev, sr, lo, hi, self.trunc, r),
    {
        let hz: N = match prev {
            None => {
                return None;
            },
            Some(hz) => hz,
        };
        let zero: N = N::from(0u16);
        if !is_finite(hz) || hz <= zero {
            return None;
        }
        let t: usize = (self.trunc)(sr / hz);
        assert(lawful::<N>() ==> call_ensures(self.trunc, (sr.div_spec(hz),), t));
        if t < lo || t > hi {
            return None;
        }
        let whole: N = from_count::<N>(t as u64);
        let a: usize = (self.trunc)(whole * fraction::<N>(7, 10));
        let b: usize = (self.trunc)(whole * fraction::<N>(7, 5));
        let from: usize = if a > lo {
            a
        } else {
            lo
        };
        let to: usize = if b < hi {
            b
        } else {
            hi
        };
        let r: Option<(usize, usize)> = if to > from && to - from > 1 {
            Some((from, to))
        } else {
            None
        };
        proof {
            if lawful::<N>() {
                assert(call_ensures(
                    self.trunc,
                    (count::<N>(t as nat).mul_spec(frac(7, 10)),),
                    a,
                ));
                assert(call_ensures(
                    self.trunc,
                    (count::<N>(t as nat).mul_spec(frac(7, 5)),),
                    b,
                ));
                assert(is_narrowed::<N, Z>(t, lo, hi, self.trunc, r));
            }
        }
        r
    }

    /// The pitch of a frame; nothing for a frame without one. Where an earlier
    /// pitch is given, delays around it are tried first.
    pub fn yin_frame_with_hint<N: Scalar>(
        &self,
        frame: &[N],
        sample_rate: u32,
        f_min: N,
        f_max: N,
        threshold: N,
        prev_hz: Option<N>,
    ) -> (r: Option<N>) where A: Fn(&Vec<N>) -> Vec<N>, Z: Fn(N) -> usize, W: Fn(N) -> N
        requires
            self.ready::<N>(),
            total::<N>(),
        ensures
            frame@.len() < MIN_FRAME ==> r is None,
            lawful::<N>() ==> self.is_yin(
                frame@,
                sample_rate,
                f_min,
                f_max,
                threshold,
                prev_hz,
                r,
            ),
    {
        let n: usize = frame.len();
        if n < MIN_FRAME {
            return None;
        }
        let sr: N = from_count::<N>(sample_rate as u64);
        let a: usize = (self.trunc)(sr / f_max);
        let b: usize = (self.trunc)(sr / f_min);
        let lo: usize = if a < 2 {
            2
        } else {
            a
        };
        let hi: usize = if b < n / 2 {
            b
        } else {
            n / 2
        };
        proof {
            if lawful::<N>() {
                assert(call_ensures(self.trunc, (sr.div_spec(f_max),), a));
                assert(call_ensures(self.trunc, (sr.div_spec(f_min),), b));
                assert(is_range(frame@.len(), sr, f_min, f_max, self.trunc, lo, hi));
            }
        }
        if hi <= lo {
            return None;
        }
        let hint: Option<(usize, usize)> = self.hint_range(prev_hz, sr, lo, hi);
        let mut whole: Vec<N> = Vec::new();
        append_samples(&mut whole, frame, 0, n);
        assert(whole@ =~= frame@);
        let auto: Vec<N> = (self.autocorr)(&whole);
        assert(is_correlated(frame@, self.autocorr, auto));
        let diff: Vec<N> = difference(frame, &auto, hi + 1);
        let cmnd: Vec<N> = cumulative_mean_normalized(diff.as_slice());
        let tau: Option<usize> = choose_dip(cmnd.as_slice(), lo, hi, threshold, hint);
        let r: Option<N> = match tau {
            None => None,
            Some(t) => parabolic_refine(cmnd.as_slice(), t, hi, sr, &self.narrow),
        };
        proof {
            if lawful::<N>() {
                let norm = normalised(differences(frame@, auto@, (hi + 1) as nat));
                assert(diff@ == differences(frame@, auto@, (hi + 1) as nat));
                assert(cmnd@ == norm);
                assert(is_chosen_dip(norm, lo as int, hi as int, threshold, hint, tau));
                assert(is_estimate(
                    frame@,
                    auto@,
                    sr,
                    lo,
                    hi,
                    hint,
                    threshold,
                    self.narrow,
                    r,
                ));
                assert(is_hint(prev_hz, sr, lo, hi, self.trunc, hint));
            }
        }
        r
    }

    /// The pitch of a frame, without an earlier one to go by.
    pub fn yin_frame<N: Scalar>(
        &self,
        frame: &[N],
        sample_rate: u32,
        f_min: N,
        f_max: N,
        threshold: N,
    ) -> (r: Option<N>) where A: Fn(&Vec<N>) -> Vec<N>, Z: Fn(N) -> usize, W: Fn(N) -> N
        requires
            self.ready::<N>(),
            total::<N>(),
        ensures
            frame@.len() < MIN_FRAME ==> r is None,
            lawful::<N>() ==> self.is_yin(frame@, sample_rate, f_min, f_max, threshold, None, r),
    {
        self.yin_frame_with_hint(frame, sample_rate, f_min, f_max, threshold, None)
    }
}

fn choose_dip<N: Scalar>(
    cmnd: &[N],
    lo: usize,
    hi: usize,
    threshold: N,
    hint: Option<(usize, usize)>,
) -> (r: Option<usize>)
    requires
        total::<N>(),
        hi < cmnd@.len(),
        hint matches Some((a, b)) ==> lo <= a && b <= hi,
    ensures
        r matches Some(tau) ==> tau < hi,
        lawful::<N>() ==> is_chosen_dip(cmnd@, lo as int, hi as int, threshold, hint, r),
{
    if let Some((a, b)) = hint {
        let near: Option<usize> = find_tau_dip(cmnd, a, b, threshold);
        if near.is_some() {
            return near;
        }
    }
    find_tau_dip(cmnd, lo, hi, threshold)
}

// ---------------------------------------------------------------------
// Tracks
// ---------------------------------------------------------------------
/// How many frames a track has.
pub open spec fn track_frames(n: nat, frame_size: nat, hop_size: nat) -> nat {
    if n < frame_size || hop_size == 0 {
        0
    } else {
        1 + (n - frame_size) as nat / hop_size
    }
}

/// Frame `i` of a track.
pub open spec fn track_frame<N>(audio: Seq<N>, frame_size: nat, hop_size: nat, i: int) -> Seq<N> {
    audio.subrange(i * hop_size as int, i * hop_size as int + frame_size as int)
}

/// The last pitch among the first `k` estimates.
pub open spec fn last_pitch<N>(estimates: Seq<Option<N>>, k: int) -> Option<N>
    decreases k,
{
    if k <= 0 {
        None
    } else if estimates[k - 1] is Some {
        estimates[k - 1]
    } else {
        last_pitch(estimates, k - 1)
    }
}

impl<A, Z, W> PitchMath<A, Z, W> {
    /// The first estimates of a track: each frame with the last pitch before it
    /// as a hint.
    pub open spec fn are_estimates<N: Scalar>(
        &self,
        audio: Seq<N>,
        sample_rate: u32,
        frame_size: nat,
        hop_size: nat,
        f_min: N,
        f_max: N,
        estimates: Seq<Option<N>>,
    ) -> bool where A: Fn(&Vec<N>) -> Vec<N>, Z: Fn(N) -> usize, W: Fn(N) -> N {
        forall|i: int|
            0 <= i < estimates.len() ==> self.is_yin(
                track_frame(audio, frame_size, hop_size, i),
                sample_rate,
                f_min,
                f_max,
                frac(1, 10),
                last_pitch(estimates, i),
                #[trigger] estimates[i],
            )
    }

    /// The pitch over time: one estimate per hop, and `unvoiced` for frames
    /// without a pitch.
    pub fn estimate_f0_track<N: Scalar>(
        &self,
        audio: &[N],
        sample_rate: u32,
        frame_size: usize,
        hop_size: usize,
        f_min: N,
        f_max: N,
        unvoiced: N,
    ) -> (track: Vec<N>) where A: Fn(&Vec<N>) -> Vec<N>, Z: Fn(N) -> usize, W: Fn(N) -> N
        requires
            self.ready::<N>(),
            total::<N>(),
        ensures
            track@.len() == track_frames(audio@.len(), frame_size as nat, hop_size as nat),
            exists|estimates: Seq<Option<N>>|
                {
                    &&& track@ == #[trigger] filled(estimates, unvoiced)
                    &&& lawful::<N>() ==> self.are_estimates(
                        audio@,
                        sample_rate,
                        frame_size as nat,
                        hop_size as nat,
                        f_min,
                        f_max,
                        estimates,
                    )
                },
    {
        let ghost mut estimates: Seq<Option<N>> = Seq::empty();
        let mut track: Vec<N> = Vec::new();
        assert(track@ =~= filled(estimates, unvoiced));
        if audio.len() < frame_size || hop_size == 0 {
            return track;
        }
        let n: usize = audio.len();
        let n_hops: usize = (n - frame_size) / hop_size;
        let threshold: N = default_threshold();
        let mut last_hz: Option<N> = None;
        let mut start: usize = 0;
        let mut i: usize = 0;
        proof {
            assert(n_hops * hop_size <= n - frame_size) by (nonlinear_arith)
                requires
                    n_hops == (n - frame_size) / (hop_size as int),
                    hop_size > 0,
                    n >= frame_size,
            ;
        }
        loop
            invariant
                self.ready::<N>(),
                total::<N>(),
                n == audio@.len(),
                frame_size <= n,
                hop_size > 0,
                n_hops == (n - frame_size) / (hop_size as int),
                n_hops * hop_size <= n - frame_size,
                i <= n_hops,
                start == i * hop_size,
                lawful::<N>() ==> threshold == frac::<N>(1, 10),
                estimates.len() == i,
                track@ == filled(estimates, unvoiced),
                last_hz == last_pitch(estimates, i as int),
                lawful::<N>() ==> self.are_estimates(
                    audio@,
                    sample_rate,
                    frame_size as nat,
                    hop_size as nat,
                    f_min,
                    f_max,
                    estimates,
                ),
            decreases n_hops - i,
        {
            proof {
                assert(i * hop_size <= n_hops * hop_size) by (nonlinear_arith)
                    requires
                        i <= n_hops,
                ;
            }
            let mut frame: Vec<N> = Vec::new();
            append_samples(&mut frame, audio, start, start + frame_size);
            assert(frame@ =~= track_frame(
                audio@,
                frame_size as nat,
                hop_size as nat,
                i as int,
            ));
            let est: Option<N> = self.yin_frame_with_hint(
                frame.as_slice(),
                sample_rate,
                f_min,
                f_max,
                threshold,
                last_hz,
            );
            match est {
                Some(hz) => {
                    track.push(hz);
                    last_hz = Some(hz);
                },
                None => {
                    track.push(unvoiced);
                },
            }
            proof {
                let before = estimates;
                estimates = estimates.push(est);
                assert(track@ =~= filled(estimates, unvoiced));
                lemma_last_pitch_prefix(before, estimates, i as int);
                if lawful::<N>() {
                    assert forall|j: int| 0 <= j < estimates.len() implies self.is_yin(
                        track_frame(audio@, frame_size as nat, hop_size as nat, j),
                        sample_rate,
                        f_min,
                        f_max,
                        frac(1, 10),
                        last_pitch(estimates, j),
                        #[trigger] estimates[j],
                    ) by {
                        lemma_last_pitch_prefix(before, estimates, j);
                        if j < i {
                            assert(before[j] == estimates[j]);
                        }
                    }
                }
            }
            if i == n_hops {
                return track;
            }
            proof {
                assert((i + 1) * hop_size == i * hop_size + hop_size) by (nonlinear_arith);
                assert((i + 1) * hop_size <= n_hops * hop_size) by (nonlinear_arith)
                    requires
                        i + 1 <= n_hops,
                ;
            }
            i = i + 1;
            start = start + hop_size;
        }
    }
}

/// The estimates with a value in place of those that are missing.
pub open spec fn filled<N>(estimates: Seq<Option<N>>, unvoiced: N) -> Seq<N> {
    estimates.map_values(
        |e: Option<N>|
            match e {
                Some(hz) => hz,
                None => unvoiced,
            },
    )
}

proof fn lemma_last_pitch_prefix<N>(a: Seq<Option<N>>, b: Seq<Option<N>>, k: int)
    requires
        0 <= k <= a.len(),
        k <= b.len(),
        forall|i: int| 0 <= i < k ==> a[i] == b[i],
    ensures
        last_pitch(a, k) == last_pitch(b, k),
    decreases k,
{
    if k > 0 {
        lemma_last_pitch_prefix(a, b, k - 1);
    }
}

/// The voiced values of a track.
pub open spec fn voiced<N: Scalar>(track: Seq<N>) -> Seq<N> {
    track.filter(|x: N| finite(x))
}

/// The squared distances from `mean`.
pub open spec fn spread<N: Scalar>(s: Seq<N>, mean: N) -> Seq<N> {
    s.map_values(|v: N| v.sub_spec(mean).mul_spec(v.sub_spec(mean)))
}

/// What [`f0_statistics`] returns: mean and standard deviation of the voiced
/// values, nothing for both where there are none.
pub open spec fn are_statistics<N: Scalar, Q: Fn(N) -> N>(
    track: Seq<N>,
    sqrt: Q,
    r: (N, N),
) -> bool {
    let v = voiced(track);
    if v.len() == 0 {
        r == (num::<N>(0), num::<N>(0))
    } else {
        &&& r.0 == sum(v, v.len()).div_spec(count(v.len()))
        &&& call_ensures(
            sqrt,
            (sum(spread(v, r.0), v.len()).div_spec(count(v.len())),),
            r.1,
        )
    }
}

/// Mean and standard deviation of the voiced values of a track.
pub fn f0_statistics<N: Scalar, Q: Fn(N) -> N>(track: &[N], sqrt: &Q) -> (r: (N, N))
    requires
        total::<N>(),
        forall|x: N| call_requires(*sqrt, (x,)),
    ensures
        lawful::<N>() ==> are_statistics(track@, *sqrt, r),
{
    let mut kept: Vec<N> = Vec::new();
    let mut i: usize = 0;
    proof {
        assert(track@.take(0) =~= Seq::<N>::empty());
        if lawful::<N>() {
            reveal(Seq::filter);
            assert(voiced(track@.take(0)) =~= Seq::<N>::empty());
        }
    }
    while i < track.len()
        invariant
            total::<N>(),
            i <= track@.len(),
            lawful::<N>() ==> kept@ == voiced(track@.take(i as int)),
        decreases track@.len() - i,
    {
        let x: N = track[i];
        if is_finite(x) {
            kept.push(x);
        }
        i = i + 1;
        proof {
            if lawful::<N>() {
                reveal(Seq::filter);
                let t = track@.take(i as int);
                assert(t.drop_last() =~= track@.take(i - 1));
                assert(t.last() == x);
            }
        }
    }
    assert(track@.take(track@.len() as int) =~= track@);
    if kept.len() == 0 {
        return (N::from(0u16), N::from(0u16));
    }
    let n: N = from_count::<N>(kept.len() as u64);
    let mean: N = sum_of(kept.as_slice()) / n;
    let mut squares: Vec<N> = Vec::new();
    let mut k: usize = 0;
    while k < kept.len()
        invariant
            total::<N>(),
            k <= kept@.len(),
            squares@.len() == k,
            lawful::<N>() ==> forall|j: int|
                0 <= j < k ==> #[trigger] squares@[j] == spread(kept@, mean)[j],
        decreases kept@.len() - k,
    {
        let d: N = kept[k] - mean;
        squares.push(d * d);
        k = k + 1;
    }
    assert(lawful::<N>() ==> squares@ =~= spread(kept@, mean));
    let variance: N = sum_of(squares.as_slice()) / n;
    (mean, sqrt(variance))
}

// ---------------------------------------------------------------------
// Whole numbers
// ---------------------------------------------------------------------
/// The sum of the first `m` squares from `from` on.
pub open spec fn energy(x: Seq<u64>, from: int, m: nat) -> int
    decreases m,
{
    if m == 0 {
        0
    } else {
        energy(x, from, (m - 1) as nat) + x[from + m - 1] * x[from + m - 1]
    }
}

/// The sum of the first `m` products of samples `tau` apart.
pub open spec fn correlation(x: Seq<u64>, tau: int, m: nat) -> int
    decreases m,
{
    if m == 0 {
        0
    } else {
        correlation(x, tau, (m - 1) as nat) + x[m - 1] * x[m - 1 + tau]
    }
}

/// The sum of the first `m` squared differences of samples `tau` apart.
pub open spec fn squared_difference(x: Seq<u64>, tau: int, m: nat) -> int
    decreases m,
{
    if m == 0 {
        0
    } else {
        squared_difference(x, tau, (m - 1) as nat) + (x[m - 1] - x[m - 1 + tau]) * (x[m - 1]
            - x[m - 1 + tau])
    }
}

/// Samples of at most sixteen bits, in a frame of at most sixty-five thousand.
pub open spec fn is_pcm(x: Seq<u64>) -> bool {
    &&& x.len() <= 65536
    &&& forall|i: int| 0 <= i < x.len() ==> #[trigger] x[i] <= 65535
}

proof fn lemma_square_bound(a: int)
    requires
        0 <= a <= 65535,
    ensures
        0 <= a * a <= 0x1_0000_0000,
{
    assert(0 <= a * a <= 0x1_0000_0000) by (nonlinear_arith)
        requires
            0 <= a <= 65535,
    ;
}

proof fn lemma_energy(x: Seq<u64>, m: nat)
    requires
        is_pcm(x),
        m <= x.len(),
    ensures
        dot(x, x, m) == energy(x, 0, m),
        0 <= energy(x, 0, m) <= m * 0x1_0000_0000,
    decreases m,
{
    if m > 0 {
        lemma_energy(x, (m - 1) as nat);
        let a = x[m - 1];
        lemma_square_bound(a as int);
        assert(a.mul_spec(a) == a * a);
    }
}

proof fn lemma_energy_splits(x: Seq<u64>, tau: nat, m: nat)
    ensures
        energy(x, 0, tau + m) == energy(x, 0, tau) + energy(x, tau as int, m),
        energy(x, tau as int, m) >= 0,
    decreases m,
{
    if m > 0 {
        lemma_energy_splits(x, tau, (m - 1) as nat);
        let a = x[tau + m - 1] as int;
        assert(a * a >= 0) by (nonlinear_arith);
    }
}

proof fn lemma_expand(x: Seq<u64>, tau: nat, m: nat)
    ensures
        squared_difference(x, tau as int, m) == energy(x, 0, m) + energy(x, tau as int, m) - 2
            * correlation(x, tau as int, m),
        squared_difference(x, tau as int, m) >= 0,
    decreases m,
{
    if m > 0 {
        lemma_expand(x, tau, (m - 1) as nat);
        let a = x[m - 1] as int;
        let b = x[m - 1 + tau] as int;
        assert((a - b) * (a - b) == a * a + b * b - 2 * (a * b)) by (nonlinear_arith);
        assert((a - b) * (a - b) >= 0) by (nonlinear_arith);
    }
}

proof fn lemma_correlation_bound(x: Seq<u64>, tau: nat, m: nat)
    requires
        is_pcm(x),
        tau + m <= x.len(),
    ensures
        0 <= correlation(x, tau as int, m) <= m * 0x1_0000_0000,
    decreases m,
{
    if m > 0 {
        lemma_correlation_bound(x, tau, (m - 1) as nat);
        let a = x[m - 1] as int;
        let b = x[m - 1 + tau] as int;
        assert(0 <= a * b <= 0x1_0000_0000) by (nonlinear_arith)
            requires
                0 <= a <= 65535,
                0 <= b <= 65535,
        ;
    }
}

/// The difference function is what its name says: computed from energies and an
/// exact autocorrelation of whole-number samples, it is the sum of the squared
/// differences of samples `tau` apart.
pub proof fn lemma_difference_is_squared_difference(frame: Seq<u64>, auto: Seq<u64>, tau: int)
    requires
        is_pcm(frame),
        1 <= tau < frame.len(),
        tau < auto.len(),
        auto[tau] == correlation(frame, tau, (frame.len() - tau) as nat),
    ensures
        difference_at(frame, auto, tau) == squared_difference(
            frame,
            tau,
            (frame.len() - tau) as nat,
        ),
{
    let n = frame.len();
    let m = (n - tau) as nat;
    let t = tau as nat;
    lemma_energy(frame, n);
    lemma_energy(frame, m);
    lemma_energy(frame, t);
    lemma_energy_splits(frame, t, m);
    lemma_expand(frame, t, m);
    lemma_correlation_bound(frame, t, m);
    let left: u64 = dot(frame, frame, m);
    let right: u64 = dot(frame, frame, n).sub_spec(dot(frame, frame, t));
    assert(right == energy(frame, tau, m));
    let both: u64 = left.add_spec(right);
    assert(both == left + right);
    let twice: u64 = num::<u64>(2).mul_spec(auto[tau]);
    assert(twice == 2 * auto[tau]);
    let raw: u64 = both.sub_spec(twice);
    assert(raw == squared_difference(frame, tau, m));
    assert(pick(raw, num::<u64>(0)) == raw);
}

} // verus!
