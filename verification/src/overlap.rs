//! Overlap detection: a rolling second of audio, scored at a fixed cadence by a
//! segmentation model over sets of speakers.
use crate::embedding::{incompatible_shape, unexpected_shape, EmbeddingError};
use crate::rings::{keep_last, push_bounded, snapshot};
use crate::scalar::{
    below_all, count, from_count, gt, highest, lawful, num, peak, sum, sum_of, total, Scalar,
};
use std::collections::VecDeque;
use vstd::prelude::*;
use vstd::std_specs::ops::{AddSpec, DivSpec, MulSpec, SubSpec};

verus! {

/// Sample rate of the model.
pub const OVERLAP_SR: u32 = 16_000;

/// Length of the rolling window.
pub const OVERLAP_WINDOW_SAMPLES: usize = 16_000;

/// Number of classes: the sets of at most two out of three speakers.
pub const N_CLASSES: usize = 7;

/// The classes from this one on stand for two speakers at once.
pub const FIRST_OVERLAP_CLASS: usize = 4;

/// Samples between inferences unless set otherwise.
pub const DEFAULT_CADENCE: usize = 4_000;

/// Whether class `c` stands for two speakers at once.
pub open spec fn is_overlap_class(c: nat) -> bool {
    4 <= c <= 6
}

/// What one inference says of the window.
#[derive(Clone, Copy, Debug)]
pub struct OverlapDecision<N> {
    /// Mean probability of overlap over the frames.
    pub mean_overlap_prob: N,
    /// Largest probability of overlap of any frame.
    pub max_overlap_prob: N,
    /// Frames whose likeliest class is an overlap class.
    pub overlap_frame_count: usize,
    /// Frames in all.
    pub total_frames: usize,
}

impl<N: Scalar> OverlapDecision<N> {
    /// The share of frames classified as overlap; zero without frames.
    pub fn overlap_frame_fraction(&self) -> (r: N)
        requires
            self.total_frames == 0 || total::<N>() || lawful::<N>() && crate::scalar::count_fits::<
                N,
            >(self.overlap_frame_count as nat) && crate::scalar::count_fits::<N>(
                self.total_frames as nat,
            ) && count::<N>(self.overlap_frame_count as nat).div_req(
                count(self.total_frames as nat),
            ),
        ensures
            lawful::<N>() ==> r == if self.total_frames == 0 {
                num::<N>(0)
            } else {
                count::<N>(self.overlap_frame_count as nat).div_spec(
                    count(self.total_frames as nat),
                )
            },
    {
        if self.total_frames == 0 {
            return N::from(0u16);
        }
        from_count::<N>(self.overlap_frame_count as u64) / from_count::<N>(
            self.total_frames as u64,
        )
    }
}

/// What the model returns: the class scores of each frame, with the shape they
/// were labelled with.
pub struct OverlapReply<N> {
    pub dims: Vec<i64>,
    pub data: Vec<N>,
}

/// `p` is the probability behind the score `x`.
pub open spec fn is_probability<N: Scalar, F: Fn(N) -> N>(x: N, exp: F, p: N) -> bool {
    exists|e: N| #[trigger]
        call_ensures(exp, (num::<N>(0).sub_spec(x),), e) && p == num::<N>(1).div_spec(
            num::<N>(1).add_spec(e),
        )
}

/// `p` is the probability that a frame with the given scores has two speakers:
/// the sum over the overlap classes.
pub open spec fn is_overlap_prob<N: Scalar, F: Fn(N) -> N>(scores: Seq<N>, exp: F, p: N) -> bool {
    exists|a: N, b: N, c: N|
        {
            &&& #[trigger] is_probability(scores[4], exp, a)
            &&& #[trigger] is_probability(scores[5], exp, b)
            &&& #[trigger] is_probability(scores[6], exp, c)
            &&& p == num::<N>(0).add_spec(a).add_spec(b).add_spec(c)
        }
}

/// The likeliest of the first `n` classes: the first among equals, and the first
/// of all where no score is a number.
pub open spec fn argmax<N: Scalar>(scores: Seq<N>, n: nat) -> nat
    decreases n,
{
    if n == 0 {
        0
    } else if gt(scores[n - 1], highest(scores, (n - 1) as nat)) {
        (n - 1) as nat
    } else {
        argmax(scores, (n - 1) as nat)
    }
}

/// The scores of frame `f`.
pub open spec fn frame_scores<N>(data: Seq<N>, f: nat) -> Seq<N> {
    data.subrange((f * N_CLASSES) as int, (f * N_CLASSES + N_CLASSES) as int)
}

/// How many of the first `n` frames have an overlap class as their likeliest.
pub open spec fn overlap_count<N: Scalar>(data: Seq<N>, n: nat) -> nat
    decreases n,
{
    if n == 0 {
        0
    } else {
        overlap_count(data, (n - 1) as nat) + if is_overlap_class(
            argmax(frame_scores(data, (n - 1) as nat), N_CLASSES as nat),
        ) {
            1nat
        } else {
            0nat
        }
    }
}

/// `p` lists the overlap probability of each frame.
pub open spec fn are_overlap_probs<N: Scalar, F: Fn(N) -> N>(
    data: Seq<N>,
    exp: F,
    p: Seq<N>,
) -> bool {
    forall|f: int|
        0 <= f < p.len() ==> is_overlap_prob(frame_scores(data, f as nat), exp, #[trigger] p[f])
}

/// The model's output has one batch of frames with the right classes.
pub open spec fn is_class_shape(dims: Seq<i64>) -> bool {
    dims.len() == 3 && dims[0] == 1 && dims[2] == N_CLASSES
}

/// What is made of a reply of the right shape.
pub open spec fn is_summary<N: Scalar, F: Fn(N) -> N>(
    frames: nat,
    data: Seq<N>,
    exp: F,
    d: OverlapDecision<N>,
) -> bool {
    &&& d.total_frames == frames
    &&& lawful::<N>() ==> {
        &&& d.overlap_frame_count == overlap_count(data, frames)
        &&& exists|p: Seq<N>|
            {
                &&& p.len() == frames
                &&& #[trigger] are_overlap_probs(data, exp, p)
                &&& d.mean_overlap_prob == sum(p, frames).div_spec(
                    count(
                        if frames == 0 {
                            1
                        } else {
                            frames
                        },
                    ),
                )
                &&& d.max_overlap_prob == peak(p, frames)
            }
    }
}

fn probability<N: Scalar, F: Fn(N) -> N>(x: N, exp: &F) -> (p: N)
    requires
        total::<N>(),
        forall|y: N| call_requires(*exp, (y,)),
    ensures
        lawful::<N>() ==> is_probability(x, *exp, p),
{
    let zero: N = N::from(0u16);
    let one: N = N::from(1u16);
    let y: N = zero - x;
    assert(lawful::<N>() ==> y == num::<N>(0).sub_spec(x));
    let e: N = exp(y);
    one / (one + e)
}

fn likeliest<N: Scalar>(data: &[N], base: usize) -> (r: usize)
    requires
        total::<N>(),
        base + N_CLASSES <= data@.len(),
    ensures
        r < N_CLASSES,
        lawful::<N>() ==> r == argmax(
            data@.subrange(base as int, base + N_CLASSES),
            N_CLASSES as nat,
        ),
{
    let ghost scores = data@.subrange(base as int, base + N_CLASSES);
    let mut best: usize = 0;
    let mut top: N = below_all::<N>();
    let mut c: usize = 0;
    while c < N_CLASSES
        invariant
            c <= N_CLASSES,
            best < N_CLASSES,
            base + N_CLASSES <= data@.len(),
            scores == data@.subrange(base as int, base + N_CLASSES),
            lawful::<N>() ==> best == argmax(scores, c as nat),
            lawful::<N>() ==> top == highest(scores, c as nat),
        decreases N_CLASSES - c,
    {
        let x: N = data[base + c];
        assert(x == scores[c as int]);
        if x > top {
            top = x;
            best = c;
        }
        c = c + 1;
    }
    best
}

/// Sums up the scores of a window.
pub fn summarise<N: Scalar, F: Fn(N) -> N>(dims: &[i64], data: &[N], exp: &F) -> (r: Result<
    OverlapDecision<N>,
    EmbeddingError,
>)
    requires
        total::<N>(),
        forall|y: N| call_requires(*exp, (y,)),
    ensures
        match r {
            Ok(d) => is_class_shape(dims@) && dims@[1] >= 0 && dims@[1] * N_CLASSES <= data@.len()
                && is_summary(dims@[1] as nat, data@, *exp, d),
            Err(e) => if !is_class_shape(dims@) {
                e.reports(dims@, N_CLASSES)
            } else {
                (dims@[1] < 0 || dims@[1] * N_CLASSES > data@.len()) && e.is_incompatible()
            },
        },
{
    if dims.len() != 3 || dims[0] != 1 || dims[2] != 7 {
        return Err(unexpected_shape(dims, N_CLASSES));
    }
    if dims[1] < 0 || dims[1] as u64 > (data.len() / N_CLASSES) as u64 {
        return Err(incompatible_shape());
    }
    let frames: usize = dims[1] as usize;
    let n: usize = data.len();
    let mut probs: Vec<N> = Vec::new();
    let mut max_overlap: N = N::from(0u16);
    let mut overlap_frames: usize = 0;
    let mut f: usize = 0;
    while f < frames
        invariant
            total::<N>(),
            forall|y: N| call_requires(*exp, (y,)),
            f <= frames,
            n == data@.len(),
            frames * N_CLASSES <= n,
            probs@.len() == f,
            overlap_frames <= f,
            lawful::<N>() ==> are_overlap_probs(data@, *exp, probs@),
            lawful::<N>() ==> max_overlap == peak(probs@, f as nat),
            lawful::<N>() ==> overlap_frames == overlap_count(data@, f as nat),
        decreases frames - f,
    {
        let base: usize = f * N_CLASSES;
        let ghost scores = frame_scores(data@, f as nat);
        let zero: N = N::from(0u16);
        let a: N = probability(data[base + 4], exp);
        let b: N = probability(data[base + 5], exp);
        let c: N = probability(data[base + 6], exp);
        let p: N = zero + a + b + c;
        proof {
            assert(scores[4] == data@[base + 4]);
            assert(scores[5] == data@[base + 5]);
            assert(scores[6] == data@[base + 6]);
            if lawful::<N>() {
                assert(is_probability(scores[4], *exp, a));
                assert(is_probability(scores[5], *exp, b));
                assert(is_probability(scores[6], *exp, c));
                assert(is_overlap_prob(scores, *exp, p));
            }
        }
        let best: usize = likeliest(data, base);
        let ghost before = probs@;
        probs.push(p);
        proof {
            crate::gating::lemma_peak_prefix(before, probs@, f as nat);
            if lawful::<N>() {
                assert forall|j: int| 0 <= j < probs@.len() implies is_overlap_prob(
                    frame_scores(data@, j as nat),
                    *exp,
                    #[trigger] probs@[j],
                ) by {
                    if j < f {
                        assert(probs@[j] == before[j]);
                    }
                }
            }
        }
        if p > max_overlap {
            max_overlap = p;
        }
        if 4 <= best && best <= 6 {
            overlap_frames = overlap_frames + 1;
        }
        f = f + 1;
    }
    let divisor: usize = if frames == 0 {
        1
    } else {
        frames
    };
    let sum_overlap: N = sum_of(probs.as_slice());
    Ok(
        OverlapDecision {
            mean_overlap_prob: sum_overlap / from_count::<N>(divisor as u64),
            max_overlap_prob: max_overlap,
            overlap_frame_count: overlap_frames,
            total_frames: frames,
        },
    )
}

/// What a detector holds.
pub struct DetectorView<N> {
    pub window: Seq<N>,
    pub since_last_run: nat,
    pub cadence: nat,
}

/// Rolling overlap detection.
pub struct OverlapDetector<N> {
    buffer: VecDeque<N>,
    samples_since_last_run: usize,
    cadence_samples: usize,
}

impl<N> View for OverlapDetector<N> {
    type V = DetectorView<N>;

    closed spec fn view(&self) -> DetectorView<N> {
        DetectorView {
            window: self.buffer@,
            since_last_run: self.samples_since_last_run as nat,
            cadence: self.cadence_samples as nat,
        }
    }
}

/// The detector once it has heard `samples` more, before it is asked whether to
/// run.
pub open spec fn listened<N>(before: DetectorView<N>, samples: Seq<N>) -> DetectorView<N> {
    DetectorView {
        window: keep_last(before.window + samples, OVERLAP_WINDOW_SAMPLES as nat),
        since_last_run: if before.since_last_run + samples.len() > usize::MAX {
            usize::MAX as nat
        } else {
            before.since_last_run + samples.len()
        },
        ..before
    }
}

/// An inference is due: the window is full and the cadence has passed.
pub open spec fn due<N>(d: DetectorView<N>) -> bool {
    d.window.len() >= OVERLAP_WINDOW_SAMPLES && d.since_last_run >= d.cadence
}

/// The model was run on `window` with that outcome.
pub open spec fn inferred<N, M: Fn(&Vec<N>) -> Result<OverlapReply<N>, EmbeddingError>>(
    window: Seq<N>,
    infer: M,
    outcome: Result<OverlapReply<N>, EmbeddingError>,
) -> bool {
    exists|v: Vec<N>| v@ == window && #[trigger] call_ensures(infer, (&v,), outcome)
}

/// `r` is the decision on `window`: the model's error, or the summary of its
/// reply.
pub open spec fn is_verdict<
    N: Scalar,
    M: Fn(&Vec<N>) -> Result<OverlapReply<N>, EmbeddingError>,
    F: Fn(N) -> N,
>(window: Seq<N>, infer: M, exp: F, r: Result<OverlapDecision<N>, EmbeddingError>) -> bool {
    exists|outcome: Result<OverlapReply<N>, EmbeddingError>|
        {
            &&& #[trigger] inferred(window, infer, outcome)
            &&& match outcome {
                Err(e) => r == Err::<OverlapDecision<N>, EmbeddingError>(e),
                Ok(reply) => match r {
                    Ok(d) => is_class_shape(reply.dims@) && is_summary(
                        reply.dims@[1] as nat,
                        reply.data@,
                        exp,
                        d,
                    ),
                    Err(e) => if !is_class_shape(reply.dims@) {
                        e.reports(reply.dims@, N_CLASSES)
                    } else {
                        e.is_incompatible() && (reply.dims@[1] < 0 || reply.dims@[1] * N_CLASSES
                            > reply.data@.len())
                    },
                },
            }
        }
}

impl<N: Scalar> OverlapDetector<N> {
    /// The window never exceeds its length and the cadence is positive.
    pub open spec fn wf(&self) -> bool {
        self@.window.len() <= OVERLAP_WINDOW_SAMPLES && self@.cadence >= 1
    }

    /// A detector before any audio.
    pub fn new() -> (r: Self)
        ensures
            r.wf(),
            r@.window.len() == 0,
            r@.since_last_run == 0,
            r@.cadence == DEFAULT_CADENCE,
    {
        OverlapDetector {
            buffer: VecDeque::new(),
            samples_since_last_run: 0,
            cadence_samples: DEFAULT_CADENCE,
        }
    }

    /// Sets the samples between inferences, at least one.
    pub fn set_cadence_samples(&mut self, cadence: usize)
        requires
            old(self).wf(),
        ensures
            final(self).wf(),
            final(self)@ == (DetectorView {
                cadence: if cadence == 0 {
                    1
                } else {
                    cadence as nat
                },
                ..old(self)@
            }),
    {
        self.cadence_samples = if cadence == 0 {
            1
        } else {
            cadence
        };
    }

    /// The time between inferences in milliseconds.
    pub fn cadence_ms(&self) -> (r: N)
        requires
            total::<N>(),
        ensures
            lawful::<N>() ==> r == cadence_in_ms::<N>(self@.cadence),
    {
        from_count::<N>(self.cadence_samples as u64) / from_count::<N>(OVERLAP_SR as u64)
            * N::from(1000u16)
    }

    /// Drops all buffered audio.
    pub fn reset(&mut self)
        requires
            old(self).wf(),
        ensures
            final(self).wf(),
            final(self)@ == (DetectorView {
                window: Seq::<N>::empty(),
                since_last_run: 0,
                ..old(self)@
            }),
    {
        self.buffer.clear();
        self.samples_since_last_run = 0;
    }

    /// Hears samples, and runs the model when the window is full and the
    /// cadence has passed.
    pub fn push<M: Fn(&Vec<N>) -> Result<OverlapReply<N>, EmbeddingError>, F: Fn(N) -> N>(
        &mut self,
        samples: &[N],
        infer: &M,
        exp: &F,
    ) -> (r: Result<Option<OverlapDecision<N>>, EmbeddingError>)
        requires
            old(self).wf(),
            total::<N>(),
            forall|v: &Vec<N>| call_requires(*infer, (v,)),
            forall|y: N| call_requires(*exp, (y,)),
        ensures
            final(self).wf(),
            !due(listened(old(self)@, samples@)) ==> final(self)@ == listened(
                old(self)@,
                samples@,
            ) && r == Ok::<Option<OverlapDecision<N>>, EmbeddingError>(None),
            due(listened(old(self)@, samples@)) ==> {
                &&& final(self)@ == (DetectorView {
                    since_last_run: 0,
                    ..listened(old(self)@, samples@)
                })
                &&& match r {
                    Ok(Some(d)) => is_verdict(final(self)@.window, *infer, *exp, Ok(d)),
                    Ok(None) => false,
                    Err(e) => is_verdict(
                        final(self)@.window,
                        *infer,
                        *exp,
                        Err::<OverlapDecision<N>, EmbeddingError>(e),
                    ),
                }
            },
    {
        push_bounded(&mut self.buffer, samples, OVERLAP_WINDOW_SAMPLES);
        self.samples_since_last_run = self.samples_since_last_run.saturating_add(samples.len());
        if self.buffer.len() < OVERLAP_WINDOW_SAMPLES || self.samples_since_last_run
            < self.cadence_samples {
            return Ok(None);
        }
        self.samples_since_last_run = 0;
        match self.run_inference_on_current_buffer(infer, exp) {
            Ok(d) => Ok(Some(d)),
            Err(e) => Err(e),
        }
    }

    /// Runs the model now if the window is full, whatever the cadence.
    pub fn force_run<M: Fn(&Vec<N>) -> Result<OverlapReply<N>, EmbeddingError>, F: Fn(N) -> N>(
        &self,
        infer: &M,
        exp: &F,
    ) -> (r: Result<Option<OverlapDecision<N>>, EmbeddingError>)
        requires
            total::<N>(),
            forall|v: &Vec<N>| call_requires(*infer, (v,)),
            forall|y: N| call_requires(*exp, (y,)),
        ensures
            self@.window.len() < OVERLAP_WINDOW_SAMPLES ==> r == Ok::<
                Option<OverlapDecision<N>>,
                EmbeddingError,
            >(None),
            self@.window.len() >= OVERLAP_WINDOW_SAMPLES ==> match r {
                Ok(Some(d)) => is_verdict(self@.window, *infer, *exp, Ok(d)),
                Ok(None) => false,
                Err(e) => is_verdict(
                    self@.window,
                    *infer,
                    *exp,
                    Err::<OverlapDecision<N>, EmbeddingError>(e),
                ),
            },
    {
        if self.buffer.len() < OVERLAP_WINDOW_SAMPLES {
            return Ok(None);
        }
        match self.run_inference_on_current_buffer(infer, exp) {
            Ok(d) => Ok(Some(d)),
            Err(e) => Err(e),
        }
    }

    fn run_inference_on_current_buffer<
        M: Fn(&Vec<N>) -> Result<OverlapReply<N>, EmbeddingError>,
        F: Fn(N) -> N,
    >(&self, infer: &M, exp: &F) -> (r: Result<OverlapDecision<N>, EmbeddingError>)
        requires
            total::<N>(),
            forall|v: &Vec<N>| call_requires(*infer, (v,)),
            forall|y: N| call_requires(*exp, (y,)),
        ensures
            is_verdict(self@.window, *infer, *exp, r),
    {
        let window: Vec<N> = snapshot(&self.buffer);
        let outcome: Result<OverlapReply<N>, EmbeddingError> = infer(&window);
        assert(inferred(self@.window, *infer, outcome));
        match outcome {
            Err(e) => Err(e),
            Ok(reply) => summarise(reply.dims.as_slice(), reply.data.as_slice(), exp),
        }
    }
}

/// A cadence in samples as milliseconds.
pub open spec fn cadence_in_ms<N: Scalar>(samples: nat) -> N {
    count::<N>(samples).div_spec(count(OVERLAP_SR as nat)).mul_spec(num(1000))
}

/// No decision comes before the window was filled once: with less than a window
/// of audio in all, nothing is due.
pub proof fn lemma_no_decision_before_full<N>(before: DetectorView<N>, samples: Seq<N>)
    requires
        before.window.len() + samples.len() < OVERLAP_WINDOW_SAMPLES,
    ensures
        !due(listened(before, samples)),
{
}

} // verus!
