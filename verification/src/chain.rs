//! The audio chain behind the speaker gate: target-speaker extraction, noise
//! suppression, or one of them at a time as the overlap detector says, and the
//! levels that bring their output back to that of the input.
use crate::config::StreamingConfig;
use crate::dfn3::{
    enhanced_as, is_pushed, lemma_push_conserves, returns_chunks, Dfn3Streamer, SAMPLES_PER_CHUNK,
};
use crate::embedding::EmbeddingError;
use crate::gating::{finite, is_finite};
use crate::overlap::{
    cadence_in_ms, due, is_verdict, listened, DetectorView, OverlapDecision, OverlapDetector,
    OverlapReply,
};
use crate::pipeline::PipelineError;
use crate::rings::{extend, take_front};
use crate::scalar::{
    count, dot, from_count, ge, gt, inner_product, lawful, lt, num, pick, pick_larger, total,
    Scalar,
};
use crate::tse::{is_initial_state, Tensor, TseError, TseReply};
use crate::tse_stage::{
    append_samples, fills_its_label, is_fed, is_padded, lemma_feed_conserves, stepped, StageView,
    TseStage, TseStageError,
};
use std::collections::VecDeque;
use vstd::prelude::*;
use vstd::std_specs::cmp::PartialEqSpec;
use vstd::std_specs::ops::{AddSpec, DivSpec, MulSpec, SubSpec};

verus! {

/// Which part of an adaptive chain is at work.
#[derive(Clone, Copy, Debug, PartialEq, Eq, Structural)]
pub enum ChainMode {
    /// One speaker: noise suppression only.
    Solo,
    /// Several speakers: extraction only.
    Overlap,
}

// ---------------------------------------------------------------------
// Hysteresis
// ---------------------------------------------------------------------
/// The mode and how long the detector has spoken for and against it.
pub struct HoldView<N> {
    pub mode: ChainMode,
    pub above_ms: N,
    pub below_ms: N,
}

/// The mode after another verdict of the detector: each verdict counts for the
/// time since the one before; overlap takes over once it has lasted for the
/// hold-on time, and gives way once its absence has lasted for the hold-off
/// time.
pub open spec fn held<N: Scalar>(
    h: HoldView<N>,
    prob: N,
    cadence_ms: N,
    threshold: N,
    hold_on_ms: N,
    hold_off_ms: N,
) -> HoldView<N> {
    let above = if ge(prob, threshold) {
        h.above_ms.add_spec(cadence_ms)
    } else {
        num(0)
    };
    let below = if ge(prob, threshold) {
        num(0)
    } else {
        h.below_ms.add_spec(cadence_ms)
    };
    let flips = match h.mode {
        ChainMode::Solo => ge(above, hold_on_ms),
        ChainMode::Overlap => ge(below, hold_off_ms),
    };
    if flips {
        HoldView { mode: other(h.mode), above_ms: num(0), below_ms: num(0) }
    } else {
        HoldView { mode: h.mode, above_ms: above, below_ms: below }
    }
}

/// The other mode.
pub open spec fn other(m: ChainMode) -> ChainMode {
    match m {
        ChainMode::Solo => ChainMode::Overlap,
        ChainMode::Overlap => ChainMode::Solo,
    }
}

/// A single verdict against the mode does not flip it while the hold time is
/// longer than the detector's cadence.
pub proof fn lemma_blip_does_not_flip(
    h: HoldView<u64>,
    prob: u64,
    cadence_ms: u64,
    threshold: u64,
    hold_on_ms: u64,
    hold_off_ms: u64,
)
    requires
        h.above_ms == 0,
        h.below_ms == 0,
        cadence_ms < hold_on_ms,
        cadence_ms < hold_off_ms,
    ensures
        held(h, prob, cadence_ms, threshold, hold_on_ms, hold_off_ms).mode == h.mode,
{
}

/// Solo verdicts keep a solo chain solo, whatever came before.
pub proof fn lemma_solo_stays_solo<N: Scalar>(
    h: HoldView<N>,
    prob: N,
    cadence_ms: N,
    threshold: N,
    hold_on_ms: N,
    hold_off_ms: N,
)
    requires
        h.mode == ChainMode::Solo,
        !ge(prob, threshold),
        !ge(num::<N>(0), hold_on_ms),
    ensures
        held(h, prob, cadence_ms, threshold, hold_on_ms, hold_off_ms).mode == ChainMode::Solo,
{
}

// ---------------------------------------------------------------------
// Levels
// ---------------------------------------------------------------------
/// The amount by which the chain's input is moved off silence.
pub open spec fn dither<N: Scalar>() -> N {
    num::<N>(1).div_spec(num::<N>(10_000).mul_spec(num(1000)))
}

/// The smallest level that is told from silence.
pub open spec fn level_floor<N: Scalar>() -> N {
    num::<N>(1).div_spec(num::<N>(10_000).mul_spec(num(10_000)).mul_spec(num(10)))
}

/// The audio moved off silence: up and down in turn.
pub open spec fn dithered<N: Scalar>(audio: Seq<N>) -> Seq<N> {
    Seq::new(
        audio.len(),
        |i: int|
            audio[i].add_spec(
                if i % 2 == 0 {
                    dither::<N>()
                } else {
                    num::<N>(0).sub_spec(dither())
                },
            ),
    )
}

/// Moves audio off silence.
pub fn add_dither<N: Scalar>(audio: &[N]) -> (r: Vec<N>)
    requires
        total::<N>(),
    ensures
        r@.len() == audio@.len(),
        lawful::<N>() ==> r@ =~= dithered(audio@),
{
    let one: N = N::from(1u16);
    let zero: N = N::from(0u16);
    let up: N = one / (N::from(10_000u16) * N::from(1000u16));
    let down: N = zero - up;
    let mut out: Vec<N> = Vec::new();
    let mut i: usize = 0;
    while i < audio.len()
        invariant
            total::<N>(),
            i <= audio@.len(),
            out@.len() == i,
            lawful::<N>() ==> up == dither::<N>() && down == num::<N>(0).sub_spec(dither()),
            lawful::<N>() ==> forall|j: int|
                0 <= j < i ==> #[trigger] out@[j] == dithered(audio@)[j],
        decreases audio@.len() - i,
    {
        let x: N = audio[i];
        let y: N = if i % 2 == 0 {
            x + up
        } else {
            x + down
        };
        out.push(y);
        i = i + 1;
    }
    out
}

/// `g` is the factor of a gain in decibels: one for none, otherwise ten to the
/// twentieth of it.
pub open spec fn is_gain<N: Scalar, P: Fn(N) -> N>(db: N, pow10: P, g: N) -> bool {
    if db.eq_spec(&num(0)) {
        g == num::<N>(1)
    } else {
        call_ensures(pow10, (db.div_spec(num(20)),), g)
    }
}

/// The factor of a gain in decibels.
pub fn gain_factor<N: Scalar, P: Fn(N) -> N>(db: N, pow10: &P) -> (g: N)
    requires
        total::<N>(),
        forall|x: N| call_requires(*pow10, (x,)),
    ensures
        lawful::<N>() ==> is_gain(db, *pow10, g),
{
    let zero: N = N::from(0u16);
    if db == zero {
        return N::from(1u16);
    }
    let x: N = db / N::from(20u16);
    pow10(x)
}

/// `r` is the root mean square of `s`.
pub open spec fn is_rms<N: Scalar, Q: Fn(N) -> N>(s: Seq<N>, sqrt: Q, r: N) -> bool {
    call_ensures(sqrt, (dot(s, s, s.len()).div_spec(count(s.len())),), r)
}

/// The smaller of two numbers, where a NaN gives way to the other.
pub open spec fn least<N: Scalar>(a: N, b: N) -> N {
    if lt(b, a) || !a.eq_spec(&a) {
        b
    } else {
        a
    }
}

/// `g` brings `out` to the level of `raw`, but raises it by no more than the
/// given decibels.
pub open spec fn is_level_match<N: Scalar, Q: Fn(N) -> N, P: Fn(N) -> N>(
    raw: Seq<N>,
    out: Seq<N>,
    max_db: N,
    sqrt: Q,
    pow10: P,
    g: N,
) -> bool {
    exists|a: N, b: N, m: N|
        {
            &&& #[trigger] is_rms(raw, sqrt, a)
            &&& #[trigger] is_rms(out, sqrt, b)
            &&& #[trigger] call_ensures(pow10, (max_db.div_spec(num(20)),), m)
            &&& g == least(
                pick(a, level_floor()).div_spec(pick(b, level_floor())),
                m,
            )
        }
}

/// The factor that brings the output of a block to the level of its input.
pub fn level_match<N: Scalar, Q: Fn(N) -> N, P: Fn(N) -> N>(
    raw: &Vec<N>,
    out: &Vec<N>,
    max_db: N,
    sqrt: &Q,
    pow10: &P,
) -> (g: N)
    requires
        total::<N>(),
        raw@.len() == out@.len(),
        forall|x: N| call_requires(*sqrt, (x,)),
        forall|x: N| call_requires(*pow10, (x,)),
    ensures
        lawful::<N>() ==> is_level_match(raw@, out@, max_db, *sqrt, *pow10, g),
{
    let n: N = from_count::<N>(out.len() as u64);
    let floor: N = N::from(1u16) / (N::from(10_000u16) * N::from(10_000u16) * N::from(10u16));
    let mean_in: N = inner_product(raw.as_slice(), raw.as_slice()) / n;
    let in_rms: N = sqrt(mean_in);
    let mean_out: N = inner_product(out.as_slice(), out.as_slice()) / n;
    let out_rms: N = sqrt(mean_out);
    let cap_exponent: N = max_db / N::from(20u16);
    let max_lin: N = pow10(cap_exponent);
    proof {
        if lawful::<N>() {
            assert(is_rms(raw@, *sqrt, in_rms));
            assert(is_rms(out@, *sqrt, out_rms));
            assert(call_ensures(*pow10, (max_db.div_spec(num(20)),), max_lin));
            assert(floor == level_floor::<N>());
        }
    }
    let ratio: N = pick_larger(in_rms, floor) / pick_larger(out_rms, floor);
    if max_lin < ratio || !(ratio == ratio) {
        max_lin
    } else {
        ratio
    }
}

/// A share brought into the range from zero to one.
pub open spec fn clamped<N: Scalar>(x: N) -> N {
    if lt(x, num(0)) {
        num(0)
    } else if gt(x, num(1)) {
        num(1)
    } else {
        x
    }
}

/// How one block of chain output is mixed.
pub struct Mix<N> {
    pub mode: ChainMode,
    /// Factor after noise suppression.
    pub solo: N,
    /// Factor that brings extraction to the level of its input.
    pub level: N,
    /// Further factor after extraction.
    pub overlap: N,
    /// Share of the extracted signal.
    pub alpha: N,
    pub soft_clip: bool,
}

/// The sample before limiting: at its level, and mixed with the raw one during
/// overlap.
pub open spec fn blended<N: Scalar>(x: N, raw: N, m: Mix<N>) -> N {
    match m.mode {
        ChainMode::Solo => x.mul_spec(m.solo),
        ChainMode::Overlap => {
            let y = x.mul_spec(m.level).mul_spec(m.overlap);
            if lt(m.alpha, num(1)) {
                m.alpha.mul_spec(y).add_spec(num::<N>(1).sub_spec(m.alpha).mul_spec(raw))
            } else {
                y
            }
        },
    }
}

/// `y` is the sample that leaves the chain: blended, limited, times its gain;
/// never anything but a finite number.
pub open spec fn is_mixed<N: Scalar, T: Fn(N) -> N>(
    x: N,
    raw: N,
    g: N,
    m: Mix<N>,
    tanh: T,
    y: N,
) -> bool {
    exists|limited: N|
        {
            &&& #[trigger] is_limited(blended(x, raw, m), m.soft_clip, tanh, limited)
            &&& y == if finite(limited.mul_spec(g)) {
                limited.mul_spec(g)
            } else {
                num(0)
            }
        }
}

/// `y` is `x`, limited if that is asked for.
pub open spec fn is_limited<N: Scalar, T: Fn(N) -> N>(
    x: N,
    soft_clip: bool,
    tanh: T,
    y: N,
) -> bool {
    if soft_clip {
        call_ensures(tanh, (x,), y)
    } else {
        y == x
    }
}

/// What leaves the chain is always finite, also when a model is not, on a type
/// whose zero is.
pub proof fn lemma_output_is_finite<N: Scalar, T: Fn(N) -> N>(
    x: N,
    raw: N,
    g: N,
    m: Mix<N>,
    tanh: T,
    y: N,
)
    requires
        is_mixed(x, raw, g, m, tanh, y),
        finite(num::<N>(0)),
    ensures
        finite(y),
{
}

/// What leaves the chain while the speaker gate is shut is silence, whatever the
/// levels: the gain is the last factor.
pub proof fn lemma_shut_is_silent<T: Fn(u64) -> u64>(
    x: u64,
    raw: u64,
    m: Mix<u64>,
    tanh: T,
    y: u64,
)
    requires
        is_mixed(x, raw, num::<u64>(0), m, tanh, y),
    ensures
        y == 0,
{
    assert(num::<u64>(0) == 0);
    assert forall|limited: u64| #[trigger] limited.mul_spec(0u64) == 0 by {
        assert(limited * 0 == 0) by (nonlinear_arith);
    }
}

/// One sample of output: what came out of the stages, with its share of the raw sample,
/// limited where that is asked for, at the gain of the envelope.
pub fn mix_sample<N: Scalar, T: Fn(N) -> N>(x: N, raw: N, g: N, m: &Mix<N>, tanh: &T) -> (y: N)
    requires
        total::<N>(),
        forall|v: N| call_requires(*tanh, (v,)),
    ensures
        lawful::<N>() ==> is_mixed(x, raw, g, *m, *tanh, y),
{
    let one: N = N::from(1u16);
    let mixed: N = match m.mode {
        ChainMode::Solo => x * m.solo,
        ChainMode::Overlap => {
            let processed: N = x * m.level * m.overlap;
            if m.alpha < one {
                m.alpha * processed + (one - m.alpha) * raw
            } else {
                processed
            }
        },
    };
    let limited: N = if m.soft_clip {
        tanh(mixed)
    } else {
        mixed
    };
    proof {
        if lawful::<N>() {
            assert(mixed == blended(x, raw, *m));
            assert(is_limited(blended(x, raw, *m), m.soft_clip, *tanh, limited));
        }
    }
    let sample: N = limited * g;
    if is_finite(sample) {
        sample
    } else {
        N::from(0u16)
    }
}

// ---------------------------------------------------------------------
// The chain
// ---------------------------------------------------------------------
/// What a chain holds.
pub struct ChainView<N> {
    pub tse: Option<StageView<N>>,
    pub dfn3: Option<Seq<N>>,
    /// The overlap detector that chooses between the two.
    pub detector: Option<DetectorView<N>>,
    /// Gains of samples still inside the chain.
    pub gains: Seq<N>,
    /// The raw samples that belong to those gains.
    pub raws: Seq<N>,
    pub hold: HoldView<N>,
}

/// The chain and its queues.
pub struct Chain<N> {
    tse_stage: Option<TseStage<N>>,
    dfn3_stream: Option<Dfn3Streamer<N>>,
    overlap_detector: Option<OverlapDetector<N>>,
    pending_gain: VecDeque<N>,
    pending_raw: VecDeque<N>,
    mode: ChainMode,
    overlap_above_ms: N,
    overlap_below_ms: N,
}

impl<N: Scalar> View for Chain<N> {
    type V = ChainView<N>;

    closed spec fn view(&self) -> ChainView<N> {
        ChainView {
            tse: match self.tse_stage {
                Some(t) => Some(t@),
                None => None,
            },
            dfn3: match self.dfn3_stream {
                Some(d) => Some(d@),
                None => None,
            },
            detector: match self.overlap_detector {
                Some(o) => Some(o@),
                None => None,
            },
            gains: self.pending_gain@,
            raws: self.pending_raw@,
            hold: HoldView {
                mode: self.mode,
                above_ms: self.overlap_above_ms,
                below_ms: self.overlap_below_ms,
            },
        }
    }
}

/// What remembers audio outside the library.
#[derive(Clone, Copy, Debug, PartialEq, Eq, Structural)]
pub enum Memory {
    /// The noise suppression of the chain.
    Enhancer,
    /// The resampler ahead of the decision side.
    Resampler,
}

/// A fresh start: the stages have forgotten all audio and nothing waits.
pub open spec fn is_started_afresh<N: Scalar>(before: ChainView<N>, after: ChainView<N>) -> bool {
    &&& after.gains.len() == 0
    &&& after.raws.len() == 0
    &&& after.detector == before.detector
    &&& after.dfn3 is Some <==> before.dfn3 is Some
    &&& after.dfn3 matches Some(d) ==> d.len() == 0
    &&& after.tse is Some <==> before.tse is Some
    &&& after.tse matches Some(t) ==> {
        &&& t == (StageView { carried: t.carried, pending: Seq::empty(), ..before.tse->0 })
        &&& is_initial_state(t.model, t.carried@)
    }
}

/// The stages of a chain, without its queues.
pub struct Stages<N> {
    pub tse: Option<StageView<N>>,
    pub dfn3: Option<Seq<N>>,
    pub adaptive: bool,
    pub mode: ChainMode,
}

impl<N> ChainView<N> {
    /// The stages alone.
    pub open spec fn stages(self) -> Stages<N> {
        Stages { tse: self.tse, dfn3: self.dfn3, adaptive: self.adaptive(), mode: self.hold.mode }
    }

    /// There is something between gate and output.
    pub open spec fn active(self) -> bool {
        self.tse is Some || self.dfn3 is Some
    }

    /// The detector chooses between extraction and noise suppression.
    pub open spec fn adaptive(self) -> bool {
        self.detector is Some && self.tse is Some && self.dfn3 is Some
    }

    /// Samples held back by the stages.
    pub open spec fn held_back(self) -> nat {
        (match self.tse {
            Some(t) => t.pending.len(),
            None => 0nat,
        }) + (match self.dfn3 {
            Some(d) => d.len(),
            None => 0nat,
        })
    }

    /// Every held-back sample has its gain and its raw sample queued, and no
    /// others are queued.
    pub open spec fn balanced(self) -> bool {
        &&& self.gains.len() == self.raws.len()
        &&& self.gains.len() == self.held_back()
    }
}

/// The smaller of two lengths.
pub open spec fn lesser(a: nat, b: nat) -> nat {
    if a < b {
        a
    } else {
        b
    }
}

/// Whether extraction is skipped for now.
pub open spec fn skips_tse<N>(c: Stages<N>) -> bool {
    c.tse is None || (c.adaptive && c.mode == ChainMode::Solo)
}

/// Whether noise suppression is skipped for now.
pub open spec fn skips_dfn3<N>(c: Stages<N>) -> bool {
    c.dfn3 is None || (c.adaptive && c.mode == ChainMode::Overlap)
}

/// The stages turned `input` into `out`: extraction first, then noise
/// suppression, each unless it is skipped.
pub open spec fn is_staged<
    N: Scalar,
    M: Fn(&[N], &[N], &Vec<Tensor<N>>) -> Result<TseReply<N>, TseError>,
    D: Fn(&Vec<N>) -> Result<Vec<N>, EmbeddingError>,
>(before: Stages<N>, input: Seq<N>, run: M, enhance: D, after: Stages<N>, out: Seq<N>) -> bool {
    &&& after.tse is Some <==> before.tse is Some
    &&& after.dfn3 is Some <==> before.dfn3 is Some
    &&& exists|mid: Vec<N>| #[trigger]
        is_extracted(before, input, run, after, mid) && is_suppressed(
            before,
            mid@,
            enhance,
            after,
            out,
        )
}

/// Extraction turned `input` into `mid`.
pub open spec fn is_extracted<
    N: Scalar,
    M: Fn(&[N], &[N], &Vec<Tensor<N>>) -> Result<TseReply<N>, TseError>,
>(before: Stages<N>, input: Seq<N>, run: M, after: Stages<N>, mid: Vec<N>) -> bool {
    if skips_tse(before) {
        mid@ == input && after.tse == before.tse
    } else {
        is_fed(before.tse->0, input, run, after.tse->0, Ok(mid))
    }
}

/// Noise suppression turned `mid` into `out`.
pub open spec fn is_suppressed<N: Scalar, D: Fn(&Vec<N>) -> Result<Vec<N>, EmbeddingError>>(
    before: Stages<N>,
    mid: Seq<N>,
    enhance: D,
    after: Stages<N>,
    out: Seq<N>,
) -> bool {
    if skips_dfn3(before) {
        out == mid && after.dfn3 == before.dfn3
    } else {
        exists|v: Vec<N>|
            v@ == out && #[trigger] is_pushed(
                before.dfn3->0,
                mid,
                enhance,
                after.dfn3->0,
                Ok(v),
            )
    }
}

impl<N: Scalar> Chain<N> {
    /// As long as no stage has failed: the stages are sound, and the queues match
    /// what they hold back.
    pub closed spec fn wf(&self) -> bool {
        &&& self.tse_stage matches Some(t) ==> t.wf()
        &&& self.dfn3_stream matches Some(d) ==> d@.len() < SAMPLES_PER_CHUNK
        &&& self.overlap_detector matches Some(o) ==> o.wf()
        &&& self@.balanced()
    }

    /// What holds even after an error: the stages are sound, and every queued gain
    /// has its raw sample.
    pub closed spec fn sound(&self) -> bool {
        &&& self.tse_stage matches Some(t) ==> t.wf()
        &&& self.overlap_detector matches Some(o) ==> o.wf()
        &&& self.pending_raw@.len() == self.pending_gain@.len()
    }

    /// A chain without errors is sound.
    pub proof fn lemma_sound(&self)
        requires
            self.wf(),
        ensures
            self.sound(),
    {
    }

    /// In every state the queues match what the stages hold back.
    pub proof fn lemma_balanced(&self)
        requires
            self.wf(),
        ensures
            self@.balanced(),
    {
    }

    /// A chain of the given stages. A detector is kept only between two stages.
    pub fn new(
        tse_stage: Option<TseStage<N>>,
        dfn3_stream: Option<Dfn3Streamer<N>>,
        overlap_detector: Option<OverlapDetector<N>>,
    ) -> (r: Self)
        requires
            tse_stage matches Some(t) ==> t.wf() && t@.pending.len() == 0,
            dfn3_stream matches Some(d) ==> d@.len() == 0,
            overlap_detector matches Some(o) ==> o.wf(),
        ensures
            r.wf(),
            r@.tse is Some <==> tse_stage is Some,
            tse_stage matches Some(t) ==> r@.tse == Some(t@),
            r@.dfn3 is Some <==> dfn3_stream is Some,
            r@.detector is Some <==> overlap_detector is Some,
            overlap_detector matches Some(o) ==> r@.detector == Some(o@),
            dfn3_stream matches Some(d) ==> r@.dfn3 == Some(d@),
            r@.gains.len() == 0,
            r@.raws.len() == 0,
            r@.hold.mode == ChainMode::Solo,
            lawful::<N>() ==> r@.hold.above_ms == num::<N>(0) && r@.hold.below_ms == num::<N>(0),
    {
        Chain {
            tse_stage,
            dfn3_stream,
            overlap_detector,
            pending_gain: VecDeque::new(),
            pending_raw: VecDeque::new(),
            mode: ChainMode::Solo,
            overlap_above_ms: N::from(0u16),
            overlap_below_ms: N::from(0u16),
        }
    }

    /// Gives the extraction stage back.
    pub fn into_tse(self) -> (r: Option<TseStage<N>>)
        ensures
            r is Some <==> self@.tse is Some,
            r matches Some(t) ==> self@.tse == Some(t@),
    {
        self.tse_stage
    }

    /// The mode of an adaptive chain.
    pub fn mode(&self) -> (r: ChainMode)
        ensures
            r == self@.hold.mode,
    {
        self.mode
    }

    /// Whether anything stands between gate and output.
    pub fn is_active(&self) -> (r: bool)
        ensures
            r == self@.active(),
    {
        self.tse_stage.is_some() || self.dfn3_stream.is_some()
    }

    /// Whether the detector chooses between the two stages.
    pub fn is_adaptive(&self) -> (r: bool)
        ensures
            r == self@.adaptive(),
    {
        self.overlap_detector.is_some() && self.tse_stage.is_some() && self.dfn3_stream.is_some()
    }

    /// Whether extraction is part of the chain.
    pub fn has_tse(&self) -> (r: bool)
        ensures
            r == (self@.tse is Some),
    {
        self.tse_stage.is_some()
    }

    /// Drops everything held back and lets the stages start afresh.
    pub fn reset<F: Fn(Memory)>(&mut self, forget: &F)
        requires
            old(self).sound(),
            forall|m: Memory| call_requires(*forget, (m,)),
        ensures
            final(self).wf(),
            is_started_afresh(old(self)@, final(self)@),
            final(self)@.hold == old(self)@.hold,
            old(self)@.dfn3 is Some ==> call_ensures(*forget, (Memory::Enhancer,), ()),
    {
        let stage: Option<TseStage<N>> = self.tse_stage.take();
        if let Some(mut s) = stage {
            s.reset();
            self.tse_stage = Some(s);
        }
        let stream: Option<Dfn3Streamer<N>> = self.dfn3_stream.take();
        if let Some(mut d) = stream {
            d.reset();
            forget(Memory::Enhancer);
            self.dfn3_stream = Some(d);
        }
        self.pending_gain.clear();
        self.pending_raw.clear();
    }

    /// Gives extraction a new conditioning embedding, if it is in use.
    pub fn set_cond_embedding(&mut self, cond: &[N]) -> (r: Result<(), TseStageError>)
        requires
            old(self).sound(),
        ensures
            final(self).sound(),
            old(self).wf() ==> final(self).wf(),
            final(self)@.tse is Some <==> old(self)@.tse is Some,
            final(self)@ == (ChainView { tse: final(self)@.tse, ..old(self)@ }),
            old(self)@.tse is None ==> r is Ok,
            old(self)@.tse matches Some(t) ==> {
                &&& r is Ok <==> cond@.len() == crate::tse::TSE_COND_DIM
                &&& final(self)@.tse == Some(
                    if r is Ok {
                        StageView { cond: cond@, ..t }
                    } else {
                        t
                    },
                )
                &&& r matches Err(e) ==> e == (TseStageError::InvalidCondLength {
                    got: cond@.len() as usize,
                    expected: crate::tse::TSE_COND_DIM,
                })
            },
    {
        let stage: Option<TseStage<N>> = self.tse_stage.take();
        match stage {
            None => Ok(()),
            Some(mut s) => {
                let r: Result<(), TseStageError> = s.set_cond_embedding(cond);
                self.tse_stage = Some(s);
                r
            },
        }
    }

    /// Takes a verdict of the detector into account. When the mode flips, both
    /// stages and the queues start afresh.
    pub fn note_overlap<F: Fn(Memory)>(
        &mut self,
        mean_overlap_prob: N,
        cadence_ms: N,
        config: &StreamingConfig<N>,
        forget: &F,
    )
        requires
            old(self).sound(),
            forall|m: Memory| call_requires(*forget, (m,)),
            total::<N>() || lawful::<N>() && old(self)@.hold.above_ms.add_req(cadence_ms) && old(
                self)@.hold.below_ms.add_req(cadence_ms),
        ensures
            final(self).sound(),
            old(self).wf() ==> final(self).wf(),
            final(self)@.detector == old(self)@.detector,
            final(self)@.tse is Some <==> old(self)@.tse is Some,
            final(self)@.dfn3 is Some <==> old(self)@.dfn3 is Some,
            lawful::<N>() ==> final(self)@.hold == held(
                old(self)@.hold,
                mean_overlap_prob,
                cadence_ms,
                config.overlap_threshold,
                config.overlap_hold_on_ms,
                config.overlap_hold_off_ms,
            ),
            final(self)@.hold.mode == old(self)@.hold.mode ==> final(self)@ == (ChainView {
                hold: final(self)@.hold,
                ..old(self)@
            }),
            final(self)@.hold.mode != old(self)@.hold.mode ==> {
                &&& is_started_afresh(old(self)@, final(self)@)
                &&& old(self)@.dfn3 is Some ==> call_ensures(*forget, (Memory::Enhancer,), ())
            },
    {
        if mean_overlap_prob >= config.overlap_threshold {
            self.overlap_above_ms = self.overlap_above_ms + cadence_ms;
            self.overlap_below_ms = N::from(0u16);
        } else {
            self.overlap_below_ms = self.overlap_below_ms + cadence_ms;
            self.overlap_above_ms = N::from(0u16);
        }
        let flips: bool = match self.mode {
            ChainMode::Solo => self.overlap_above_ms >= config.overlap_hold_on_ms,
            ChainMode::Overlap => self.overlap_below_ms >= config.overlap_hold_off_ms,
        };
        if flips {
            self.mode = match self.mode {
                ChainMode::Solo => ChainMode::Overlap,
                ChainMode::Overlap => ChainMode::Solo,
            };
            self.reset(forget);
            self.overlap_above_ms = N::from(0u16);
            self.overlap_below_ms = N::from(0u16);
        }
    }

    /// Lets the detector hear a decision frame and follows its verdict, if it
    /// gives one.
    pub fn update_chain_mode<
        O: Fn(&Vec<N>) -> Result<OverlapReply<N>, EmbeddingError>,
        E: Fn(N) -> N,
        F: Fn(Memory),
    >(
        &mut self,
        decision_frame: &[N],
        config: &StreamingConfig<N>,
        infer: &O,
        exp: &E,
        forget: &F,
    ) -> (r: Result<(), PipelineError>)
        requires
            forall|m: Memory| call_requires(*forget, (m,)),
            old(self).sound(),
            total::<N>(),
            forall|v: &Vec<N>| call_requires(*infer, (v,)),
            forall|y: N| call_requires(*exp, (y,)),
        ensures
            final(self).sound(),
            old(self).wf() ==> final(self).wf(),
            match old(self)@.detector {
                None => r is Ok && final(self)@ == old(self)@,
                Some(d) => is_guided(
                    old(self)@,
                    listened(d, decision_frame@),
                    *config,
                    *infer,
                    *exp,
                    *forget,
                    final(self)@,
                    r,
                ),
            },
    {
        let detector: Option<OverlapDetector<N>> = self.overlap_detector.take();
        match detector {
            None => Ok(()),
            Some(mut d) => {
                let verdict: Result<Option<OverlapDecision<N>>, EmbeddingError> = d.push(
                    decision_frame,
                    infer,
                    exp,
                );
                let cadence: N = d.cadence_ms();
                let ghost heard_by = d@;
                self.overlap_detector = Some(d);
                match verdict {
                    Err(e) => Err(PipelineError::Embedding(e)),
                    Ok(None) => Ok(()),
                    Ok(Some(decision)) => {
                        self.note_overlap(decision.mean_overlap_prob, cadence, config, forget);
                        proof {
                            assert(guides(
                                old(self)@,
                                heard_by,
                                decision,
                                cadence,
                                *config,
                                *infer,
                                *exp,
                                *forget,
                                self@,
                            ));
                        }
                        Ok(())
                    },
                }
            },
        }
    }

    /// Sends a chunk with its gains through the stages and returns what comes
    /// out, at its level and times its gain. Samples without a queued gain, which
    /// silence padded behind a failed end of stream leaves, are dropped.
    pub fn route<
        M: Fn(&[N], &[N], &Vec<Tensor<N>>) -> Result<TseReply<N>, TseError>,
        D: Fn(&Vec<N>) -> Result<Vec<N>, EmbeddingError>,
        Q: Fn(N) -> N,
        P: Fn(N) -> N,
        T: Fn(N) -> N,
    >(
        &mut self,
        audio_chunk: &[N],
        gain: &[N],
        config: &StreamingConfig<N>,
        run: &M,
        enhance: &D,
        sqrt: &Q,
        pow10: &P,
        tanh: &T,
    ) -> (r: Result<Vec<N>, PipelineError>)
        requires
            old(self).sound(),
            old(self)@.active(),
            total::<N>(),
            audio_chunk@.len() == gain@.len(),
            fills_its_label(*run),
            returns_chunks(*enhance),
            forall|a: &[N], b: &[N], c: &Vec<Tensor<N>>| call_requires(*run, (a, b, c)),
            forall|v: &Vec<N>| call_requires(*enhance, (v,)),
            forall|x: N| call_requires(*sqrt, (x,)),
            forall|x: N| call_requires(*pow10, (x,)),
            forall|x: N| call_requires(*tanh, (x,)),
        ensures
            r matches Err(e) ==> e is TseStage || e is Embedding,
            final(self).sound(),
            old(self).wf() && r is Ok ==> final(self).wf(),
            final(self)@.hold == old(self)@.hold,
            final(self)@.detector == old(self)@.detector,
            final(self)@.tse is Some <==> old(self)@.tse is Some,
            final(self)@.dfn3 is Some <==> old(self)@.dfn3 is Some,
            old(self).wf() ==> (r matches Ok(out) ==> out@.len() + final(self)@.held_back()
                == old(self)@.held_back() + audio_chunk@.len()),
            match r {
                Ok(out) => lawful::<N>() ==> is_routed(
                    old(self)@,
                    audio_chunk@,
                    gain@,
                    *config,
                    *run,
                    *enhance,
                    *sqrt,
                    *pow10,
                    *tanh,
                    final(self)@,
                    out@,
                ),
                Err(e) => is_route_failure(
                    old(self)@,
                    audio_chunk@,
                    gain@,
                    *run,
                    *enhance,
                    final(self)@,
                    e,
                ),
            },
    {
        extend(&mut self.pending_gain, gain);
        extend(&mut self.pending_raw, audio_chunk);
        let input: Vec<N> = add_dither(audio_chunk);
        let cooked: Vec<N> = match self.cook(input, run, enhance) {
            Err(e) => {
                return Err(e);
            },
            Ok(v) => v,
        };
        let mut cooked: Vec<N> = cooked;
        let ghost given = cooked@;
        if cooked.len() > self.pending_gain.len() {
            cooked.truncate(self.pending_gain.len());
        }
        let n: usize = cooked.len();
        let mode: ChainMode = self.mode;
        let solo: N = gain_factor(config.makeup_gain_db_solo, pow10);
        let overlap: N = gain_factor(config.makeup_gain_db_overlap, pow10);
        let gains: Vec<N> = take_front(&mut self.pending_gain, n);
        let raws: Vec<N> = take_front(&mut self.pending_raw, n);
        let level: N = match mode {
            ChainMode::Solo => N::from(1u16),
            ChainMode::Overlap => if config.overlap_rms_match && n > 0 {
                level_match(&raws, &cooked, config.overlap_rms_match_max_gain_db, sqrt, pow10)
            } else {
                N::from(1u16)
            },
        };
        let alpha: N = clamp_share(config.overlap_wet_dry_alpha);
        let m: Mix<N> = Mix {
            mode,
            solo,
            level,
            overlap,
            alpha,
            soft_clip: config.chain_soft_clip,
        };
        let mut out: Vec<N> = Vec::new();
        let mut i: usize = 0;
        while i < n
            invariant
                total::<N>(),
                i <= n,
                n == cooked@.len(),
                n == gains@.len(),
                n == raws@.len(),
                out@.len() == i,
                forall|x: N| call_requires(*tanh, (x,)),
                lawful::<N>() ==> forall|j: int|
                    0 <= j < i ==> is_mixed(
                        cooked@[j],
                        raws@[j],
                        gains@[j],
                        m,
                        *tanh,
                        #[trigger] out@[j],
                    ),
            decreases n - i,
        {
            let y: N = mix_sample(cooked[i], raws[i], gains[i], &m, tanh);
            out.push(y);
            i = i + 1;
        }
        proof {
            if lawful::<N>() {
                let before = old(self)@;
                assert(is_staged(
                    before.stages(),
                    dithered(audio_chunk@),
                    *run,
                    *enhance,
                    self@.stages(),
                    given,
                ));
                assert(cooked@ =~= given.take(n as int));
                assert(is_mix(mode, raws@, cooked@, *config, *sqrt, *pow10, m));
                assert(self@.gains =~= (before.gains + gain@).skip(n as int));
                assert(self@.raws =~= (before.raws + audio_chunk@).skip(n as int));
                assert forall|j: int| 0 <= j < n implies is_mixed(
                    cooked@[j],
                    (before.raws + audio_chunk@)[j],
                    (before.gains + gain@)[j],
                    m,
                    *tanh,
                    #[trigger] out@[j],
                ) by {
                    assert(gains@[j] == (before.gains + gain@)[j]);
                    assert(raws@[j] == (before.raws + audio_chunk@)[j]);
                }
                assert(raws@ =~= (before.raws + audio_chunk@).take(n as int));
            }
        }
        Ok(out)
    }

    /// Runs the stages on a chunk whose gains are already queued.
    fn cook<
        M: Fn(&[N], &[N], &Vec<Tensor<N>>) -> Result<TseReply<N>, TseError>,
        D: Fn(&Vec<N>) -> Result<Vec<N>, EmbeddingError>,
    >(&mut self, input: Vec<N>, run: &M, enhance: &D) -> (r: Result<Vec<N>, PipelineError>)
        requires
            old(self).sound(),
            fills_its_label(*run),
            returns_chunks(*enhance),
            forall|a: &[N], b: &[N], c: &Vec<Tensor<N>>| call_requires(*run, (a, b, c)),
            forall|v: &Vec<N>| call_requires(*enhance, (v,)),
        ensures
            final(self).sound(),
            final(self)@ == (ChainView {
                tse: final(self)@.tse,
                dfn3: final(self)@.dfn3,
                ..old(self)@
            }),
            final(self)@.tse is Some <==> old(self)@.tse is Some,
            final(self)@.dfn3 is Some <==> old(self)@.dfn3 is Some,
            r matches Ok(out) ==> {
                &&& out@.len() + final(self)@.held_back() == old(self)@.held_back() + input@.len()
                &&& (old(self)@.dfn3 matches Some(d) ==> d.len() < SAMPLES_PER_CHUNK) ==> (final(
                    self)@.dfn3 matches Some(d) ==> d.len() < SAMPLES_PER_CHUNK)
                &&& is_staged(
                    old(self)@.stages(),
                    input@,
                    *run,
                    *enhance,
                    final(self)@.stages(),
                    out@,
                )
            },
            r matches Err(e) ==> is_failure(
                old(self)@.stages(),
                input@,
                *run,
                *enhance,
                final(self)@.stages(),
                e,
            ),
    {
        let adaptive: bool = self.is_adaptive();
        let ghost fed = input@;
        let ghost before = self@.stages();
        let skip_tse: bool = self.tse_stage.is_none() || (adaptive && self.mode
            == ChainMode::Solo);
        let mid: Vec<N> = if skip_tse {
            input
        } else {
            let stage: Option<TseStage<N>> = self.tse_stage.take();
            match stage {
                None => input,
                Some(mut s) => {
                    proof {
                        s.lemma_stage_bounds();
                    }
                    let fed_back: Result<Vec<N>, TseStageError> = s.process(
                        input.as_slice(),
                        run,
                    );
                    let ghost after_view = s@;
                    self.tse_stage = Some(s);
                    match fed_back {
                        Err(e) => {
                            assert(is_fed(
                                before.tse->0,
                                fed,
                                *run,
                                after_view,
                                Err::<Vec<N>, TseStageError>(e),
                            ));
                            return Err(PipelineError::TseStage(e));
                        },
                        Ok(v) => {
                            proof {
                                lemma_feed_conserves(before.tse->0, fed, *run, after_view, v);
                            }
                            v
                        },
                    }
                },
            }
        };
        let ghost tse_after = self@.tse;
        let skip_dfn3: bool = self.dfn3_stream.is_none() || (adaptive && self.mode
            == ChainMode::Overlap);
        if skip_dfn3 {
            proof {
                assert(is_extracted(before, fed, *run, self@.stages(), mid));
                assert(is_suppressed(before, mid@, *enhance, self@.stages(), mid@));
            }
            return Ok(mid);
        }
        let stream: Option<Dfn3Streamer<N>> = self.dfn3_stream.take();
        match stream {
            None => Ok(mid),
            Some(mut d) => {
                let pushed: Result<Vec<N>, EmbeddingError> = d.push_samples(
                    mid.as_slice(),
                    enhance,
                );
                let ghost after_view = d@;
                self.dfn3_stream = Some(d);
                match pushed {
                    Err(e) => {
                        proof {
                            assert(self@.tse == tse_after);
                            assert(is_extracted(before, fed, *run, self@.stages(), mid));
                            assert(is_pushed(before.dfn3->0, mid@, *enhance, after_view, pushed));
                        }
                        Err(PipelineError::Embedding(e))
                    },
                    Ok(v) => {
                        proof {
                            lemma_push_conserves(before.dfn3->0, mid@, *enhance, after_view, v);
                            assert(is_extracted(before, fed, *run, self@.stages(), mid));
                            assert(is_pushed(
                                before.dfn3->0,
                                mid@,
                                *enhance,
                                self@.stages().dfn3->0,
                                Ok(v),
                            ));
                            assert(is_suppressed(before, mid@, *enhance, self@.stages(), v@));
                        }
                        Ok(v)
                    },
                }
            },
        }
    }

    /// Empties the stages at the end of a stream: what they hold back, padded
    /// with silence, times the gains that are queued for it. Nothing when
    /// nothing is queued.
    pub fn drain_tail<
        M: Fn(&[N], &[N], &Vec<Tensor<N>>) -> Result<TseReply<N>, TseError>,
        D: Fn(&Vec<N>) -> Result<Vec<N>, EmbeddingError>,
    >(&mut self, run: &M, enhance: &D) -> (r: Result<Option<Vec<N>>, PipelineError>)
        requires
            old(self).sound(),
            total::<N>(),
            fills_its_label(*run),
            returns_chunks(*enhance),
            forall|a: &[N], b: &[N], c: &Vec<Tensor<N>>| call_requires(*run, (a, b, c)),
            forall|v: &Vec<N>| call_requires(*enhance, (v,)),
        ensures
            final(self).sound(),
            old(self).wf() && r is Ok ==> final(self).wf(),
            old(self)@.gains.len() > 0 && r is Ok ==> final(self).wf(),
            final(self)@.hold == old(self)@.hold,
            final(self)@.detector == old(self)@.detector,
            final(self)@.tse is Some <==> old(self)@.tse is Some,
            final(self)@.dfn3 is Some <==> old(self)@.dfn3 is Some,
            old(self)@.gains.len() == 0 ==> r == Ok::<Option<Vec<N>>, PipelineError>(None)
                && final(self)@ == old(self)@,
            old(self)@.gains.len() > 0 ==> match r {
                Ok(None) => false,
                Ok(Some(out)) => {
                    &&& old(self).wf() ==> out@.len() == old(self)@.gains.len()
                    &&& final(self)@ == (ChainView {
                        tse: final(self)@.tse,
                        dfn3: final(self)@.dfn3,
                        gains: Seq::empty(),
                        raws: Seq::empty(),
                        ..old(self)@
                    })
                    &&& final(self)@.held_back() == 0
                    &&& exists|tail: Seq<N>|
                        {
                            &&& #[trigger] is_tail(
                                old(self)@.stages(),
                                *run,
                                *enhance,
                                final(self)@.stages(),
                                tail,
                            )
                            &&& out@.len() == lesser(tail.len(), old(self)@.gains.len())
                            &&& lawful::<N>() ==> forall|i: int|
                                0 <= i < out@.len() ==> #[trigger] out@[i] == tail[i].mul_spec(
                                    old(self)@.gains[i],
                                )
                        }
                },
                Err(e) => {
                    &&& final(self)@ == (ChainView {
                        tse: final(self)@.tse,
                        dfn3: final(self)@.dfn3,
                        ..old(self)@
                    })
                    &&& is_tail_failure(
                        old(self)@.stages(),
                        *run,
                        *enhance,
                        final(self)@.stages(),
                        e,
                    )
                },
            },
    {
        if self.pending_gain.len() == 0 {
            return Ok(None);
        }
        let ghost before = self@.stages();
        let tse_tail: Vec<N> = match self.flush_tse(run) {
            Err(e) => {
                return Err(e);
            },
            Ok(v) => v,
        };
        let ghost tse_after = self@.tse;
        let tail: Vec<N> = match self.flush_dfn3(tse_tail, enhance) {
            Err(e) => {
                assert(is_tse_tail(before.tse, *run, tse_after, tse_tail));
                return Err(e);
            },
            Ok(v) => v,
        };
        proof {
            assert(is_tse_tail(before.tse, *run, tse_after, tse_tail));
            assert(is_tail(before, *run, *enhance, self@.stages(), tail@));
            assert(tail@.len() >= old(self)@.held_back());
        }
        let queued: usize = self.pending_gain.len();
        let n: usize = if tail.len() < queued {
            tail.len()
        } else {
            queued
        };
        let gains: Vec<N> = take_front(&mut self.pending_gain, n);
        let ghost emptied = self@.stages();
        self.pending_gain.clear();
        self.pending_raw.clear();
        proof {
            assert(self@.stages() == emptied);
            assert(self@.gains =~= Seq::<N>::empty());
            assert(self@.raws =~= Seq::<N>::empty());
        }
        let mut out: Vec<N> = Vec::new();
        let mut i: usize = 0;
        while i < n
            invariant
                total::<N>(),
                i <= n,
                n == gains@.len(),
                n <= tail@.len(),
                out@.len() == i,
                lawful::<N>() ==> forall|j: int|
                    0 <= j < i ==> #[trigger] out@[j] == tail@[j].mul_spec(gains@[j]),
            decreases n - i,
        {
            let x: N = tail[i];
            let g: N = gains[i];
            out.push(x * g);
            i = i + 1;
        }
        Ok(Some(out))
    }

    fn flush_tse<M: Fn(&[N], &[N], &Vec<Tensor<N>>) -> Result<TseReply<N>, TseError>>(
        &mut self,
        run: &M,
    ) -> (r: Result<Vec<N>, PipelineError>)
        requires
            old(self).sound(),
            fills_its_label(*run),
            forall|a: &[N], b: &[N], c: &Vec<Tensor<N>>| call_requires(*run, (a, b, c)),
        ensures
            final(self).sound(),
            final(self)@ == (ChainView { tse: final(self)@.tse, ..old(self)@ }),
            final(self)@.tse is Some <==> old(self)@.tse is Some,
            match r {
                Ok(out) => {
                    &&& is_tse_tail(old(self)@.tse, *run, final(self)@.tse, out)
                    &&& final(self)@.tse matches Some(t) ==> t.pending.len() == 0
                    &&& old(self)@.tse matches Some(t) ==> out@.len() >= t.pending.len()
                },
                Err(e) => e matches PipelineError::TseStage(cause) && is_tse_tail_failure(
                    old(self)@.tse,
                    *run,
                    final(self)@.tse,
                    cause,
                ),
            },
    {
        let stage: Option<TseStage<N>> = self.tse_stage.take();
        match stage {
            None => Ok(Vec::new()),
            Some(mut s) => {
                proof {
                    s.lemma_stage_bounds();
                }
                let ghost t = s@;
                let flushed: Result<Vec<N>, TseStageError> = s.flush(run);
                let ghost after = s@;
                self.tse_stage = Some(s);
                match flushed {
                    Err(e) => Err(PipelineError::TseStage(e)),
                    Ok(v) => Ok(v),
                }
            },
        }
    }

    fn flush_dfn3<D: Fn(&Vec<N>) -> Result<Vec<N>, EmbeddingError>>(
        &mut self,
        tse_tail: Vec<N>,
        enhance: &D,
    ) -> (r: Result<Vec<N>, PipelineError>)
        requires
            old(self).sound(),
            returns_chunks(*enhance),
            forall|v: &Vec<N>| call_requires(*enhance, (v,)),
        ensures
            final(self).sound(),
            final(self)@ == (ChainView { dfn3: final(self)@.dfn3, ..old(self)@ }),
            final(self)@.dfn3 is Some <==> old(self)@.dfn3 is Some,
            match r {
                Ok(out) => {
                    &&& is_dfn3_tail(
                        old(self)@.dfn3,
                        tse_tail@,
                        *enhance,
                        final(self)@.dfn3,
                        out@,
                    )
                    &&& final(self)@.dfn3 matches Some(d) ==> d.len() == 0
                    &&& match old(self)@.dfn3 {
                        Some(d) => out@.len() >= d.len() + tse_tail@.len(),
                        None => out@ == tse_tail@,
                    }
                },
                Err(e) => e matches PipelineError::Embedding(cause) && is_dfn3_tail_failure(
                    old(self)@.dfn3,
                    tse_tail@,
                    *enhance,
                    final(self)@.dfn3,
                    cause,
                ),
            },
    {
        let stream: Option<Dfn3Streamer<N>> = self.dfn3_stream.take();
        match stream {
            None => Ok(tse_tail),
            Some(mut d) => {
                let ghost d0 = d@;
                assert(old(self)@.dfn3 == Some(d0));
                let pushed: Result<Vec<N>, EmbeddingError> = d.push_samples(
                    tse_tail.as_slice(),
                    enhance,
                );
                assert(is_pushed(d0, tse_tail@, *enhance, d@, pushed));
                let mut tail: Vec<N> = match pushed {
                    Err(e) => {
                        self.dfn3_stream = Some(d);
                        return Err(PipelineError::Embedding(e));
                    },
                    Ok(v) => {
                        proof {
                            lemma_push_conserves(d0, tse_tail@, *enhance, d@, v);
                        }
                        v
                    },
                };
                let ghost d1 = d@;
                let flushed: Result<Vec<N>, EmbeddingError> = d.flush(enhance);
                self.dfn3_stream = Some(d);
                match flushed {
                    Err(e) => {
                        proof {
                            assert(is_pushed(d0, tse_tail@, *enhance, d1, pushed));
                            let chunk = choose|chunk: Seq<N>| #[trigger]
                                is_padded(d1, SAMPLES_PER_CHUNK as nat, chunk) && enhanced_as(
                                    chunk,
                                    *enhance,
                                    flushed,
                                );
                            assert(is_padded(d1, SAMPLES_PER_CHUNK as nat, chunk));
                        }
                        Err(PipelineError::Embedding(e))
                    },
                    Ok(rest) => {
                        let ghost first_vec = tail;
                        append_samples(&mut tail, rest.as_slice(), 0, rest.len());
                        proof {
                            assert(rest@.subrange(0, rest@.len() as int) =~= rest@);
                            assert(is_pushed(d0, tse_tail@, *enhance, d1, pushed));
                            assert(is_last_tail(d1, *enhance, rest));
                            assert(self@.dfn3->0 =~= Seq::<N>::empty());
                            assert(tail@ =~= first_vec@ + rest@);
                        }
                        Ok(tail)
                    },
                }
            },
        }
    }
}

/// What extraction gives when it is emptied: its pending samples, padded with
/// silence to a chunk and processed.
pub open spec fn is_tse_tail<
    N: Scalar,
    M: Fn(&[N], &[N], &Vec<Tensor<N>>) -> Result<TseReply<N>, TseError>,
>(tse: Option<StageView<N>>, run: M, after: Option<StageView<N>>, out: Vec<N>) -> bool {
    match tse {
        None => after is None && out@.len() == 0,
        Some(t) => if t.pending.len() == 0 {
            after == tse && out@.len() == 0
        } else {
            &&& after matches Some(a)
            &&& a == (StageView { carried: a.carried, pending: Seq::empty(), ..t })
            &&& exists|padded: Seq<N>| #[trigger]
                is_padded(t.pending, t.chunk, padded) && stepped(
                    t.model,
                    t.carried,
                    padded,
                    t.cond,
                    run,
                    a.carried,
                    Ok(out),
                )
        },
    }
}

/// What noise suppression gives for the samples that are left, padded with
/// silence to a chunk.
pub open spec fn is_last_tail<N: Scalar, D: Fn(&Vec<N>) -> Result<Vec<N>, EmbeddingError>>(
    pending: Seq<N>,
    enhance: D,
    out: Vec<N>,
) -> bool {
    if pending.len() == 0 {
        out@.len() == 0
    } else {
        exists|chunk: Seq<N>| #[trigger]
            is_padded(pending, SAMPLES_PER_CHUNK as nat, chunk) && enhanced_as(
                chunk,
                enhance,
                Ok(out),
            )
    }
}

/// What noise suppression gives when it is emptied behind `input`.
pub open spec fn is_dfn3_tail<N: Scalar, D: Fn(&Vec<N>) -> Result<Vec<N>, EmbeddingError>>(
    dfn3: Option<Seq<N>>,
    input: Seq<N>,
    enhance: D,
    after: Option<Seq<N>>,
    out: Seq<N>,
) -> bool {
    match dfn3 {
        None => after is None && out == input,
        Some(pending) => {
            &&& after == Some(Seq::<N>::empty())
            &&& exists|
                between: Seq<N>,
                pushed: Result<Vec<N>, EmbeddingError>,
                last: Vec<N>,
            |
                {
                    &&& #[trigger] is_pushed(pending, input, enhance, between, pushed)
                    &&& #[trigger] is_last_tail(between, enhance, last)
                    &&& pushed matches Ok(first)
                    &&& out == first@ + last@
                }
        },
    }
}

/// Extraction fails on its pending samples, padded with silence to a chunk.
pub open spec fn is_tse_tail_failure<
    N: Scalar,
    M: Fn(&[N], &[N], &Vec<Tensor<N>>) -> Result<TseReply<N>, TseError>,
>(tse: Option<StageView<N>>, run: M, after: Option<StageView<N>>, e: TseStageError) -> bool {
    &&& tse matches Some(t)
    &&& t.pending.len() > 0
    &&& after matches Some(a)
    &&& e matches TseStageError::Tse(cause)
    &&& is_padded(t.pending, t.chunk, a.pending)
    &&& a == (StageView { carried: a.carried, pending: a.pending, ..t })
    &&& stepped(
        t.model,
        t.carried,
        a.pending,
        t.cond,
        run,
        a.carried,
        Err::<Vec<N>, TseError>(cause),
    )
}

/// Noise suppression fails on the end of its input, or on what is then left.
pub open spec fn is_dfn3_tail_failure<N: Scalar, D: Fn(&Vec<N>) -> Result<Vec<N>, EmbeddingError>>(
    dfn3: Option<Seq<N>>,
    input: Seq<N>,
    enhance: D,
    after: Option<Seq<N>>,
    e: EmbeddingError,
) -> bool {
    &&& dfn3 matches Some(pending)
    &&& after matches Some(rest)
    &&& {
        ||| is_pushed(pending, input, enhance, rest, Err::<Vec<N>, EmbeddingError>(e))
        ||| rest.len() == 0 && exists|
            between: Seq<N>,
            pushed: Result<Vec<N>, EmbeddingError>,
            chunk: Seq<N>,
        |
            {
                &&& #[trigger] is_pushed(pending, input, enhance, between, pushed)
                &&& pushed is Ok
                &&& #[trigger] is_padded(between, SAMPLES_PER_CHUNK as nat, chunk)
                &&& enhanced_as(chunk, enhance, Err::<Vec<N>, EmbeddingError>(e))
            }
    }
}

/// A stage fails while the chain is emptied, and leaves the stages like that.
pub open spec fn is_tail_failure<
    N: Scalar,
    M: Fn(&[N], &[N], &Vec<Tensor<N>>) -> Result<TseReply<N>, TseError>,
    D: Fn(&Vec<N>) -> Result<Vec<N>, EmbeddingError>,
>(before: Stages<N>, run: M, enhance: D, after: Stages<N>, e: PipelineError) -> bool {
    &&& after == (Stages { tse: after.tse, dfn3: after.dfn3, ..before })
    &&& match e {
        PipelineError::TseStage(cause) => {
            &&& is_tse_tail_failure(before.tse, run, after.tse, cause)
            &&& after.dfn3 == before.dfn3
        },
        PipelineError::Embedding(cause) => exists|mid: Vec<N>| #[trigger]
            is_tse_tail(before.tse, run, after.tse, mid) && is_dfn3_tail_failure(
                before.dfn3,
                mid@,
                enhance,
                after.dfn3,
                cause,
            ),
        _ => false,
    }
}

/// What the stages give when they are emptied, extraction first.
pub open spec fn is_tail<
    N: Scalar,
    M: Fn(&[N], &[N], &Vec<Tensor<N>>) -> Result<TseReply<N>, TseError>,
    D: Fn(&Vec<N>) -> Result<Vec<N>, EmbeddingError>,
>(before: Stages<N>, run: M, enhance: D, after: Stages<N>, out: Seq<N>) -> bool {
    &&& after == (Stages { tse: after.tse, dfn3: after.dfn3, ..before })
    &&& exists|mid: Vec<N>| #[trigger]
        is_tse_tail(before.tse, run, after.tse, mid) && is_dfn3_tail(
            before.dfn3,
            mid@,
            enhance,
            after.dfn3,
            out,
        )
}

/// The chain followed a verdict of its detector: the mode as the hold times
/// say, and a fresh start when it flips.
pub open spec fn follows<N: Scalar, F: Fn(Memory)>(
    before: ChainView<N>,
    d: OverlapDecision<N>,
    cadence: N,
    config: StreamingConfig<N>,
    forget: F,
    after: ChainView<N>,
) -> bool {
    &&& after.detector == before.detector
    &&& after.tse is Some <==> before.tse is Some
    &&& after.dfn3 is Some <==> before.dfn3 is Some
    &&& lawful::<N>() ==> after.hold == held(
        before.hold,
        d.mean_overlap_prob,
        cadence,
        config.overlap_threshold,
        config.overlap_hold_on_ms,
        config.overlap_hold_off_ms,
    )
    &&& after.hold.mode == before.hold.mode ==> after == (ChainView { hold: after.hold, ..before })
    &&& after.hold.mode != before.hold.mode ==> {
        &&& is_started_afresh(before, after)
        &&& before.dfn3 is Some ==> call_ensures(forget, (Memory::Enhancer,), ())
    }
}

/// The detector, as it is once it has run, gave that verdict, and the chain
/// followed it.
pub open spec fn guides<
    N: Scalar,
    O: Fn(&Vec<N>) -> Result<OverlapReply<N>, EmbeddingError>,
    E: Fn(N) -> N,
    F: Fn(Memory),
>(
    before: ChainView<N>,
    detector: DetectorView<N>,
    d: OverlapDecision<N>,
    cadence: N,
    config: StreamingConfig<N>,
    infer: O,
    exp: E,
    forget: F,
    after: ChainView<N>,
) -> bool {
    &&& is_verdict(detector.window, infer, exp, Ok(d))
    &&& lawful::<N>() ==> cadence == cadence_in_ms::<N>(detector.cadence)
    &&& follows(
        ChainView { detector: Some(detector), ..before },
        d,
        cadence,
        config,
        forget,
        after,
    )
}

/// The chain after its detector, now `heard`, was asked: nothing changes while
/// no inference is due, and after a failed one; otherwise the chain follows the
/// verdict.
pub open spec fn is_guided<
    N: Scalar,
    O: Fn(&Vec<N>) -> Result<OverlapReply<N>, EmbeddingError>,
    E: Fn(N) -> N,
    F: Fn(Memory),
>(
    before: ChainView<N>,
    heard: DetectorView<N>,
    config: StreamingConfig<N>,
    infer: O,
    exp: E,
    forget: F,
    after: ChainView<N>,
    r: Result<(), PipelineError>,
) -> bool {
    if !due(heard) {
        r is Ok && after == (ChainView { detector: Some(heard), ..before })
    } else {
        let ran = DetectorView { since_last_run: 0, ..heard };
        match r {
            Ok(_) => exists|d: OverlapDecision<N>, cadence: N| #[trigger]
                guides(before, ran, d, cadence, config, infer, exp, forget, after),
            Err(e) => {
                &&& e matches PipelineError::Embedding(cause)
                &&& is_verdict(
                    ran.window,
                    infer,
                    exp,
                    Err::<OverlapDecision<N>, EmbeddingError>(cause),
                )
                &&& after == (ChainView { detector: Some(ran), ..before })
            },
        }
    }
}

/// How the output of a block is mixed, given what came out and the raw samples
/// that belong to it.
pub open spec fn is_mix<N: Scalar, Q: Fn(N) -> N, P: Fn(N) -> N>(
    mode: ChainMode,
    raw: Seq<N>,
    out: Seq<N>,
    config: StreamingConfig<N>,
    sqrt: Q,
    pow10: P,
    m: Mix<N>,
) -> bool {
    &&& m.mode == mode
    &&& is_gain(config.makeup_gain_db_solo, pow10, m.solo)
    &&& is_gain(config.makeup_gain_db_overlap, pow10, m.overlap)
    &&& if mode == ChainMode::Overlap && config.overlap_rms_match && out.len() > 0 {
        is_level_match(raw, out, config.overlap_rms_match_max_gain_db, sqrt, pow10, m.level)
    } else {
        m.level == num::<N>(1)
    }
    &&& m.alpha == clamped(config.overlap_wet_dry_alpha)
    &&& m.soft_clip == config.chain_soft_clip
}

/// A chunk with its gains went through the chain and `out` left it: the stages
/// saw the dithered chunk, and each sample that they gave is mixed with the
/// oldest raw sample and gain that are queued.
pub open spec fn is_routed<
    N: Scalar,
    M: Fn(&[N], &[N], &Vec<Tensor<N>>) -> Result<TseReply<N>, TseError>,
    D: Fn(&Vec<N>) -> Result<Vec<N>, EmbeddingError>,
    Q: Fn(N) -> N,
    P: Fn(N) -> N,
    T: Fn(N) -> N,
>(
    before: ChainView<N>,
    chunk: Seq<N>,
    gain: Seq<N>,
    config: StreamingConfig<N>,
    run: M,
    enhance: D,
    sqrt: Q,
    pow10: P,
    tanh: T,
    after: ChainView<N>,
    out: Seq<N>,
) -> bool {
    let gains = before.gains + gain;
    let raws = before.raws + chunk;
    let n = out.len() as int;
    &&& after.hold == before.hold
    &&& after.detector == before.detector
    &&& after.gains == gains.skip(n)
    &&& after.raws == raws.skip(n)
    &&& exists|cooked: Seq<N>, m: Mix<N>|
        {
            &&& n == lesser(cooked.len(), gains.len())
            &&& #[trigger] is_staged(
                before.stages(),
                dithered(chunk),
                run,
                enhance,
                after.stages(),
                cooked,
            )
            &&& #[trigger] is_mix(
                before.hold.mode,
                raws.take(n),
                cooked.take(n),
                config,
                sqrt,
                pow10,
                m,
            )
            &&& forall|i: int|
                0 <= i < n ==> is_mixed(cooked[i], raws[i], gains[i], m, tanh, #[trigger] out[i])
        }
}

/// A stage that is not skipped fails with that error, and leaves the stages like
/// that.
pub open spec fn is_failure<
    N: Scalar,
    M: Fn(&[N], &[N], &Vec<Tensor<N>>) -> Result<TseReply<N>, TseError>,
    D: Fn(&Vec<N>) -> Result<Vec<N>, EmbeddingError>,
>(
    before: Stages<N>,
    input: Seq<N>,
    run: M,
    enhance: D,
    after: Stages<N>,
    e: PipelineError,
) -> bool {
    match e {
        PipelineError::TseStage(cause) => {
            &&& !skips_tse(before)
            &&& after.tse matches Some(rest)
            &&& is_fed(before.tse->0, input, run, rest, Err::<Vec<N>, TseStageError>(cause))
            &&& after == (Stages { tse: after.tse, ..before })
        },
        PipelineError::Embedding(cause) => {
            &&& !skips_dfn3(before)
            &&& after.dfn3 matches Some(rest)
            &&& after == (Stages { tse: after.tse, dfn3: after.dfn3, ..before })
            &&& exists|mid: Vec<N>| #[trigger]
                is_extracted(before, input, run, after, mid) && is_pushed(
                    before.dfn3->0,
                    mid@,
                    enhance,
                    rest,
                    Err::<Vec<N>, EmbeddingError>(cause),
                )
        },
        _ => false,
    }
}

/// A chunk was queued with its gains, and a stage failed on it.
pub open spec fn is_route_failure<
    N: Scalar,
    M: Fn(&[N], &[N], &Vec<Tensor<N>>) -> Result<TseReply<N>, TseError>,
    D: Fn(&Vec<N>) -> Result<Vec<N>, EmbeddingError>,
>(
    before: ChainView<N>,
    chunk: Seq<N>,
    gain: Seq<N>,
    run: M,
    enhance: D,
    after: ChainView<N>,
    e: PipelineError,
) -> bool {
    &&& after == (ChainView {
        tse: after.tse,
        dfn3: after.dfn3,
        gains: before.gains + gain,
        raws: before.raws + chunk,
        ..before
    })
    &&& lawful::<N>() ==> is_failure(
        before.stages(),
        dithered(chunk),
        run,
        enhance,
        after.stages(),
        e,
    )
}

/// A share, kept between nothing and all.
pub fn clamp_share<N: Scalar>(x: N) -> (r: N)
    requires
        total::<N>() || lawful::<N>(),
    ensures
        lawful::<N>() ==> r == clamped(x),
{
    let zero: N = N::from(0u16);
    let one: N = N::from(1u16);
    if x < zero {
        zero
    } else if x > one {
        one
    } else {
        x
    }
}

} // verus!
