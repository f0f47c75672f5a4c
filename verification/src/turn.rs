//! Speaker turns, seen from the pitch match of single frames: a fast average
//! against a slow baseline decides when the embedding window shrinks and when
//! it grows back.
use crate::pipeline::PipelineConfig;
use crate::scalar::{frac, frac_fits, fraction, ge, gt, lawful, le, lt, num, total, Scalar};
use vstd::prelude::*;
use vstd::std_specs::cmp::PartialEqSpec;
use vstd::std_specs::ops::{AddSpec, MulSpec, SubSpec};

verus! {

/// Phase of the adaptive window.
#[derive(Clone, Copy, Debug, PartialEq, Eq, Structural)]
pub enum TurnState {
    /// Full window, normal cadence.
    Steady,
    /// A turn is suspect: short window, tight cadence.
    Shrunk,
    /// The window is restored; the next frame is steady again.
    Regrowing,
}

/// What an observation asks of the frame.
#[derive(Clone, Copy, Debug, PartialEq, Eq, Structural)]
pub struct TurnDecision {
    /// The window shrank on this very frame.
    pub entered_shrunk: bool,
    /// The window is short.
    pub shrunk: bool,
}

/// The turn detector.
#[derive(Clone, Copy, Debug)]
pub struct TurnDetector<N> {
    pub state: TurnState,
    /// Fast average of the pitch match.
    pub fm_fast_ema: N,
    /// Slow average, advanced while the speaker gate is open.
    pub fm_fast_baseline: N,
    /// Stable frames in a row while shrunk.
    pub turn_stable_counter: u32,
    /// The speaker gate is held closed until a refresh on the short window.
    pub offset_failclosed_active: bool,
    /// Window in force.
    pub effective_window: usize,
    /// A refresh on the short window has been made.
    pub shrunk_refresh_done: bool,
    /// The last observed frame had a pitch.
    pub had_evidence: bool,
    /// The average was well below the baseline while the speaker gate was closed.
    pub saw_low_while_off: bool,
}

/// The detector at the start.
pub open spec fn steady<N: Scalar>(window: usize) -> TurnDetector<N> {
    TurnDetector {
        state: TurnState::Steady,
        fm_fast_ema: num(0),
        fm_fast_baseline: num(0),
        turn_stable_counter: 0,
        offset_failclosed_active: false,
        effective_window: window,
        shrunk_refresh_done: false,
        had_evidence: false,
        saw_low_while_off: false,
    }
}

/// One step of an exponential average with weight `p/q` on the new value.
pub open spec fn averaged<N: Scalar>(p: u16, q: u16, new: N, old_value: N) -> N {
    frac::<N>(p, q).mul_spec(new).add_spec(
        num::<N>(1).sub_spec(frac(p, q)).mul_spec(old_value),
    )
}

/// No operation of [`averaged`] leaves the range of `N`.
pub open spec fn average_fits<N: Scalar>(p: u16, q: u16, new: N, old_value: N) -> bool {
    &&& frac_fits::<N>(p, q)
    &&& frac::<N>(p, q).mul_req(new)
    &&& num::<N>(1).sub_req(frac(p, q))
    &&& num::<N>(1).sub_spec(frac(p, q)).mul_req(old_value)
    &&& frac::<N>(p, q).mul_spec(new).add_req(
        num::<N>(1).sub_spec(frac(p, q)).mul_spec(old_value),
    )
}

fn average<N: Scalar>(p: u16, q: u16, new: N, old_value: N) -> (r: N)
    requires
        total::<N>() || lawful::<N>() && average_fits(p, q, new, old_value),
    ensures
        lawful::<N>() ==> r == averaged(p, q, new, old_value),
{
    let rate: N = fraction(p, q);
    let one: N = N::from(1u16);
    rate * new + (one - rate) * old_value
}

/// The averages are still at their start.
pub open spec fn unseeded<N: Scalar>(t: TurnDetector<N>) -> bool {
    t.fm_fast_ema.eq_spec(&num(0)) && t.fm_fast_baseline.eq_spec(&num(0))
}

/// The averages after a frame: the first pitch match seeds both, later ones
/// move the fast average by three tenths and, while the speaker gate is open, the
/// baseline by one fiftieth.
pub open spec fn followed<N: Scalar>(
    t: TurnDetector<N>,
    fm: Option<N>,
    gate_on: bool,
) -> TurnDetector<N> {
    let seen = TurnDetector { had_evidence: fm is Some, ..t };
    match fm {
        None => seen,
        Some(x) => if unseeded(t) {
            TurnDetector { fm_fast_ema: x, fm_fast_baseline: x, ..seen }
        } else {
            TurnDetector {
                fm_fast_ema: averaged(3, 10, x, t.fm_fast_ema),
                fm_fast_baseline: if gate_on {
                    averaged(1, 50, x, t.fm_fast_baseline)
                } else {
                    t.fm_fast_baseline
                },
                ..seen
            }
        },
    }
}

/// The fast average lies well below the baseline.
pub open spec fn dropped<N: Scalar>(t: TurnDetector<N>, delta: N) -> bool {
    t.had_evidence && lt(t.fm_fast_ema, t.fm_fast_baseline.sub_spec(delta))
}

/// The detector after a frame remembers a drop that happened while the speaker gate was
/// closed.
pub open spec fn remembered<N: Scalar>(
    t: TurnDetector<N>,
    gate_on: bool,
    delta: N,
) -> TurnDetector<N> {
    if !gate_on && gt(t.fm_fast_baseline, num(0)) && dropped(t, delta) {
        TurnDetector { saw_low_while_off: true, ..t }
    } else {
        t
    }
}

/// A turn away from the target is suspect: the speaker gate is open and the pitch match
/// dropped.
pub open spec fn offset_suspect<N: Scalar>(t: TurnDetector<N>, gate_on: bool, delta: N) -> bool {
    gate_on && dropped(t, delta)
}

/// A turn to the target is suspect: the speaker gate is closed, and the pitch match rose
/// back to the baseline after a drop.
pub open spec fn onset_suspect<N: Scalar>(t: TurnDetector<N>, gate_on: bool) -> bool {
    &&& !gate_on
    &&& t.had_evidence
    &&& t.saw_low_while_off
    &&& ge(t.fm_fast_ema, t.fm_fast_baseline.sub_spec(frac(1, 10)))
    &&& gt(t.fm_fast_baseline, num(0))
}

/// The fast average lies within a tenth of the baseline.
pub open spec fn settled<N: Scalar>(t: TurnDetector<N>) -> bool {
    &&& t.had_evidence
    &&& le(t.fm_fast_ema.sub_spec(t.fm_fast_baseline), frac(1, 10))
    &&& le(t.fm_fast_baseline.sub_spec(t.fm_fast_ema), frac(1, 10))
}

/// The rules of the detector.
pub struct TurnRules<N> {
    pub drop_delta: N,
    pub stable_frames: u32,
    pub window: usize,
    pub turn_window: usize,
    pub fail_closed: bool,
}

/// The phase after a frame.
pub open spec fn moved<N: Scalar>(
    t: TurnDetector<N>,
    gate_on: bool,
    rules: TurnRules<N>,
) -> TurnDetector<N> {
    match t.state {
        TurnState::Steady => {
            let offset = offset_suspect(t, gate_on, rules.drop_delta);
            if offset || onset_suspect(t, gate_on) {
                TurnDetector {
                    state: TurnState::Shrunk,
                    effective_window: rules.turn_window,
                    turn_stable_counter: 0,
                    shrunk_refresh_done: false,
                    saw_low_while_off: false,
                    offset_failclosed_active: t.offset_failclosed_active || (offset
                        && rules.fail_closed),
                    ..t
                }
            } else {
                t
            }
        },
        TurnState::Shrunk => {
            let stable: u32 = if settled(t) {
                (t.turn_stable_counter + 1) as u32
            } else {
                0
            };
            if t.shrunk_refresh_done && stable >= rules.stable_frames {
                TurnDetector {
                    state: TurnState::Regrowing,
                    effective_window: rules.window,
                    turn_stable_counter: stable,
                    ..t
                }
            } else {
                TurnDetector { turn_stable_counter: stable, ..t }
            }
        },
        TurnState::Regrowing => TurnDetector {
            state: TurnState::Steady,
            turn_stable_counter: 0,
            ..t
        },
    }
}

/// The detector after a frame of speech.
pub open spec fn observed<N: Scalar>(
    t: TurnDetector<N>,
    fm: Option<N>,
    gate_on: bool,
    rules: TurnRules<N>,
) -> TurnDetector<N> {
    moved(remembered(followed(t, fm, gate_on), gate_on, rules.drop_delta), gate_on, rules)
}

/// No operation of [`observed`] leaves the range of `N`.
pub open spec fn observe_fits<N: Scalar>(
    t: TurnDetector<N>,
    fm: Option<N>,
    gate_on: bool,
    rules: TurnRules<N>,
) -> bool {
    let s = followed(t, fm, gate_on);
    &&& frac_fits::<N>(1, 10)
    &&& fm matches Some(x) ==> unseeded(t) || average_fits(3, 10, x, t.fm_fast_ema) && (!gate_on
        || average_fits(1, 50, x, t.fm_fast_baseline))
    &&& s.fm_fast_baseline.sub_req(rules.drop_delta)
    &&& s.fm_fast_baseline.sub_req(frac(1, 10))
    &&& s.fm_fast_ema.sub_req(s.fm_fast_baseline)
    &&& s.fm_fast_baseline.sub_req(s.fm_fast_ema)
}

impl<N: Scalar> PipelineConfig<N> {
    /// The turn rules of this configuration.
    pub open spec fn turn_rules(&self) -> TurnRules<N> {
        TurnRules {
            drop_delta: self.turn_drop_delta,
            stable_frames: self.turn_stable_frames,
            window: self.sv_window_samples,
            turn_window: self.sv_turn_window_samples,
            fail_closed: self.offset_fail_closed,
        }
    }
}

impl<N: Scalar> TurnDetector<N> {
    /// A steady detector with the full window.
    pub fn new(sv_window_samples: usize) -> (r: Self)
        ensures
            r.state == TurnState::Steady,
            r.effective_window == sv_window_samples,
            !r.offset_failclosed_active,
            r.turn_stable_counter == 0,
            lawful::<N>() ==> r == steady::<N>(sv_window_samples),
    {
        TurnDetector {
            state: TurnState::Steady,
            fm_fast_ema: N::from(0u16),
            fm_fast_baseline: N::from(0u16),
            turn_stable_counter: 0,
            offset_failclosed_active: false,
            effective_window: sv_window_samples,
            shrunk_refresh_done: false,
            had_evidence: false,
            saw_low_while_off: false,
        }
    }

    /// Back to the start.
    pub fn reset(&mut self, sv_window_samples: usize)
        ensures
            final(self).state == TurnState::Steady,
            final(self).effective_window == sv_window_samples,
            !final(self).offset_failclosed_active,
            final(self).turn_stable_counter == 0,
            lawful::<N>() ==> *final(self) == steady::<N>(sv_window_samples),
    {
        *self = Self::new(sv_window_samples);
    }

    /// A refresh on the short window was made: the speaker gate is no longer held
    /// closed, and the window may grow back.
    pub fn note_refresh_completed(&mut self)
        ensures
            *final(self) == if old(self).state == TurnState::Shrunk {
                TurnDetector {
                    shrunk_refresh_done: true,
                    offset_failclosed_active: false,
                    ..*old(self)
                }
            } else {
                *old(self)
            },
    {
        if self.state == TurnState::Shrunk {
            self.shrunk_refresh_done = true;
            self.offset_failclosed_active = false;
        }
    }

    /// Observes a frame of speech: its pitch match, if it had one, and whether
    /// the speaker gate was open before it. Does nothing unless turn detection is on.
    pub fn observe(&mut self, fm_fast: Option<N>, gate_on: bool, cfg: &PipelineConfig<N>) -> (r:
        TurnDecision)
        requires
            cfg.turn_detect_enabled ==> old(self).turn_stable_counter < u32::MAX,
            !cfg.turn_detect_enabled || total::<N>() || lawful::<N>() && observe_fits(
                *old(self),
                fm_fast,
                gate_on,
                cfg.turn_rules(),
            ),
        ensures
            !cfg.turn_detect_enabled ==> *final(self) == *old(self) && r == (TurnDecision {
                entered_shrunk: false,
                shrunk: false,
            }),
            cfg.turn_detect_enabled ==> {
                &&& r.shrunk == (final(self).state == TurnState::Shrunk)
                &&& final(self).turn_stable_counter <= old(self).turn_stable_counter + 1
                &&& r.entered_shrunk == (old(self).state == TurnState::Steady && final(self).state
                    == TurnState::Shrunk)
                &&& r.entered_shrunk ==> final(self).effective_window == cfg.sv_turn_window_samples
                &&& final(self).effective_window == if r.entered_shrunk {
                    cfg.sv_turn_window_samples
                } else if final(self).state == TurnState::Regrowing {
                    cfg.sv_window_samples
                } else {
                    old(self).effective_window
                }
                &&& lawful::<N>() ==> *final(self) == observed(
                    *old(self),
                    fm_fast,
                    gate_on,
                    cfg.turn_rules(),
                )
            },
    {
        if !cfg.turn_detect_enabled {
            return TurnDecision { entered_shrunk: false, shrunk: false };
        }
        let zero: N = N::from(0u16);
        let band: N = fraction(1, 10);
        self.had_evidence = fm_fast.is_some();
        if let Some(fm) = fm_fast {
            if self.fm_fast_ema == zero && self.fm_fast_baseline == zero {
                self.fm_fast_ema = fm;
                self.fm_fast_baseline = fm;
            } else {
                self.fm_fast_ema = average(3, 10, fm, self.fm_fast_ema);
                if gate_on {
                    self.fm_fast_baseline = average(1, 50, fm, self.fm_fast_baseline);
                }
            }
        }
        assert(lawful::<N>() ==> *self == followed(*old(self), fm_fast, gate_on));
        let low: N = self.fm_fast_baseline - cfg.turn_drop_delta;
        if !gate_on && self.had_evidence && self.fm_fast_baseline > zero && self.fm_fast_ema < low {
            self.saw_low_while_off = true;
        }
        let mut entered_shrunk: bool = false;
        match self.state {
            TurnState::Steady => {
                let offset: bool = gate_on && self.had_evidence && self.fm_fast_ema < low;
                let near: N = self.fm_fast_baseline - band;
                let onset: bool = !gate_on && self.had_evidence && self.saw_low_while_off
                    && self.fm_fast_ema >= near && self.fm_fast_baseline > zero;
                if offset || onset {
                    self.state = TurnState::Shrunk;
                    self.effective_window = cfg.sv_turn_window_samples;
                    self.turn_stable_counter = 0;
                    self.shrunk_refresh_done = false;
                    self.saw_low_while_off = false;
                    entered_shrunk = true;
                    if offset && cfg.offset_fail_closed {
                        self.offset_failclosed_active = true;
                    }
                }
            },
            TurnState::Shrunk => {
                let above: N = self.fm_fast_ema - self.fm_fast_baseline;
                let below: N = self.fm_fast_baseline - self.fm_fast_ema;
                let close: bool = self.had_evidence && above <= band && below <= band;
                if close {
                    self.turn_stable_counter = self.turn_stable_counter + 1;
                } else {
                    self.turn_stable_counter = 0;
                }
                if self.shrunk_refresh_done && self.turn_stable_counter >= cfg.turn_stable_frames {
                    self.state = TurnState::Regrowing;
                    self.effective_window = cfg.sv_window_samples;
                }
            },
            TurnState::Regrowing => {
                self.state = TurnState::Steady;
                self.turn_stable_counter = 0;
            },
        }
        TurnDecision { entered_shrunk, shrunk: self.state == TurnState::Shrunk }
    }
}

/// What holds in every state of the detector: the window is short exactly while
/// a turn is suspect, and the speaker gate is held closed only then.
pub open spec fn turn_wf<N: Scalar>(t: TurnDetector<N>, rules: TurnRules<N>) -> bool {
    &&& t.effective_window == if t.state == TurnState::Shrunk {
        rules.turn_window
    } else {
        rules.window
    }
    &&& t.offset_failclosed_active ==> t.state == TurnState::Shrunk && !t.shrunk_refresh_done
        && rules.fail_closed
}

/// The start satisfies it.
pub proof fn lemma_turn_wf_at_start<N: Scalar>(rules: TurnRules<N>)
    ensures
        turn_wf(steady::<N>(rules.window), rules),
{
}

/// Every observation keeps it.
pub proof fn lemma_turn_wf_observed<N: Scalar>(
    t: TurnDetector<N>,
    fm: Option<N>,
    gate_on: bool,
    rules: TurnRules<N>,
)
    requires
        turn_wf(t, rules),
    ensures
        turn_wf(observed(t, fm, gate_on, rules), rules),
{
}

/// A refresh on the short window keeps it, and releases the speaker gate.
pub proof fn lemma_turn_wf_refreshed<N: Scalar>(t: TurnDetector<N>, rules: TurnRules<N>)
    requires
        turn_wf(t, rules),
        t.state == TurnState::Shrunk,
    ensures
        ({
            let after = TurnDetector {
                shrunk_refresh_done: true,
                offset_failclosed_active: false,
                ..t
            };
            turn_wf(after, rules) && !after.offset_failclosed_active
        }),
{
}

/// The window grows back only after a refresh on the short window and the
/// demanded number of stable frames.
pub proof fn lemma_regrow_needs_refresh_and_stability<N: Scalar>(
    t: TurnDetector<N>,
    fm: Option<N>,
    gate_on: bool,
    rules: TurnRules<N>,
)
    requires
        t.state == TurnState::Shrunk,
        observed(t, fm, gate_on, rules).state != TurnState::Shrunk,
    ensures
        t.shrunk_refresh_done,
        observed(t, fm, gate_on, rules).state == TurnState::Regrowing,
        observed(t, fm, gate_on, rules).turn_stable_counter >= rules.stable_frames,
        observed(t, fm, gate_on, rules).effective_window == rules.window,
{
}

} // verus!
