//! Gathering speech: which samples the next embedding is computed from, and
//! when it is due.
use crate::pipeline::PipelineConfig;
use crate::rings::{drop_oldest, keep_last, push_bounded, snapshot};
use crate::scalar::{lawful, num, total, Scalar};
use crate::turn::TurnDecision;
use crate::vad::CHUNK_SAMPLES_16K;
use std::collections::VecDeque;
use vstd::prelude::*;
use vstd::std_specs::ops::AddSpec;

verus! {

/// What a tracker holds.
pub struct SpeechView<N> {
    /// Speech gathered for the next embedding.
    pub buffer: Seq<N>,
    /// The most recent samples, speech or not.
    pub pre_roll: Seq<N>,
    /// How many of those are kept.
    pub pre_roll_capacity: nat,
    /// Samples heard since the last refresh.
    pub since_update: nat,
    /// Speech stopped at least once since the last refresh.
    pub silence_seen: bool,
    /// Speech samples heard since it last stopped.
    pub new_speech: nat,
    /// The last frame was speech.
    pub prev_speech: bool,
    /// Length of the running speech, in milliseconds.
    pub speech_ms: N,
    /// Length of the running silence, in milliseconds.
    pub silence_ms: N,
}

/// Speech gathering.
pub struct SpeechTracker<N> {
    speech_buffer: VecDeque<N>,
    pre_roll_ring: VecDeque<N>,
    pre_roll_capacity: usize,
    samples_since_update: usize,
    silence_seen_since_refresh: bool,
    new_speech_samples_after_silence: usize,
    prev_speech: bool,
    consecutive_speech_ms: N,
    silence_ms_since_speech: N,
}

impl<N> View for SpeechTracker<N> {
    type V = SpeechView<N>;

    closed spec fn view(&self) -> SpeechView<N> {
        SpeechView {
            buffer: self.speech_buffer@,
            pre_roll: self.pre_roll_ring@,
            pre_roll_capacity: self.pre_roll_capacity as nat,
            since_update: self.samples_since_update as nat,
            silence_seen: self.silence_seen_since_refresh,
            new_speech: self.new_speech_samples_after_silence as nat,
            prev_speech: self.prev_speech,
            speech_ms: self.consecutive_speech_ms,
            silence_ms: self.silence_ms_since_speech,
        }
    }
}

/// The gathered speech after a frame: when speech starts, what was heard just
/// before it comes first.
pub open spec fn gathered<N>(
    s: SpeechView<N>,
    frame: Seq<N>,
    now_speech: bool,
    window: nat,
) -> Seq<N> {
    if now_speech {
        let led = if s.prev_speech {
            s.buffer
        } else {
            keep_last(s.buffer + s.pre_roll, window)
        };
        keep_last(led + frame, window)
    } else {
        s.buffer
    }
}

/// The tracker after a frame.
pub open spec fn after_frame<N: Scalar>(
    s: SpeechView<N>,
    frame: Seq<N>,
    now_speech: bool,
    window: nat,
    dt_ms: N,
) -> SpeechView<N> {
    let stopped = s.prev_speech && !now_speech;
    SpeechView {
        buffer: gathered(s, frame, now_speech, window),
        pre_roll: if s.pre_roll_capacity == 0 {
            s.pre_roll
        } else {
            keep_last(s.pre_roll + frame, s.pre_roll_capacity)
        },
        pre_roll_capacity: s.pre_roll_capacity,
        since_update: s.since_update + CHUNK_SAMPLES_16K as nat,
        silence_seen: s.silence_seen || stopped,
        new_speech: if stopped {
            0
        } else if now_speech && s.silence_seen {
            s.new_speech + CHUNK_SAMPLES_16K as nat
        } else {
            s.new_speech
        },
        prev_speech: now_speech,
        speech_ms: if now_speech {
            s.speech_ms.add_spec(dt_ms)
        } else {
            num(0)
        },
        silence_ms: if now_speech {
            num(0)
        } else {
            s.silence_ms.add_spec(dt_ms)
        },
    }
}

/// The parts of the tracker that do not depend on arithmetic of `N`.
pub open spec fn same_but_times<N>(a: SpeechView<N>, b: SpeechView<N>) -> bool {
    a == (SpeechView { speech_ms: a.speech_ms, silence_ms: a.silence_ms, ..b })
}

/// A refresh is due: the cadence has passed, or enough speech came after a
/// pause, or a turn became suspect; and the window is full.
pub open spec fn refresh_is_due<N: Scalar>(
    s: SpeechView<N>,
    now_speech: bool,
    turn: TurnDecision,
    cadence: nat,
    min_new: nat,
    window: nat,
) -> bool {
    &&& s.since_update >= cadence || (s.silence_seen && now_speech && s.new_speech >= min_new)
        || turn.entered_shrunk
    &&& s.buffer.len() >= window
}

/// The tracker once a refresh was taken.
pub open spec fn refreshed<N>(s: SpeechView<N>) -> SpeechView<N> {
    SpeechView { since_update: 0, silence_seen: false, new_speech: 0, ..s }
}

impl<N: Scalar> SpeechTracker<N> {
    /// The gathered speech fits the window, the pre-roll its ring.
    pub open spec fn wf(&self, window: nat) -> bool {
        self@.buffer.len() <= window && self@.pre_roll.len() <= self@.pre_roll_capacity
    }

    /// Whether the counters have room for `more` samples.
    pub fn has_room(&self, more: u64) -> (r: bool)
        ensures
            r == (self@.since_update + more <= usize::MAX && self@.new_speech + more
                <= usize::MAX),
    {
        let max: u128 = usize::MAX as u128;
        let n: u128 = more as u128;
        self.samples_since_update as u128 + n <= max
            && self.new_speech_samples_after_silence as u128 + n <= max
    }

    /// A tracker before any audio.
    pub fn new(pre_roll_capacity: usize) -> (r: Self)
        ensures
            forall|w: nat| r.wf(w),
            r@.buffer.len() == 0,
            r@.pre_roll.len() == 0,
            r@.pre_roll_capacity == pre_roll_capacity,
            r@.since_update == 0,
            !r@.silence_seen,
            r@.new_speech == 0,
            !r@.prev_speech,
            lawful::<N>() ==> r@.speech_ms == num::<N>(0) && r@.silence_ms == num::<N>(0),
    {
        SpeechTracker {
            speech_buffer: VecDeque::new(),
            pre_roll_ring: VecDeque::new(),
            pre_roll_capacity,
            samples_since_update: 0,
            silence_seen_since_refresh: false,
            new_speech_samples_after_silence: 0,
            prev_speech: false,
            consecutive_speech_ms: N::from(0u16),
            silence_ms_since_speech: N::from(0u16),
        }
    }

    /// Forgets all audio heard so far.
    pub fn reset(&mut self)
        ensures
            forall|w: nat| final(self).wf(w),
            final(self)@.pre_roll_capacity == old(self)@.pre_roll_capacity,
            final(self)@.buffer.len() == 0,
            final(self)@.pre_roll.len() == 0,
            final(self)@.since_update == 0,
            !final(self)@.silence_seen,
            final(self)@.new_speech == 0,
            !final(self)@.prev_speech,
            lawful::<N>() ==> final(self)@.speech_ms == num::<N>(0) && final(self)@.silence_ms
                == num::<N>(0),
    {
        *self = Self::new(self.pre_roll_capacity);
    }

    /// Keeps a frame in the pre-roll ring.
    pub fn push_pre_roll(&mut self, decision_frame: &[N])
        ensures
            final(self)@ == (SpeechView {
                pre_roll: if old(self)@.pre_roll_capacity == 0 {
                    old(self)@.pre_roll
                } else {
                    keep_last(
                        old(self)@.pre_roll + decision_frame@,
                        old(self)@.pre_roll_capacity,
                    )
                },
                ..old(self)@
            }),
    {
        if self.pre_roll_capacity == 0 {
            return;
        }
        push_bounded(&mut self.pre_roll_ring, decision_frame, self.pre_roll_capacity);
    }

    /// Puts what was heard just before into the gathered speech. The ring keeps
    /// it.
    pub fn prepend_pre_roll_to_speech_buffer(&mut self, sv_window_samples: usize)
        ensures
            final(self)@ == (SpeechView {
                buffer: keep_last(
                    old(self)@.buffer + old(self)@.pre_roll,
                    sv_window_samples as nat,
                ),
                ..old(self)@
            }),
    {
        let lead: Vec<N> = snapshot(&self.pre_roll_ring);
        push_bounded(&mut self.speech_buffer, lead.as_slice(), sv_window_samples);
    }

    /// Takes in one frame.
    pub fn hear(&mut self, decision_frame: &[N], now_speech: bool, window: usize, dt_ms: N)
        requires
            old(self)@.since_update + CHUNK_SAMPLES_16K <= usize::MAX,
            old(self)@.new_speech + CHUNK_SAMPLES_16K <= usize::MAX,
            total::<N>() || lawful::<N>() && (if now_speech {
                old(self)@.speech_ms.add_req(dt_ms)
            } else {
                old(self)@.silence_ms.add_req(dt_ms)
            }),
        ensures
            old(self).wf(window as nat) ==> final(self).wf(window as nat),
            same_but_times(
                final(self)@,
                after_frame(old(self)@, decision_frame@, now_speech, window as nat, dt_ms),
            ),
            lawful::<N>() ==> final(self)@ == after_frame(
                old(self)@,
                decision_frame@,
                now_speech,
                window as nat,
                dt_ms,
            ),
    {
        if now_speech {
            if !self.prev_speech {
                self.prepend_pre_roll_to_speech_buffer(window);
            }
            push_bounded(&mut self.speech_buffer, decision_frame, window);
            self.consecutive_speech_ms = self.consecutive_speech_ms + dt_ms;
            if self.silence_seen_since_refresh {
                self.new_speech_samples_after_silence = self.new_speech_samples_after_silence
                    + CHUNK_SAMPLES_16K;
            }
        } else {
            self.consecutive_speech_ms = N::from(0u16);
        }
        if self.prev_speech && !now_speech {
            self.silence_seen_since_refresh = true;
            self.new_speech_samples_after_silence = 0;
        }
        if now_speech {
            self.silence_ms_since_speech = N::from(0u16);
        } else {
            self.silence_ms_since_speech = self.silence_ms_since_speech + dt_ms;
        }
        self.prev_speech = now_speech;
        self.samples_since_update = self.samples_since_update + CHUNK_SAMPLES_16K;
        self.push_pre_roll(decision_frame);
    }

    /// Keeps only the most recent `window` samples of gathered speech.
    pub fn shrink(&mut self, window: usize)
        ensures
            final(self)@ == (SpeechView {
                buffer: keep_last(old(self)@.buffer, window as nat),
                ..old(self)@
            }),
    {
        drop_oldest(&mut self.speech_buffer, window);
    }

    /// Whether a refresh is due.
    pub fn is_due(
        &self,
        now_speech: bool,
        turn: TurnDecision,
        window: usize,
        cfg: &PipelineConfig<N>,
    ) -> (r: bool)
        ensures
            r == refresh_is_due(
                self@,
                now_speech,
                turn,
                cadence(*cfg, turn.shrunk),
                cfg.sv_min_new_samples_after_silence as nat,
                window as nat,
            ),
    {
        let update_cadence: usize = if turn.shrunk {
            cfg.sv_turn_update_samples
        } else {
            cfg.sv_update_samples
        };
        let due_normal: bool = self.samples_since_update >= update_cadence;
        let due_early: bool = self.silence_seen_since_refresh && now_speech
            && self.new_speech_samples_after_silence >= cfg.sv_min_new_samples_after_silence;
        let due_turn: bool = turn.entered_shrunk;
        (due_normal || due_early || due_turn) && self.speech_buffer.len() >= window
    }

    /// Takes the gathered speech for a refresh and starts counting anew.
    pub fn take_window(&mut self) -> (r: Vec<N>)
        ensures
            r@ == old(self)@.buffer,
            final(self)@ == refreshed(old(self)@),
    {
        self.samples_since_update = 0;
        self.silence_seen_since_refresh = false;
        self.new_speech_samples_after_silence = 0;
        snapshot(&self.speech_buffer)
    }

    /// Length of the running speech.
    pub fn consecutive_speech_ms(&self) -> (r: N)
        ensures
            r == self@.speech_ms,
    {
        self.consecutive_speech_ms
    }

    /// Length of the running silence.
    pub fn silence_ms_since_speech(&self) -> (r: N)
        ensures
            r == self@.silence_ms,
    {
        self.silence_ms_since_speech
    }

    /// The gathered speech.
    pub fn speech_buffer(&self) -> (r: &VecDeque<N>)
        ensures
            r@ == self@.buffer,
    {
        &self.speech_buffer
    }

    /// The pre-roll ring.
    pub fn pre_roll_ring(&self) -> (r: &VecDeque<N>)
        ensures
            r@ == self@.pre_roll,
    {
        &self.pre_roll_ring
    }

    /// Capacity of the pre-roll ring.
    pub fn pre_roll_capacity(&self) -> (r: usize)
        ensures
            r == self@.pre_roll_capacity,
    {
        self.pre_roll_capacity
    }
}

/// The samples between refreshes.
pub open spec fn cadence<N>(cfg: PipelineConfig<N>, shrunk: bool) -> nat {
    if shrunk {
        cfg.sv_turn_update_samples as nat
    } else {
        cfg.sv_update_samples as nat
    }
}

/// A refresh always sees exactly one full window of speech.
pub proof fn lemma_refresh_window_is_full<N: Scalar>(
    t: &SpeechTracker<N>,
    now_speech: bool,
    turn: TurnDecision,
    cadence: nat,
    min_new: nat,
    window: nat,
)
    requires
        t.wf(window),
        refresh_is_due(t@, now_speech, turn, cadence, min_new, window),
    ensures
        t@.buffer.len() == window,
{
}

/// The first frame of speech brings along what was heard just before it: the
/// gathered speech ends with the pre-roll followed by the frame, as far as the
/// window reaches.
pub proof fn lemma_onset_includes_pre_roll<N>(s: SpeechView<N>, frame: Seq<N>, window: nat)
    requires
        !s.prev_speech,
        s.pre_roll.len() + frame.len() <= window,
        s.buffer.len() <= window,
    ensures
        ({
            let g = gathered(s, frame, true, window);
            let lead = s.pre_roll + frame;
            &&& g.len() >= lead.len()
            &&& g.subrange(g.len() - lead.len(), g.len() as int) == lead
        }),
{
    let g = gathered(s, frame, true, window);
    let lead = s.pre_roll + frame;
    assert(g.subrange(g.len() - lead.len(), g.len() as int) =~= lead);
}

/// Frames without speech leave the gathered speech alone.
pub proof fn lemma_silence_gathers_nothing<N>(s: SpeechView<N>, frame: Seq<N>, window: nat)
    ensures
        gathered(s, frame, false, window) == s.buffer,
{
}

/// The fast-cue ring: the most recent samples, for the pitch of single frames.
pub const FAST_F0_RING_SAMPLES: usize = 2048;

/// The most recent samples, enough for one pitch estimate.
pub struct FastF0Cue<N> {
    ring: VecDeque<N>,
}

impl<N> View for FastF0Cue<N> {
    type V = Seq<N>;

    closed spec fn view(&self) -> Seq<N> {
        self.ring@
    }
}

/// The pitch estimator was run on `samples` with that outcome.
pub open spec fn estimated<N, P: Fn(&Vec<N>) -> Option<N>>(
    samples: Seq<N>,
    pitch: P,
    hz: Option<N>,
) -> bool {
    exists|v: Vec<N>| v@ == samples && #[trigger] call_ensures(pitch, (&v,), hz)
}

impl<N: Copy> FastF0Cue<N> {
    /// The ring never exceeds its length.
    pub open spec fn wf(&self) -> bool {
        self@.len() <= FAST_F0_RING_SAMPLES
    }

    pub fn new() -> (r: Self)
        ensures
            r.wf(),
            r@.len() == 0,
    {
        FastF0Cue { ring: VecDeque::new() }
    }

    pub fn reset(&mut self)
        ensures
            final(self).wf(),
            final(self)@.len() == 0,
    {
        self.ring.clear();
    }

    /// Takes in a frame and, once the ring is full, estimates the pitch of its
    /// contents.
    pub fn push_frame<P: Fn(&Vec<N>) -> Option<N>>(&mut self, decision_frame: &[N], pitch: &P) -> (r:
        Option<N>)
        requires
            old(self).wf(),
            forall|v: &Vec<N>| call_requires(*pitch, (v,)),
        ensures
            final(self).wf(),
            final(self)@ == keep_last(
                old(self)@ + decision_frame@,
                FAST_F0_RING_SAMPLES as nat,
            ),
            final(self)@.len() < FAST_F0_RING_SAMPLES ==> r is None,
            final(self)@.len() == FAST_F0_RING_SAMPLES ==> estimated(final(self)@, *pitch, r),
    {
        push_bounded(&mut self.ring, decision_frame, FAST_F0_RING_SAMPLES);
        if self.ring.len() < FAST_F0_RING_SAMPLES {
            return None;
        }
        let window: Vec<N> = snapshot(&self.ring);
        let hz: Option<N> = pitch(&window);
        assert(estimated(self@, *pitch, hz));
        hz
    }
}

} // verus!
