//! Laws of what is gathered before a decision: rings, speech and speaker turns.
use crate::pipeline::PipelineConfig;
use crate::rings::push_bounded;
use crate::scalar::{frac, ge, gt, lawful, le, lt, num, Scalar};
use crate::speech::{FastF0Cue, SpeechTracker};
use crate::turn::{TurnDecision, TurnDetector, TurnState};
use std::collections::VecDeque;
use vstd::prelude::*;
use vstd::std_specs::cmp::PartialEqSpec;
use vstd::std_specs::ops::{AddSpec, MulSpec, SubSpec};

verus! {

/// `kept` is the end of `all`, `n` entries of it or all that there are.
pub open spec fn is_end_of<S>(all: Seq<S>, n: nat, kept: Seq<S>) -> bool {
    &&& all.len() <= n ==> kept == all
    &&& all.len() > n ==> kept.len() == n
    &&& forall|i: int|
        0 <= i < kept.len() ==> #[trigger] kept[i] == all[all.len() - kept.len() + i]
}

/// A ring holds the newest samples, oldest first.
pub proof fn lemma_ring_holds_the_newest<S: Copy>(
    ring: &mut VecDeque<S>,
    samples: &[S],
    capacity: usize,
)
    requires
        call_ensures(push_bounded::<S>, (ring, samples, capacity), ()),
    ensures
        is_end_of(old(ring)@ + samples@, capacity as nat, final(ring)@),
{
}

/// A frame of speech is appended to what was gathered; when speech starts, what was heard
/// just before it comes first. Frames without speech are not gathered. What is gathered
/// is the newest of that, as much as the window holds.
pub proof fn lemma_speech_is_gathered<N: Scalar>(
    t: &mut SpeechTracker<N>,
    frame: &[N],
    now_speech: bool,
    window: usize,
    dt_ms: N,
)
    requires
        call_ensures(SpeechTracker::<N>::hear, (t, frame, now_speech, window, dt_ms), ()),
    ensures
        !now_speech ==> final(t)@.buffer == old(t)@.buffer,
        now_speech && old(t)@.prev_speech ==> is_end_of(
            old(t)@.buffer + frame@,
            window as nat,
            final(t)@.buffer,
        ),
        now_speech && !old(t)@.prev_speech ==> is_end_of(
            old(t)@.buffer + old(t)@.pre_roll + frame@,
            window as nat,
            final(t)@.buffer,
        ),
        old(t)@.pre_roll_capacity > 0 ==> is_end_of(
            old(t)@.pre_roll + frame@,
            old(t)@.pre_roll_capacity,
            final(t)@.pre_roll,
        ),
        final(t)@.prev_speech == now_speech,
{
    let (b, p, f, w) = (old(t)@.buffer, old(t)@.pre_roll, frame@, window as nat);
    crate::rings::lemma_feed_in_parts(b, p, f, w);
    assert(b + (p + f) =~= b + p + f);
}

/// Speech and silence are timed: each frame adds its length to the one that it belongs to
/// and ends the other. Samples are counted from the last refresh on, and those of speech
/// from the last pause on.
pub proof fn lemma_speech_is_timed<N: Scalar>(
    t: &mut SpeechTracker<N>,
    frame: &[N],
    now_speech: bool,
    window: usize,
    dt_ms: N,
)
    requires
        call_ensures(SpeechTracker::<N>::hear, (t, frame, now_speech, window, dt_ms), ()),
        lawful::<N>(),
    ensures
        now_speech ==> final(t)@.speech_ms == old(t)@.speech_ms.add_spec(dt_ms),
        now_speech ==> final(t)@.silence_ms == num::<N>(0),
        !now_speech ==> final(t)@.silence_ms == old(t)@.silence_ms.add_spec(dt_ms),
        !now_speech ==> final(t)@.speech_ms == num::<N>(0),
        final(t)@.since_update == old(t)@.since_update + 512,
        old(t)@.prev_speech && !now_speech ==> final(t)@.silence_seen && final(t)@.new_speech == 0,
        now_speech && old(t)@.silence_seen ==> final(t)@.new_speech == old(t)@.new_speech + 512,
        now_speech || !old(t)@.prev_speech ==> final(t)@.silence_seen == old(t)@.silence_seen,
{
}

/// A refresh is due exactly when a whole window was gathered and either the time for it
/// has come, or enough speech followed a pause, or the speaker may just have changed. The
/// time is the shorter one while the window is short.
pub proof fn lemma_refresh_is_due_when<N: Scalar>(
    t: SpeechTracker<N>,
    now_speech: bool,
    turn: TurnDecision,
    window: usize,
    cfg: PipelineConfig<N>,
    r: bool,
)
    requires
        call_ensures(SpeechTracker::<N>::is_due, (&t, now_speech, turn, window, &cfg), r),
    ensures
        r ==> t@.buffer.len() >= window,
        t@.buffer.len() >= window && turn.entered_shrunk ==> r,
        t@.buffer.len() >= window && !turn.shrunk && t@.since_update >= cfg.sv_update_samples ==> r,
        t@.buffer.len() >= window && turn.shrunk && t@.since_update >= cfg.sv_turn_update_samples
            ==> r,
        t@.buffer.len() >= window && now_speech && t@.silence_seen && t@.new_speech
            >= cfg.sv_min_new_samples_after_silence ==> r,
        r && !turn.entered_shrunk && !(now_speech && t@.silence_seen && t@.new_speech
            >= cfg.sv_min_new_samples_after_silence) ==> t@.since_update >= if turn.shrunk {
            cfg.sv_turn_update_samples
        } else {
            cfg.sv_update_samples
        },
{
}

/// A refresh gets all that was gathered, which stays gathered, and starts the counts anew.
pub proof fn lemma_refresh_takes_what_was_gathered<N: Scalar>(
    t: &mut SpeechTracker<N>,
    window: Vec<N>,
)
    requires
        call_ensures(SpeechTracker::<N>::take_window, (t,), window),
    ensures
        window@ == old(t)@.buffer,
        final(t)@.buffer == old(t)@.buffer,
        final(t)@.since_update == 0,
        final(t)@.new_speech == 0,
        !final(t)@.silence_seen,
        final(t)@.speech_ms == old(t)@.speech_ms,
        final(t)@.silence_ms == old(t)@.silence_ms,
        final(t)@.prev_speech == old(t)@.prev_speech,
{
}

/// The pitch of a frame is that of the newest samples, the frame's the last of them; there
/// is none before there are enough.
pub proof fn lemma_cue_hears_the_newest<N: Copy, P: Fn(&Vec<N>) -> Option<N>>(
    cue: &mut FastF0Cue<N>,
    frame: &[N],
    pitch: &P,
    r: Option<N>,
)
    requires
        call_ensures(FastF0Cue::<N>::push_frame::<P>, (cue, frame, pitch), r),
    ensures
        is_end_of(old(cue)@ + frame@, 2048, final(cue)@),
        old(cue)@.len() + frame@.len() < 2048 ==> r is None,
        old(cue)@.len() + frame@.len() >= 2048 ==> exists|v: Vec<N>|
            {
                &&& is_end_of(old(cue)@ + frame@, 2048, v@)
                &&& #[trigger] call_ensures(*pitch, (&v,), r)
            },
{
    if old(cue)@.len() + frame@.len() >= 2048 {
        assert(final(cue)@.len() == 2048);
        let v = choose|v: Vec<N>| v@ == final(cue)@ && #[trigger] call_ensures(*pitch, (&v,), r);
        assert(is_end_of(old(cue)@ + frame@, 2048, v@));
    }
}

/// The window becomes short exactly when a steady detector sees the pitch match well below
/// its baseline with the speaker gate open, or back near it, after a drop, with the speaker gate shut; and
/// only on a frame that has a pitch.
pub proof fn lemma_turn_is_suspected_when<N: Scalar>(
    t: &mut TurnDetector<N>,
    fm: Option<N>,
    gate_on: bool,
    cfg: PipelineConfig<N>,
    r: TurnDecision,
)
    requires
        call_ensures(TurnDetector::<N>::observe, (t, fm, gate_on, &cfg), r),
        lawful::<N>(),
        cfg.turn_detect_enabled,
    ensures
        r.shrunk == (final(t).state == TurnState::Shrunk),
        r.entered_shrunk ==> fm is Some && old(t).state == TurnState::Steady && r.shrunk,
        r.entered_shrunk ==> final(t).effective_window == cfg.sv_turn_window_samples,
        old(t).state == TurnState::Steady && fm is Some && gate_on ==> r.entered_shrunk == lt(
            final(t).fm_fast_ema,
            final(t).fm_fast_baseline.sub_spec(cfg.turn_drop_delta),
        ),
        old(t).state == TurnState::Steady && fm is Some && !gate_on ==> r.entered_shrunk == (gt(
            final(t).fm_fast_baseline,
            num(0),
        ) && ge(final(t).fm_fast_ema, final(t).fm_fast_baseline.sub_spec(frac(1, 10))) && (old(
            t,
        ).saw_low_while_off || lt(
            final(t).fm_fast_ema,
            final(t).fm_fast_baseline.sub_spec(cfg.turn_drop_delta),
        ))),
        final(t).offset_failclosed_active ==> old(t).offset_failclosed_active || (
        r.entered_shrunk && gate_on && cfg.offset_fail_closed),
        r.entered_shrunk && gate_on && cfg.offset_fail_closed ==> final(t).offset_failclosed_active,
{
}

/// The pitch match is followed by two averages: the first match seeds both; later ones
/// have three tenths of the fast one and, while the speaker gate is open, one fiftieth of the
/// baseline. Without a pitch both stay.
pub proof fn lemma_turn_averages<N: Scalar>(
    t: &mut TurnDetector<N>,
    fm: Option<N>,
    gate_on: bool,
    cfg: PipelineConfig<N>,
    r: TurnDecision,
)
    requires
        call_ensures(TurnDetector::<N>::observe, (t, fm, gate_on, &cfg), r),
        lawful::<N>(),
        cfg.turn_detect_enabled,
    ensures
        fm is None ==> final(t).fm_fast_ema == old(t).fm_fast_ema && final(t).fm_fast_baseline
            == old(t).fm_fast_baseline,
        fm is Some && old(t).fm_fast_ema.eq_spec(&num(0)) && old(t).fm_fast_baseline.eq_spec(&num(0))
            ==> final(t).fm_fast_ema == fm->0 && final(t).fm_fast_baseline == fm->0,
        fm is Some && !(old(t).fm_fast_ema.eq_spec(&num(0)) && old(t).fm_fast_baseline.eq_spec(
            &num(0),
        )) ==> {
            &&& final(t).fm_fast_ema == frac::<N>(3, 10).mul_spec(fm->0).add_spec(
                num::<N>(1).sub_spec(frac(3, 10)).mul_spec(old(t).fm_fast_ema),
            )
            &&& !gate_on ==> final(t).fm_fast_baseline == old(t).fm_fast_baseline
            &&& gate_on ==> final(t).fm_fast_baseline == frac::<N>(1, 50).mul_spec(fm->0).add_spec(
                num::<N>(1).sub_spec(frac(1, 50)).mul_spec(old(t).fm_fast_baseline),
            )
        },
{
}

/// A short window grows back exactly when a refresh was made on it and the pitch match has
/// stayed near its baseline for the frames asked for, this one included; any other frame
/// starts that count anew. One frame later the detector is steady.
pub proof fn lemma_window_grows_back_when<N: Scalar>(
    t: &mut TurnDetector<N>,
    fm: Option<N>,
    gate_on: bool,
    cfg: PipelineConfig<N>,
    r: TurnDecision,
)
    requires
        call_ensures(TurnDetector::<N>::observe, (t, fm, gate_on, &cfg), r),
        lawful::<N>(),
        cfg.turn_detect_enabled,
        old(t).turn_stable_counter < u32::MAX,
    ensures
        old(t).state == TurnState::Shrunk ==> {
            &&& fm is Some && le(
                final(t).fm_fast_ema.sub_spec(final(t).fm_fast_baseline),
                frac(1, 10),
            ) && le(final(t).fm_fast_baseline.sub_spec(final(t).fm_fast_ema), frac(1, 10))
                ==> final(t).turn_stable_counter == old(t).turn_stable_counter + 1
            &&& !(fm is Some && le(
                final(t).fm_fast_ema.sub_spec(final(t).fm_fast_baseline),
                frac(1, 10),
            ) && le(final(t).fm_fast_baseline.sub_spec(final(t).fm_fast_ema), frac(1, 10)))
                ==> final(t).turn_stable_counter == 0
            &&& final(t).state == TurnState::Regrowing <==> old(t).shrunk_refresh_done
                && final(t).turn_stable_counter >= cfg.turn_stable_frames
            &&& final(t).state == TurnState::Regrowing ==> final(t).effective_window
                == cfg.sv_window_samples
            &&& final(t).state != TurnState::Regrowing ==> final(t).effective_window
                == old(t).effective_window && r.shrunk
        },
        old(t).state == TurnState::Regrowing ==> final(t).state == TurnState::Steady,
{
}

/// A refresh on the short window lets go of a gate that is held shut, and only that.
pub proof fn lemma_refresh_releases_the_gate<N: Scalar>(t: &mut TurnDetector<N>)
    requires
        call_ensures(TurnDetector::<N>::note_refresh_completed, (t,), ()),
    ensures
        old(t).state == TurnState::Shrunk ==> !final(t).offset_failclosed_active
            && final(t).shrunk_refresh_done,
        old(t).state != TurnState::Shrunk ==> *final(t) == *old(t),
        final(t).state == old(t).state,
        final(t).effective_window == old(t).effective_window,
        final(t).fm_fast_ema == old(t).fm_fast_ema,
        final(t).fm_fast_baseline == old(t).fm_fast_baseline,
{
}

} // verus!
