//! Run-length gate decisions: moving them between sample rates, moving the
//! openings back by the pre-roll, and applying them to audio.
use crate::gating::{apply_envelope, apply_fits, is_enveloped, ApplyEnvelopeError, GateConfig};
use crate::scalar::{lawful, total, Scalar};
use crate::pipeline::{pre_roll_at, pre_roll_samples};
use vstd::prelude::*;

verus! {

/// A sample index at one rate as the nearest index at another, halves up.
pub open spec fn scaled(s: nat, decision_sr: u32, audio_sr: u32) -> nat {
    if decision_sr == audio_sr {
        s
    } else {
        (s * audio_sr as nat + decision_sr as nat / 2) / decision_sr as nat
    }
}

/// The scaled index and what leads to it fit the machine.
pub open spec fn scale_fits(s: nat, decision_sr: u32, audio_sr: u32) -> bool {
    decision_sr == audio_sr || {
        &&& decision_sr > 0
        &&& s * audio_sr as nat + decision_sr as nat / 2 <= u64::MAX
        &&& scaled(s, decision_sr, audio_sr) <= usize::MAX
    }
}

/// Maps a decision-rate index onto the audio-rate axis.
pub fn scale_to_audio_rate(s_decision: usize, decision_sr: u32, audio_sr: u32) -> (r: usize)
    requires
        scale_fits(s_decision as nat, decision_sr, audio_sr),
    ensures
        r == scaled(s_decision as nat, decision_sr, audio_sr),
{
    if decision_sr == audio_sr {
        return s_decision;
    }
    let product: u64 = s_decision as u64 * audio_sr as u64;
    let denom: u64 = decision_sr as u64;
    let rounded: u64 = (product + denom / 2) / denom;
    rounded as usize
}

/// Scaling keeps the order of indices.
pub proof fn lemma_scale_is_monotone(a: nat, b: nat, decision_sr: u32, audio_sr: u32)
    requires
        a <= b,
        decision_sr > 0,
    ensures
        scaled(a, decision_sr, audio_sr) <= scaled(b, decision_sr, audio_sr),
{
    if decision_sr != audio_sr {
        assert(a * audio_sr as nat <= b * audio_sr as nat) by (nonlinear_arith)
            requires
                a <= b,
        ;
        vstd::arithmetic::div_mod::lemma_div_is_ordered(
            (a * audio_sr as nat + decision_sr as nat / 2) as int,
            (b * audio_sr as nat + decision_sr as nat / 2) as int,
            decision_sr as int,
        );
    }
}

/// A rate that is a multiple of the other scales without rounding.
pub proof fn lemma_scale_by_multiple(s: nat, decision_sr: u32, k: nat)
    requires
        decision_sr > 0,
        decision_sr * k <= u32::MAX,
    ensures
        scaled(s, decision_sr, (decision_sr * k) as u32) == s * k,
{
    let d = decision_sr as nat;
    if d * k != d {
        assert(s * (d * k) == (s * k) * d) by (nonlinear_arith);
        vstd::arithmetic::div_mod::lemma_fundamental_div_mod_converse(
            (s * (d * k) + d / 2) as int,
            d as int,
            (s * k) as int,
            (d / 2) as int,
        );
    } else {
        assert(k == 1) by (nonlinear_arith)
            requires
                d * k == d,
                d > 0,
        ;
        assert(s * k == s) by (nonlinear_arith)
            requires
                k == 1,
        ;
    }
}

/// Where decision `i` starts once openings were moved back by `shift`: an
/// opening moves back, but not before the start of the decision ahead of it.
pub open spec fn shifted_start(d: Seq<(usize, bool)>, shift: nat, i: int) -> nat
    decreases i,
{
    if i <= 0 {
        d[0].0 as nat
    } else if d[i].1 {
        let back: nat = if d[i].0 > shift {
            (d[i].0 - shift) as nat
        } else {
            0
        };
        let floor = shifted_start(d, shift, i - 1);
        if back > floor {
            back
        } else {
            floor
        }
    } else {
        d[i].0 as nat
    }
}

/// All decisions once openings were moved back.
pub open spec fn shifted(d: Seq<(usize, bool)>, shift: nat) -> Seq<(usize, bool)> {
    Seq::new(d.len(), |i: int| (shifted_start(d, shift, i) as usize, d[i].1))
}

/// Of neighbouring decisions with equal start only the last stays.
pub open spec fn collapsed(d: Seq<(usize, bool)>) -> Seq<(usize, bool)>
    decreases d.len(),
{
    if d.len() <= 1 {
        d
    } else if d[0].0 == d[1].0 {
        collapsed(d.skip(1))
    } else {
        seq![d[0]] + collapsed(d.skip(1))
    }
}

/// A shifted start is no later than the original start when starts are in
/// order, and always fits the machine.
proof fn lemma_shifted_start_fits(d: Seq<(usize, bool)>, shift: nat, i: int)
    requires
        0 <= i < d.len(),
    ensures
        shifted_start(d, shift, i) <= usize::MAX,
    decreases i,
{
    if i > 0 {
        lemma_shifted_start_fits(d, shift, i - 1);
    }
}

proof fn lemma_collapsed_head(d: Seq<(usize, bool)>)
    requires
        d.len() > 0,
    ensures
        collapsed(d).len() > 0,
        collapsed(d)[0].0 == d[0].0,
        collapsed(d).last() == d.last(),
        collapsed(d).len() <= d.len(),
    decreases d.len(),
{
    if d.len() > 1 {
        lemma_collapsed_head(d.skip(1));
        assert(d.skip(1)[0] == d[1]);
        assert(d.skip(1).last() == d.last());
        if d[0].0 != d[1].0 {
            assert(collapsed(d).last() == collapsed(d.skip(1)).last());
        }
    }
}

/// Moves every opening back by `shift` samples, at most to the start of the
/// decision before it, and drops decisions whose region became empty.
pub fn shift_off_on_decisions_back(decisions: &mut Vec<(usize, bool)>, shift: usize)
    ensures
        final(decisions)@ == if shift == 0 || old(decisions)@.len() < 2 {
            old(decisions)@
        } else {
            collapsed(shifted(old(decisions)@, shift as nat))
        },
{
    if shift == 0 || decisions.len() < 2 {
        return;
    }
    let ghost d = decisions@;
    let mut i: usize = 1;
    while i < decisions.len()
        invariant
            d == old(decisions)@,
            decisions@.len() == d.len(),
            1 <= i <= d.len(),
            forall|j: int|
                0 <= j < i ==> #[trigger] decisions@[j] == (
                    shifted_start(d, shift as nat, j) as usize,
                    d[j].1,
                ),
            forall|j: int| i <= j < d.len() ==> #[trigger] decisions@[j] == d[j],
        decreases d.len() - i,
    {
        let (idx, is_on): (usize, bool) = decisions[i];
        proof {
            lemma_shifted_start_fits(d, shift as nat, i - 1);
            assert(decisions@[i - 1].0 == shifted_start(d, shift as nat, i - 1));
        }
        if is_on {
            let floor: usize = decisions[i - 1].0;
            let back: usize = idx.saturating_sub(shift);
            let new_idx: usize = if back > floor {
                back
            } else {
                floor
            };
            decisions.set(i, (new_idx, is_on));
        }
        i = i + 1;
    }
    let ghost s = shifted(d, shift as nat);
    assert(decisions@ =~= s);
    let mut k: usize = decisions.len();
    proof {
        assert(s.skip(s.len() - 1) =~= seq![s.last()]);
        assert(decisions@ =~= s.take(k - 1) + collapsed(s.skip(k - 1)));
    }
    while k >= 2
        invariant
            1 <= k <= s.len(),
            decisions@ =~= s.take(k - 1) + collapsed(s.skip(k - 1)),
        decreases k,
    {
        let ghost tail = collapsed(s.skip(k - 1));
        proof {
            lemma_collapsed_head(s.skip(k - 1));
            assert(s.skip(k - 2).skip(1) =~= s.skip(k - 1));
            assert(decisions@[k - 1] == tail[0]);
            assert(decisions@[k - 2] == s[k - 2]);
        }
        k = k - 1;
        if decisions[k].0 == decisions[k - 1].0 {
            let _ = decisions.remove(k - 1);
            assert(decisions@ =~= s.take(k - 1) + tail);
        } else {
            assert(decisions@ =~= s.take(k - 1) + (seq![s[k - 1]] + tail));
        }
    }
    assert(s.skip(0) =~= s);
}

/// Starts are in order.
pub open spec fn ordered(d: Seq<(usize, bool)>) -> bool {
    forall|i: int, j: int|
        0 <= i <= j < d.len() ==> (#[trigger] d[i]).0 <= (#[trigger] d[j]).0
}

/// Starts are in order and no two are equal.
pub open spec fn strictly_ordered(d: Seq<(usize, bool)>) -> bool {
    forall|i: int, j: int| 0 <= i < j < d.len() ==> (#[trigger] d[i]).0 < (#[trigger] d[j]).0
}

proof fn lemma_shifted_bounds(d: Seq<(usize, bool)>, shift: nat, i: int)
    requires
        ordered(d),
        0 <= i < d.len(),
    ensures
        shifted_start(d, shift, i) <= d[i].0,
        d[i].0 - shifted_start(d, shift, i) <= shift,
        !d[i].1 ==> shifted_start(d, shift, i) == d[i].0,
        i > 0 ==> shifted_start(d, shift, i - 1) <= shifted_start(d, shift, i),
    decreases i,
{
    if i > 0 {
        lemma_shifted_bounds(d, shift, i - 1);
        assert(d[i - 1].0 <= d[i].0);
    }
}

proof fn lemma_shifted_monotone(d: Seq<(usize, bool)>, shift: nat, i: int, j: int)
    requires
        ordered(d),
        0 <= i <= j < d.len(),
    ensures
        shifted_start(d, shift, i) <= shifted_start(d, shift, j),
    decreases j,
{
    if i < j {
        lemma_shifted_monotone(d, shift, i, j - 1);
        lemma_shifted_bounds(d, shift, j);
    }
}

proof fn lemma_collapsed_is_strict(d: Seq<(usize, bool)>)
    requires
        ordered(d),
    ensures
        strictly_ordered(collapsed(d)),
    decreases d.len(),
{
    if d.len() > 1 {
        let t = d.skip(1);
        assert(ordered(t)) by {
            assert forall|i: int, j: int| 0 <= i <= j < t.len() implies (#[trigger] t[i]).0 <= (
            #[trigger] t[j]).0 by {
                assert(t[i] == d[i + 1]);
                assert(t[j] == d[j + 1]);
            }
        }
        lemma_collapsed_is_strict(t);
        if d[0].0 != d[1].0 {
            lemma_collapsed_head(t);
            let c = collapsed(t);
            assert(t[0] == d[1]);
            assert(d[0].0 <= d[1].0);
            assert forall|i: int, j: int| 0 <= i < j < collapsed(d).len() implies (
            #[trigger] collapsed(d)[i]).0 < (#[trigger] collapsed(d)[j]).0 by {
                assert(collapsed(d)[j] == c[j - 1]);
                if i > 0 {
                    assert(collapsed(d)[i] == c[i - 1]);
                } else if j > 1 {
                    assert(c[0].0 < c[j - 1].0);
                }
            }
        }
    }
}

/// After the shift, decisions that were in order are strictly in order, the
/// first still starts where it did, and the last keeps its state.
pub proof fn lemma_shift_keeps_order(d: Seq<(usize, bool)>, shift: nat)
    requires
        d.len() > 0,
        ordered(d),
    ensures
        strictly_ordered(collapsed(shifted(d, shift))),
        collapsed(shifted(d, shift)).len() > 0,
        collapsed(shifted(d, shift))[0].0 == d[0].0,
        collapsed(shifted(d, shift)).last().1 == d.last().1,
{
    let s = shifted(d, shift);
    assert(ordered(s)) by {
        assert forall|i: int, j: int| 0 <= i <= j < s.len() implies (#[trigger] s[i]).0 <= (
        #[trigger] s[j]).0 by {
            lemma_shifted_monotone(d, shift, i, j);
            lemma_shifted_start_fits(d, shift, i);
            lemma_shifted_start_fits(d, shift, j);
        }
    }
    lemma_collapsed_is_strict(s);
    lemma_collapsed_head(s);
}

/// A closing never moves, and an opening moves back by at most the shift.
pub proof fn lemma_shift_moves_openings_only(d: Seq<(usize, bool)>, shift: nat, i: int)
    requires
        ordered(d),
        0 <= i < d.len(),
    ensures
        shifted(d, shift)[i].1 == d[i].1,
        !d[i].1 ==> shifted(d, shift)[i].0 == d[i].0,
        d[i].0 - shift <= shifted(d, shift)[i].0 <= d[i].0,
{
    lemma_shifted_bounds(d, shift, i);
    lemma_shifted_start_fits(d, shift, i);
}

/// The decisions with a head at sample 0: none becomes closed from 0 on, a
/// first decision that starts later is extended back to 0.
pub open spec fn headed(d: Seq<(usize, bool)>) -> Seq<(usize, bool)> {
    if d.len() == 0 {
        seq![(0usize, false)]
    } else if d[0].0 != 0 {
        seq![(0usize, d[0].1)] + d
    } else {
        d
    }
}

/// Makes the decisions start at sample 0.
pub fn start_at_zero(decisions: &mut Vec<(usize, bool)>)
    ensures
        final(decisions)@ =~= headed(old(decisions)@),
{
    if decisions.len() == 0 {
        decisions.push((0, false));
    } else if decisions[0].0 != 0 {
        let first_on: bool = decisions[0].1;
        decisions.insert(0, (0, first_on));
    }
}

/// With a head at sample 0, decisions can always be applied to audio, also once
/// the openings were moved back.
pub proof fn lemma_headed_can_be_applied(d: Seq<(usize, bool)>, shift: nat)
    ensures
        headed(d).len() > 0,
        headed(d)[0].0 == 0,
        collapsed(shifted(headed(d), shift)).len() > 0,
        collapsed(shifted(headed(d), shift))[0].0 == 0,
{
    lemma_collapsed_head(shifted(headed(d), shift));
}

/// No decision starts after `bound`.
pub open spec fn within(d: Seq<(usize, bool)>, bound: nat) -> bool {
    forall|i: int| 0 <= i < d.len() ==> (#[trigger] d[i]).0 <= bound
}

proof fn lemma_shifted_start_within(d: Seq<(usize, bool)>, shift: nat, i: int, bound: nat)
    requires
        within(d, bound),
        0 <= i < d.len(),
    ensures
        shifted_start(d, shift, i) <= bound,
        shifted_start(d, shift, i) <= usize::MAX,
    decreases i,
{
    assert(d[i].0 <= bound);
    assert(d[0].0 <= bound);
    if i > 0 {
        lemma_shifted_start_within(d, shift, i - 1, bound);
    }
}

proof fn lemma_collapsed_within(d: Seq<(usize, bool)>, bound: nat)
    requires
        within(d, bound),
    ensures
        within(collapsed(d), bound),
    decreases d.len(),
{
    if d.len() > 1 {
        let rest = d.skip(1);
        assert(within(rest, bound)) by {
            assert forall|i: int| 0 <= i < rest.len() implies (#[trigger] rest[i]).0 <= bound by {
                assert(rest[i] == d[i + 1]);
            }
        }
        lemma_collapsed_within(rest, bound);
        if d[0].0 != d[1].0 {
            let c = collapsed(d);
            assert forall|i: int| 0 <= i < c.len() implies (#[trigger] c[i]).0 <= bound by {
                if i > 0 {
                    assert(c[i] == collapsed(rest)[i - 1]);
                } else {
                    assert(c[0] == d[0]);
                }
            }
        }
    }
}

/// The decisions of a recording: they start at the first sample, and openings
/// are moved back by the pre-roll.
pub open spec fn settled(d: Seq<(usize, bool)>, pre_roll_ms: u32, rate: u32) -> Seq<
    (usize, bool),
> {
    let h = headed(d);
    let shift = pre_roll_samples(pre_roll_ms, rate);
    if pre_roll_ms == 0 || shift == 0 || h.len() < 2 {
        h
    } else {
        collapsed(shifted(h, shift))
    }
}

/// Settled decisions start at the first sample, and none is moved past the
/// last.
pub proof fn lemma_settled(d: Seq<(usize, bool)>, pre_roll_ms: u32, rate: u32, bound: nat)
    requires
        within(d, bound),
    ensures
        settled(d, pre_roll_ms, rate).len() > 0,
        settled(d, pre_roll_ms, rate)[0].0 == 0,
        within(settled(d, pre_roll_ms, rate), bound),
{
    let h = headed(d);
    let shift = pre_roll_samples(pre_roll_ms, rate);
    lemma_headed_can_be_applied(d, shift);
    assert(within(h, bound)) by {
        assert forall|i: int| 0 <= i < h.len() implies (#[trigger] h[i]).0 <= bound by {
            if d.len() > 0 && d[0].0 != 0 && i > 0 {
                assert(h[i] == d[i - 1]);
            }
        }
    }
    let s = shifted(h, shift);
    assert forall|i: int| 0 <= i < s.len() implies (#[trigger] s[i]).0 <= bound by {
        lemma_shifted_start_within(h, shift, i, bound);
    }
    lemma_collapsed_within(s, bound);
}

/// Computes [`settled`].
pub fn settle(decisions: &mut Vec<(usize, bool)>, pre_roll_ms: u32, rate: u32)
    requires
        pre_roll_samples(pre_roll_ms, rate) <= usize::MAX,
    ensures
        final(decisions)@ == settled(old(decisions)@, pre_roll_ms, rate),
{
    start_at_zero(decisions);
    if pre_roll_ms > 0 {
        let shift: usize = pre_roll_at(pre_roll_ms, rate);
        shift_off_on_decisions_back(decisions, shift);
    }
}

/// Decisions at the audio rate, none past the end.
pub open spec fn rescaled(
    d: Seq<(usize, bool)>,
    decision_sr: u32,
    audio_sr: u32,
    n: nat,
) -> Seq<(usize, bool)> {
    d.map_values(
        |e: (usize, bool)|
            {
                let s = scaled(e.0 as nat, decision_sr, audio_sr);
                (
                    if s < n {
                        s as usize
                    } else {
                        n as usize
                    },
                    e.1,
                )
            },
    )
}

/// Of neighbouring decisions with equal start only the first stays.
pub open spec fn deduplicated(d: Seq<(usize, bool)>) -> Seq<(usize, bool)>
    decreases d.len(),
{
    if d.len() <= 1 {
        d
    } else {
        let before = deduplicated(d.drop_last());
        if d.last().0 == before.last().0 {
            before
        } else {
            before.push(d.last())
        }
    }
}

proof fn lemma_deduplicated_nonempty(d: Seq<(usize, bool)>)
    requires
        d.len() > 0,
    ensures
        deduplicated(d).len() > 0,
        deduplicated(d)[0] == d[0],
    decreases d.len(),
{
    if d.len() > 1 {
        lemma_deduplicated_nonempty(d.drop_last());
        assert(d.drop_last()[0] == d[0]);
    }
}

/// Brings decisions to the audio rate.
pub fn decisions_at_audio_rate(
    decisions: &[(usize, bool)],
    decision_sr: u32,
    audio_sr: u32,
    n_out: usize,
) -> (r: Vec<(usize, bool)>)
    requires
        forall|i: int|
            0 <= i < decisions@.len() ==> scale_fits(
                (#[trigger] decisions@[i]).0 as nat,
                decision_sr,
                audio_sr,
            ),
    ensures
        r@ == deduplicated(rescaled(decisions@, decision_sr, audio_sr, n_out as nat)),
{
    let ghost all = rescaled(decisions@, decision_sr, audio_sr, n_out as nat);
    let mut out: Vec<(usize, bool)> = Vec::new();
    let mut i: usize = 0;
    assert(all.take(0) =~= Seq::<(usize, bool)>::empty());
    while i < decisions.len()
        invariant
            i <= decisions@.len(),
            all == rescaled(decisions@, decision_sr, audio_sr, n_out as nat),
            forall|j: int|
                0 <= j < decisions@.len() ==> scale_fits(
                    (#[trigger] decisions@[j]).0 as nat,
                    decision_sr,
                    audio_sr,
                ),
            out@ == deduplicated(all.take(i as int)),
        decreases decisions@.len() - i,
    {
        let (s, on): (usize, bool) = decisions[i];
        assert(scale_fits(decisions@[i as int].0 as nat, decision_sr, audio_sr));
        let at: usize = scale_to_audio_rate(s, decision_sr, audio_sr);
        let start: usize = if at < n_out {
            at
        } else {
            n_out
        };
        proof {
            let t = all.take(i + 1);
            assert(t.drop_last() =~= all.take(i as int));
            assert(t.last() == (start, on));
            if i > 0 {
                lemma_deduplicated_nonempty(all.take(i as int));
            }
        }
        if out.len() == 0 || out[out.len() - 1].0 != start {
            out.push((start, on));
        }
        assert(out@ =~= deduplicated(all.take(i + 1)));
        i = i + 1;
    }
    assert(all.take(all.len() as int) =~= all);
    out
}

/// The decisions that are applied at the audio rate.
pub open spec fn at_audio_rate(
    d: Seq<(usize, bool)>,
    decision_sr: u32,
    audio_sr: u32,
    n: nat,
) -> Seq<(usize, bool)> {
    if audio_sr == decision_sr {
        d
    } else {
        deduplicated(rescaled(d, decision_sr, audio_sr, n))
    }
}

/// Applies the envelope at the audio rate for decisions taken at the decision
/// rate.
pub fn apply_envelope_dual_rate<N: Scalar, F: Fn(N) -> N>(
    audio_out: &[N],
    decisions_decision_rate: &[(usize, bool)],
    audio_sr: u32,
    decision_sr: u32,
    gate_cfg: GateConfig<N>,
    exp: &F,
) -> (r: Result<Vec<N>, ApplyEnvelopeError>)
    requires
        forall|i: int|
            0 <= i < decisions_decision_rate@.len() ==> scale_fits(
                (#[trigger] decisions_decision_rate@[i]).0 as nat,
                decision_sr,
                audio_sr,
            ),
        forall|x: N| call_requires(*exp, (x,)),
        total::<N>() || lawful::<N>() && apply_fits(
            audio_out@,
            at_audio_rate(
                decisions_decision_rate@,
                decision_sr,
                audio_sr,
                audio_out@.len(),
            ),
            audio_sr,
            gate_cfg,
            *exp,
        ),
    ensures
        is_enveloped(
            audio_out@,
            at_audio_rate(
                decisions_decision_rate@,
                decision_sr,
                audio_sr,
                audio_out@.len(),
            ),
            audio_sr,
            gate_cfg,
            *exp,
            r,
        ),
{
    if audio_sr == decision_sr {
        return apply_envelope(audio_out, decisions_decision_rate, audio_sr, gate_cfg, exp);
    }
    let scaled_decisions: Vec<(usize, bool)> = decisions_at_audio_rate(
        decisions_decision_rate,
        decision_sr,
        audio_sr,
        audio_out.len(),
    );
    apply_envelope(audio_out, scaled_decisions.as_slice(), audio_sr, gate_cfg, exp)
}

/// Rate conversion keeps a head at sample 0.
pub proof fn lemma_rate_keeps_head(
    d: Seq<(usize, bool)>,
    decision_sr: u32,
    audio_sr: u32,
    n: nat,
)
    requires
        d.len() > 0,
        d[0].0 == 0,
        decision_sr > 0,
        n <= usize::MAX,
    ensures
        at_audio_rate(d, decision_sr, audio_sr, n).len() > 0,
        at_audio_rate(d, decision_sr, audio_sr, n)[0] == d[0],
{
    if audio_sr != decision_sr {
        lemma_deduplicated_nonempty(rescaled(d, decision_sr, audio_sr, n));
        assert(0 * audio_sr as nat == 0) by (nonlinear_arith);
        assert((decision_sr as nat / 2) / decision_sr as nat == 0) by {
            vstd::arithmetic::div_mod::lemma_basic_div(
                (decision_sr as nat / 2) as int,
                decision_sr as int,
            );
        }
        assert(scaled(0, decision_sr, audio_sr) == 0);
    }
}

} // verus!
