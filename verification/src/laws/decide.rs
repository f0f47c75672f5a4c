//! Laws of run-length decisions.
use crate::decisions::{
    collapsed, decisions_at_audio_rate, deduplicated, rescaled, scale_to_audio_rate, scaled,
    settle, settled, shift_off_on_decisions_back, shifted, shifted_start, start_at_zero,
};
use crate::laws::envelope::in_force;
use crate::pipeline::{pre_roll_at, pre_roll_samples};
use vstd::prelude::*;

verus! {

/// The state at sample `k` is on.
pub open spec fn on_at(d: Seq<(usize, bool)>, k: int) -> bool {
    exists|i: int| #[trigger] in_force(d, i, k) && d[i].1
}

/// Starts are in order.
pub open spec fn is_ordered(d: Seq<(usize, bool)>) -> bool {
    forall|i: int, j: int| 0 <= i <= j < d.len() ==> (#[trigger] d[i]).0 <= (#[trigger] d[j]).0
}

/// Starts are in order, the first is at sample zero, and each decision changes the state.
pub open spec fn alternates(d: Seq<(usize, bool)>) -> bool {
    &&& is_ordered(d)
    &&& d.len() > 0 && d[0].0 == 0
    &&& forall|i: int| 0 < i < d.len() ==> (#[trigger] d[i]).1 != d[i - 1].1
    &&& forall|i: int| 0 < i < d.len() ==> (#[trigger] d[i]).0 > d[i - 1].0
}

/// An index at one rate becomes the nearest index at the other.
pub proof fn lemma_scaled_to_the_nearest(s: usize, decision_sr: u32, audio_sr: u32, r: usize)
    requires
        call_ensures(scale_to_audio_rate, (s, decision_sr, audio_sr), r),
        decision_sr > 0,
    ensures
        2 * (r * decision_sr) <= 2 * (s * audio_sr) + decision_sr,
        2 * (s * audio_sr) < 2 * (r * decision_sr) + decision_sr + 1,
{
    let d = decision_sr as int;
    let x = s as int * audio_sr as int;
    if decision_sr != audio_sr {
        assert(r as int * d <= x + d / 2 < r as int * d + d) by (nonlinear_arith)
            requires
                r as int == (x + d / 2) / d,
                d > 0,
        ;
        assert(s as nat * audio_sr as nat == x);
    } else {
        assert(r * decision_sr == s * audio_sr) by (nonlinear_arith)
            requires
                r == s,
                decision_sr == audio_sr,
        ;
    }
}

/// Dropping decisions without a sample keeps the state of every sample.
proof fn lemma_collapsed_keeps_states(d: Seq<(usize, bool)>, k: int)
    requires
        is_ordered(d),
        d.len() > 0,
    ensures
        on_at(collapsed(d), k) == on_at(d, k),
        collapsed(d).len() > 0,
        collapsed(d)[0].0 == d[0].0,
    decreases d.len(),
{
    if d.len() > 1 {
        let t = d.skip(1);
        assert(is_ordered(t)) by {
            assert forall|i: int, j: int| 0 <= i <= j < t.len() implies (#[trigger] t[i]).0 <= (
            #[trigger] t[j]).0 by {
                assert(t[i] == d[i + 1] && t[j] == d[j + 1]);
            }
        }
        lemma_collapsed_keeps_states(t, k);
        lemma_skip_states(d, k);
        let c = collapsed(t);
        assert(t[0] == d[1]);
        assert(d[0].0 <= d[1].0);
        if d[0].0 != d[1].0 {
            let e = seq![d[0]] + c;
            assert(collapsed(d) == e);
            assert(e.skip(1) =~= c);
            lemma_skip_states(e, k);
        } else {
            assert(!in_force(d, 0, k));
        }
    }
}

/// The state comes from the first decision or from the others.
proof fn lemma_skip_states(d: Seq<(usize, bool)>, k: int)
    requires
        d.len() > 0,
    ensures
        on_at(d, k) == (in_force(d, 0, k) && d[0].1 || on_at(d.skip(1), k)),
{
    let t = d.skip(1);
    if on_at(d, k) {
        let i = choose|i: int| #[trigger] in_force(d, i, k) && d[i].1;
        if i > 0 {
            assert(t[i - 1] == d[i]);
            if i + 1 < d.len() {
                assert(t[i] == d[i + 1]);
            }
            assert(in_force(t, i - 1, k));
        }
    }
    if on_at(t, k) {
        let i = choose|i: int| #[trigger] in_force(t, i, k) && t[i].1;
        assert(t[i] == d[i + 1]);
        if i + 1 < t.len() {
            assert(t[i + 1] == d[i + 2]);
        }
        assert(in_force(d, i + 1, k));
    }
}

/// Only one decision is in force.
proof fn lemma_one_in_force(d: Seq<(usize, bool)>, i: int, j: int, k: int)
    requires
        is_ordered(d),
        in_force(d, i, k),
        in_force(d, j, k),
    ensures
        i == j,
{
    if i < j {
        assert(d[i + 1].0 <= d[j].0);
    }
    if j < i {
        assert(d[j + 1].0 <= d[i].0);
    }
}

/// Some decision is in force from the first start on.
proof fn lemma_in_force_exists(d: Seq<(usize, bool)>, k: int) -> (i: int)
    requires
        d.len() > 0,
        d[0].0 <= k,
        is_ordered(d),
    ensures
        in_force(d, i, k),
    decreases d.len(),
{
    let last = d.len() - 1;
    if d[last].0 <= k {
        last
    } else {
        let t = d.drop_last();
        let i = lemma_in_force_exists(t, k);
        i
    }
}

/// Openings are moved ahead by the pre-roll, and closings stay: afterwards a sample is on
/// exactly where it, or one of the samples up to the pre-roll behind it, was on.
pub proof fn lemma_pre_roll_opens_ahead(decisions: &mut Vec<(usize, bool)>, shift: usize, k: int)
    requires
        call_ensures(shift_off_on_decisions_back, (decisions, shift), ()),
        alternates(old(decisions)@),
        0 <= k,
    ensures
        on_at(final(decisions)@, k) <==> exists|j: int|
            k <= j <= k + shift && #[trigger] on_at(old(decisions)@, j),
{
    lemma_opened_ahead(old(decisions)@, shift as nat, k);
}

/// Decisions are settled for a pre-roll: they start at the first sample, and a sample is on
/// exactly where it, or one within the pre-roll behind it, was on. The pre-roll is that many
/// thousandths of the samples in a second.
pub proof fn lemma_settling_opens_ahead(
    decisions: &mut Vec<(usize, bool)>,
    pre_roll_ms: u32,
    rate: u32,
    k: int,
)
    requires
        call_ensures(settle, (decisions, pre_roll_ms, rate), ()),
        alternates(old(decisions)@),
        0 <= k,
    ensures
        on_at(final(decisions)@, k) <==> exists|j: int|
            k <= j <= k + (pre_roll_ms * rate) / 1000 && #[trigger] on_at(old(decisions)@, j),
        final(decisions)@.len() > 0 && final(decisions)@[0].0 == 0,
{
    let d = old(decisions)@;
    lemma_settled_opens_ahead(d, pre_roll_ms, rate, k);
    assert(crate::decisions::within(d, d.last().0 as nat)) by {
        assert forall|i: int| 0 <= i < d.len() implies (#[trigger] d[i]).0 <= d.last().0 by {
            assert(d[i].0 <= d[d.len() - 1].0);
        }
    }
    crate::decisions::lemma_settled(d, pre_roll_ms, rate, d.last().0 as nat);
}

pub(crate) proof fn lemma_settled_opens_ahead(
    d: Seq<(usize, bool)>,
    pre_roll_ms: u32,
    rate: u32,
    k: int,
)
    requires
        alternates(d),
        0 <= k,
    ensures
        on_at(settled(d, pre_roll_ms, rate), k) <==> opens_within(
            d,
            k,
            (pre_roll_ms * rate) / 1000,
        ),
        on_at(settled(d, pre_roll_ms, rate), k) <==> exists|j: int|
            k <= j <= k + (pre_roll_ms * rate) / 1000 && #[trigger] on_at(d, j),
{
    assert(crate::decisions::headed(d) == d);
    let n = pre_roll_samples(pre_roll_ms, rate);
    assert(pre_roll_ms as nat * rate as nat == pre_roll_ms * rate);
    assert(pre_roll_ms == 0 ==> pre_roll_ms * rate == 0) by (nonlinear_arith);
    lemma_opened_ahead(d, n, k);
}

/// The state is on at sample `k` or within `n` samples behind it.
pub open spec fn opens_within(d: Seq<(usize, bool)>, k: int, n: int) -> bool {
    exists|j: int| k <= j <= k + n && #[trigger] on_at(d, j)
}

/// A duration takes as many samples as the rate says, rounded down.
pub proof fn lemma_pre_roll_is_a_duration(ms: u32, rate: u32, r: usize)
    requires
        call_ensures(pre_roll_at, (ms, rate), r),
    ensures
        r * 1000 <= ms * rate < (r + 1) * 1000,
{
    assert(ms as nat * rate as nat == ms * rate);
}

proof fn lemma_opened_ahead(d: Seq<(usize, bool)>, shift: nat, k: int)
    requires
        alternates(d),
        0 <= k,
    ensures
        on_at(
            if shift == 0 || d.len() < 2 {
                d
            } else {
                collapsed(shifted(d, shift))
            },
            k,
        ) <==> exists|j: int| k <= j <= k + shift && #[trigger] on_at(d, j),
{
    let n = shift;
    if shift == 0 || d.len() < 2 {
        if on_at(d, k) {
            assert(k <= k <= k + shift && on_at(d, k));
        }
        if d.len() < 2 {
            assert forall|j: int| k <= j && #[trigger] on_at(d, j) implies on_at(d, k) by {
                assert(in_force(d, 0, k));
            }
        }
    } else {
        let s = shifted(d, n);
        assert forall|i: int| 0 <= i < d.len() implies #[trigger] shifted_start(d, n, i) == (if i
            > 0 && d[i].1 && d[i].0 - n > d[i - 1].0 {
            d[i].0 - n
        } else if i > 0 && d[i].1 {
            d[i - 1].0 as int
        } else {
            d[i].0 as int
        }) by {
            if i > 0 {
                assert(d[i].1 != d[i - 1].1);
                assert(d[i].0 > d[i - 1].0);
                if d[i].1 {
                    assert(shifted_start(d, n, i - 1) == d[i - 1].0);
                }
            }
        }
        assert forall|i: int| 0 <= i < d.len() implies #[trigger] s[i] == (
            shifted_start(d, n, i) as usize,
            d[i].1,
        ) && shifted_start(d, n, i) <= d[i].0 by {
            if i > 0 {
                assert(d[i].0 > d[i - 1].0);
            }
        }
        assert forall|i: int| 0 < i < d.len() implies (#[trigger] s[i - 1]).0 <= s[i].0 by {
            assert(d[i].0 > d[i - 1].0);
            assert(d[i].1 != d[i - 1].1);
            assert(s[i] == (shifted_start(d, n, i) as usize, d[i].1));
            if i > 1 {
                assert(d[i - 1].0 > d[i - 2].0);
            }
        }
        lemma_steps_are_ordered(s);
        lemma_collapsed_keeps_states(s, k);
        let i = lemma_in_force_exists(d, k);
        assert(s[i] == (shifted_start(d, n, i) as usize, d[i].1));
        if d[i].1 {
            assert(on_at(d, k));
            // an open region stays open
            assert(in_force(s, i, k)) by {
                if i + 1 < d.len() {
                    assert(d[i + 1].1 != d[i].1);
                    assert(s[i + 1] == (shifted_start(d, n, i + 1) as usize, d[i + 1].1));
                }
            }
            assert(on_at(s, k));
        } else if i + 1 < d.len() {
            assert(d[i + 1].1 != d[i].1);
            assert(s[i + 1] == (shifted_start(d, n, i + 1) as usize, d[i + 1].1));
            if k + n >= d[i + 1].0 {
                assert(in_force(d, i + 1, d[i + 1].0 as int)) by {
                    if i + 2 < d.len() {
                        assert(d[i + 2].0 > d[i + 1].0);
                    }
                }
                assert(on_at(d, d[i + 1].0 as int));
                assert(in_force(s, i + 1, k)) by {
                    if i + 2 < d.len() {
                        assert(d[i + 2].1 != d[i + 1].1);
                        assert(d[i + 2].0 > d[i + 1].0);
                        assert(s[i + 2] == (shifted_start(d, n, i + 2) as usize, d[i + 2].1));
                    }
                }
                assert(on_at(s, k));
            } else {
                assert(in_force(s, i, k));
                assert(!on_at(s, k)) by {
                    if on_at(s, k) {
                        let m = choose|m: int| #[trigger] in_force(s, m, k) && s[m].1;
                        lemma_one_in_force(s, m, i, k);
                    }
                }
                assert forall|j: int| k <= j <= k + shift implies !#[trigger] on_at(d, j) by {
                    assert(in_force(d, i, j));
                    if on_at(d, j) {
                        let m = choose|m: int| #[trigger] in_force(d, m, j) && d[m].1;
                        lemma_one_in_force(d, m, i, j);
                    }
                }
            }
        } else {
            assert(in_force(s, i, k));
            assert(!on_at(s, k)) by {
                if on_at(s, k) {
                    let m = choose|m: int| #[trigger] in_force(s, m, k) && s[m].1;
                    lemma_one_in_force(s, m, i, k);
                }
            }
            assert forall|j: int| k <= j <= k + shift implies !#[trigger] on_at(d, j) by {
                assert(in_force(d, i, j));
                if on_at(d, j) {
                    let m = choose|m: int| #[trigger] in_force(d, m, j) && d[m].1;
                    lemma_one_in_force(d, m, i, j);
                }
            }
        }
    }
}

/// Starts that never step back are in order.
proof fn lemma_steps_are_ordered(d: Seq<(usize, bool)>)
    requires
        forall|i: int| 0 < i < d.len() ==> (#[trigger] d[i - 1]).0 <= d[i].0,
    ensures
        is_ordered(d),
{
    assert forall|i: int, j: int| 0 <= i <= j < d.len() implies (#[trigger] d[i]).0 <= (
    #[trigger] d[j]).0 by {
        lemma_steps_between(d, i, j);
    }
}

proof fn lemma_steps_between(d: Seq<(usize, bool)>, i: int, j: int)
    requires
        forall|m: int| 0 < m < d.len() ==> (#[trigger] d[m - 1]).0 <= d[m].0,
        0 <= i <= j < d.len(),
    ensures
        d[i].0 <= d[j].0,
    decreases j - i,
{
    if i < j {
        lemma_steps_between(d, i, j - 1);
        assert(d[j - 1].0 <= d[j].0);
    }
}

/// The decisions reach back to the first sample with the state of the first of them, shut
/// where there is none; from there on every state is as it was.
pub proof fn lemma_head_keeps_states(decisions: &mut Vec<(usize, bool)>, k: int)
    requires
        call_ensures(start_at_zero, (decisions,), ()),
        is_ordered(old(decisions)@),
        0 <= k,
    ensures
        final(decisions)@.len() > 0 && final(decisions)@[0].0 == 0,
        old(decisions)@.len() == 0 ==> !on_at(final(decisions)@, k),
        old(decisions)@.len() > 0 && k >= old(decisions)@[0].0 ==> on_at(final(decisions)@, k)
            == on_at(old(decisions)@, k),
        old(decisions)@.len() > 0 && k < old(decisions)@[0].0 ==> on_at(final(decisions)@, k)
            == old(decisions)@[0].1,
{
    let d = old(decisions)@;
    let h = final(decisions)@;
    lemma_skip_states(h, k);
    if d.len() > 0 && d[0].0 != 0 {
        assert(h.skip(1) =~= d);
        assert(h[1] == d[0]);
        if k < d[0].0 {
            if on_at(d, k) {
                let i = choose|i: int| #[trigger] in_force(d, i, k) && d[i].1;
                assert(d[0].0 <= d[i].0);
            }
            assert(in_force(h, 0, k));
        }
    }
    if d.len() == 0 {
        assert(h.skip(1).len() == 0);
        if on_at(h.skip(1), k) {
            let i = choose|i: int| #[trigger] in_force(h.skip(1), i, k) && h.skip(1)[i].1;
        }
    }
}

/// At a multiple of the rate every sample has the state of the decision sample that it
/// falls into.
pub proof fn lemma_rate_keeps_states(
    decisions: &[(usize, bool)],
    decision_sr: u32,
    m: nat,
    n_out: usize,
    r: Vec<(usize, bool)>,
    t: int,
)
    requires
        call_ensures(
            decisions_at_audio_rate,
            (decisions, decision_sr, (decision_sr * m) as u32, n_out),
            r,
        ),
        decision_sr > 0,
        m > 0,
        decision_sr * m <= u32::MAX,
        alternates(decisions@),
        forall|i: int| 0 <= i < decisions@.len() ==> (#[trigger] decisions@[i]).0 * m <= usize::MAX,
        0 <= t < n_out,
    ensures
        on_at(r@, t) == on_at(decisions@, t / (m as int)),
{
    let d = decisions@;
    let e = rescaled(d, decision_sr, (decision_sr * m) as u32, n_out as nat);
    assert forall|i: int| 0 <= i < d.len() implies #[trigger] e[i] == spread_out(
        d[i],
        m,
        n_out,
    ) by {
        crate::decisions::lemma_scale_by_multiple(d[i].0 as nat, decision_sr, m);
    }
    lemma_spread_states(d, e, m, n_out, t);
    lemma_deduplicated_keeps_states(e, n_out as int, t);
}

/// The decision at `m` times its start, and no later than `n`.
pub open spec fn spread_out(x: (usize, bool), m: nat, n: usize) -> (usize, bool) {
    (
        if x.0 * m < n {
            (x.0 * m) as usize
        } else {
            n
        },
        x.1,
    )
}

proof fn lemma_spread_states(
    d: Seq<(usize, bool)>,
    e: Seq<(usize, bool)>,
    m: nat,
    n: usize,
    t: int,
)
    requires
        alternates(d),
        m > 0,
        0 <= t < n,
        e.len() == d.len(),
        forall|i: int| 0 <= i < d.len() ==> #[trigger] e[i] == spread_out(d[i], m, n),
    ensures
        on_at(e, t) == on_at(d, t / (m as int)),
        steps_up(e, n as int),
{
    let k = t / (m as int);
    assert forall|i: int| 0 <= i < d.len() implies ((#[trigger] e[i]).0 <= t <==> d[i].0 <= k) by {
        let x = d[i].0 as int;
        assert(x * m <= t <==> x <= t / (m as int)) by (nonlinear_arith)
            requires
                m > 0,
                0 <= t,
                0 <= x,
        ;
    }
    if on_at(e, t) {
        let i = choose|i: int| #[trigger] in_force(e, i, t) && e[i].1;
        assert(e[i] == spread_out(d[i], m, n));
        if i + 1 < d.len() {
            assert(e[i + 1].0 <= t <==> d[i + 1].0 <= k);
        }
        assert(in_force(d, i, k) && d[i].1);
    }
    if on_at(d, k) {
        let i = choose|i: int| #[trigger] in_force(d, i, k) && d[i].1;
        assert(e[i] == spread_out(d[i], m, n));
        if i + 1 < d.len() {
            assert(e[i + 1].0 <= t <==> d[i + 1].0 <= k);
        }
        assert(in_force(e, i, t) && e[i].1);
    }
    assert forall|i: int| 0 < i < e.len() implies (#[trigger] e[i]).0 > e[i - 1].0 || e[i - 1].0
        == n && e[i].0 == n by {
        let (x, y) = (d[i - 1].0 as int, d[i].0 as int);
        assert(d[i].0 > d[i - 1].0);
        assert(e[i - 1] == spread_out(d[i - 1], m, n));
        assert(x * m < y * m) by (nonlinear_arith)
            requires
                x < y,
                m > 0,
        ;
    }
}

/// Starts grow until they reach `n`.
pub open spec fn steps_up(e: Seq<(usize, bool)>, n: int) -> bool {
    forall|i: int|
        0 < i < e.len() ==> (#[trigger] e[i]).0 > e[i - 1].0 || e[i - 1].0 == n && e[i].0 == n
}

proof fn lemma_deduplicated_keeps_states(e: Seq<(usize, bool)>, n: int, t: int)
    requires
        e.len() > 0,
        t < n,
        steps_up(e, n),
    ensures
        on_at(deduplicated(e), t) == on_at(e, t),
        deduplicated(e).len() > 0,
        deduplicated(e).last().0 == e.last().0,
        is_ordered(deduplicated(e)),
        is_ordered(e),
    decreases e.len(),
{
    if e.len() > 1 {
        let f = e.drop_last();
        assert(steps_up(f, n)) by {
            assert forall|i: int| 0 < i < f.len() implies (#[trigger] f[i]).0 > f[i - 1].0
                || f[i - 1].0 == n && f[i].0 == n by {
                assert(e[i].0 > e[i - 1].0 || e[i - 1].0 == n && e[i].0 == n);
            }
        }
        lemma_deduplicated_keeps_states(f, n, t);
        let g = deduplicated(f);
        let last = e.len() - 1;
        assert(f.last() == e[last - 1]);
        assert(e[last].0 > e[last - 1].0 || e[last - 1].0 == n && e[last].0 == n);
        assert(e =~= f.push(e.last()));
        lemma_push_state(f, e.last(), t);
        if e.last().0 == g.last().0 {
            assert(deduplicated(e) == g);
        } else {
            assert(deduplicated(e) == g.push(e.last()));
            lemma_push_state(g, e.last(), t);
        }
    }
}

/// A decision that starts after a sample does not matter to it; the last one that has
/// started is in force.
proof fn lemma_push_state(f: Seq<(usize, bool)>, x: (usize, bool), t: int)
    requires
        f.len() > 0,
        is_ordered(f),
        f.last().0 <= x.0,
    ensures
        t < x.0 ==> on_at(f.push(x), t) == on_at(f, t),
        t >= x.0 ==> on_at(f.push(x), t) == x.1,
        is_ordered(f.push(x)),
{
    let g = f.push(x);
    let last = f.len() as int;
    assert(is_ordered(g)) by {
        assert forall|i: int, j: int| 0 <= i <= j < g.len() implies (#[trigger] g[i]).0 <= (
        #[trigger] g[j]).0 by {
            if j == last && i < last {
                assert(f[i].0 <= f[last - 1].0);
            }
        }
    }
    assert forall|i: int| 0 <= i < last - 1 implies #[trigger] in_force(g, i, t) == in_force(
        f,
        i,
        t,
    ) by {
        assert(g[i] == f[i] && g[i + 1] == f[i + 1]);
    }
    assert(g[last] == x);
    assert(g[last - 1] == f.last());
    if t < x.0 {
        assert(!in_force(g, last, t));
        assert(in_force(g, last - 1, t) == in_force(f, last - 1, t));
        if on_at(g, t) {
            let i = choose|i: int| #[trigger] in_force(g, i, t) && g[i].1;
            assert(in_force(f, i, t) && f[i].1);
        }
        if on_at(f, t) {
            let i = choose|i: int| #[trigger] in_force(f, i, t) && f[i].1;
            assert(in_force(g, i, t) && g[i].1);
        }
    } else {
        assert(in_force(g, last, t));
        if on_at(g, t) {
            let i = choose|i: int| #[trigger] in_force(g, i, t) && g[i].1;
            lemma_one_in_force(g, i, last, t);
        }
    }
}

} // verus!
