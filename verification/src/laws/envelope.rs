//! Laws of the envelope.
use crate::gating::{
    apply_envelope, apply_follower, enveloped, glide, goal, in_order, is_enveloped, is_fresh,
    lemma_envelope_by_region, level_after, region_gain, region_valid, EnvelopeState, EnvelopeView,
    GateConfig,
};
use crate::scalar::{count, lawful, le, num, Scalar};
use vstd::prelude::*;
use vstd::std_specs::ops::{AddSpec, DivSpec, MulSpec, SubSpec};

verus! {

/// Decision `i` is the one in force at sample `k`.
pub open spec fn in_force(decisions: Seq<(usize, bool)>, i: int, k: int) -> bool {
    &&& 0 <= i < decisions.len()
    &&& decisions[i].0 <= k
    &&& i + 1 < decisions.len() ==> k < decisions[i + 1].0
}

/// The level one sample later: the given share of the way to full gain where the
/// speaker gate is on, to silence where it is off.
pub open spec fn stepped<N: Scalar>(attack: N, release: N, on: bool, level: N) -> N {
    if on {
        level.add_spec(attack.mul_spec(num::<N>(1).sub_spec(level)))
    } else {
        level.add_spec(release.mul_spec(num::<N>(0).sub_spec(level)))
    }
}

/// `gains` follow the decisions from `start` on: the gain of each sample is one step
/// from the gain of the sample before, whatever decision that one was under.
pub open spec fn follows<N: Scalar>(
    attack: N,
    release: N,
    start: N,
    decisions: Seq<(usize, bool)>,
    gains: Seq<N>,
) -> bool {
    forall|i: int, k: int|
        0 <= k < gains.len() && #[trigger] in_force(decisions, i, k) ==> gains[k] == stepped(
            attack,
            release,
            decisions[i].1,
            if k == 0 {
                start
            } else {
                gains[k - 1]
            },
        )
}

/// Some decision is in force at every sample, where the first is at sample zero.
proof fn lemma_some_in_force(decisions: Seq<(usize, bool)>, k: int) -> (i: int)
    requires
        decisions.len() > 0,
        decisions[0].0 == 0,
        0 <= k,
        forall|i: int, j: int|
            0 <= i <= j < decisions.len() ==> (#[trigger] decisions[i]).0 <= (
            #[trigger] decisions[j]).0,
    ensures
        in_force(decisions, i, k),
    decreases decisions.len(),
{
    let last = decisions.len() - 1;
    if decisions[last].0 <= k {
        last
    } else {
        let i = lemma_some_in_force(decisions.drop_last(), k);
        i
    }
}

/// Decisions without a sample leave the level as it is.
proof fn lemma_level_over_empty<N: Scalar>(
    env: EnvelopeView<N>,
    decisions: Seq<(usize, bool)>,
    n: nat,
    i: int,
    j: int,
)
    requires
        0 <= i <= j < decisions.len(),
        decisions[j].0 <= n,
        forall|m: int| i <= m <= j ==> (#[trigger] decisions[m]).0 == decisions[j].0,
    ensures
        level_after(env, decisions, n, i as nat) == level_after(env, decisions, n, j as nat),
    decreases j - i,
{
    if i < j {
        lemma_level_over_empty(env, decisions, n, i, j - 1);
        assert(decisions[j - 1].0 == decisions[j].0);
    }
}

/// The gain of a sample is one step from the gain of the sample before it.
proof fn lemma_gain_steps<N: Scalar>(
    env: EnvelopeView<N>,
    decisions: Seq<(usize, bool)>,
    n: nat,
    i: int,
    j: int,
    k: int,
)
    requires
        in_order(decisions, n),
        in_force(decisions, i, k),
        in_force(decisions, j, k + 1),
        0 <= k,
        k + 1 < n,
    ensures
        region_gain(env, decisions, n, j, k + 1) == stepped(
            env.attack,
            env.release,
            decisions[j].1,
            region_gain(env, decisions, n, i, k),
        ),
{
    if j < i {
        assert(decisions[j + 1].0 <= decisions[i].0);
    }
    if i < j {
        assert(decisions[i + 1].0 == k + 1) by {
            assert(decisions[i + 1].0 <= decisions[j].0);
        }
        assert forall|m: int| i + 1 <= m <= j implies (#[trigger] decisions[m]).0
            == decisions[j].0 by {
            assert(decisions[i + 1].0 <= decisions[m].0 <= decisions[j].0);
        }
        lemma_level_over_empty(env, decisions, n, i + 1, j);
        assert(region_valid(decisions, i, n));
        assert(level_after(env, decisions, n, (i + 1) as nat) == region_gain(
            env,
            decisions,
            n,
            i,
            k,
        ));
        let level = level_after(env, decisions, n, j as nat);
        let c = env.share(decisions[j].1);
        let t = goal::<N>(decisions[j].1);
        assert(glide(level, c, t, 0) == level);
        assert(glide(level, c, t, 1) == level.add_spec(c.mul_spec(t.sub_spec(level))));
    }
}

/// The first gain is one step from where the follower stood.
proof fn lemma_first_gain<N: Scalar>(
    env: EnvelopeView<N>,
    decisions: Seq<(usize, bool)>,
    n: nat,
    j: int,
)
    requires
        in_order(decisions, n),
        decisions.len() > 0,
        decisions[0].0 == 0,
        in_force(decisions, j, 0),
        0 < n,
    ensures
        region_gain(env, decisions, n, j, 0) == stepped(
            env.attack,
            env.release,
            decisions[j].1,
            env.value,
        ),
{
    assert forall|m: int| 0 <= m <= j implies (#[trigger] decisions[m]).0 == decisions[j].0 by {
        assert(decisions[m].0 <= decisions[j].0);
    }
    lemma_level_over_empty(env, decisions, n, 0, j);
    let level = level_after(env, decisions, n, j as nat);
    let c = env.share(decisions[j].1);
    let t = goal::<N>(decisions[j].1);
    assert(glide(level, c, t, 0) == level);
    assert(glide(level, c, t, 1) == level.add_spec(c.mul_spec(t.sub_spec(level))));
}

/// The gains that [`enveloped`] multiplies the audio by.
proof fn lemma_enveloped_follows<N: Scalar>(
    env: EnvelopeView<N>,
    audio: Seq<N>,
    decisions: Seq<(usize, bool)>,
) -> (gains: Seq<N>)
    requires
        in_order(decisions, audio.len()),
        decisions.len() > 0,
        decisions[0].0 == 0,
    ensures
        gains.len() == audio.len(),
        follows(env.attack, env.release, env.value, decisions, gains),
        forall|k: int|
            0 <= k < audio.len() ==> #[trigger] enveloped(
                env,
                audio,
                decisions,
                decisions.len(),
            )[k] == audio[k].mul_spec(gains[k]),
{
    let n = audio.len();
    let gains = Seq::new(
        n,
        |k: int| region_gain(env, decisions, n, choose|i: int| in_force(decisions, i, k), k),
    );
    let out = enveloped(env, audio, decisions, decisions.len());
    assert forall|i: int, k: int| 0 <= k < n && #[trigger] in_force(decisions, i, k) implies gains[k]
        == region_gain(env, decisions, n, i, k) by {
        let c = choose|c: int| in_force(decisions, c, k);
        assert(in_force(decisions, c, k));
        if c < i {
            assert(decisions[c + 1].0 <= decisions[i].0);
        }
        if i < c {
            assert(decisions[i + 1].0 <= decisions[c].0);
        }
    }
    assert forall|k: int| 0 <= k < n implies #[trigger] out[k] == audio[k].mul_spec(gains[k]) by {
        let i = lemma_some_in_force(decisions, k);
        lemma_envelope_by_region(env, audio, decisions, decisions.len(), i, k);
    }
    assert forall|i: int, k: int|
        0 <= k < gains.len() && #[trigger] in_force(decisions, i, k) implies gains[k] == stepped(
        env.attack,
        env.release,
        decisions[i].1,
        if k == 0 {
            env.value
        } else {
            gains[k - 1]
        },
    ) by {
        if k == 0 {
            lemma_first_gain(env, decisions, n, i);
        } else {
            let p = lemma_some_in_force(decisions, k - 1);
            lemma_gain_steps(env, decisions, n, p, i, k - 1);
        }
    }
    gains
}

/// The envelope is continuous: it starts from silence, and the gain of every sample is
/// one step from the gain of the sample before, across decisions too. The step is the
/// attack's where the decision in force is on and the release's where it is off.
pub proof fn lemma_envelope_is_continuous<N: Scalar, F: Fn(N) -> N>(
    audio: &[N],
    decisions: &[(usize, bool)],
    sample_rate: u32,
    config: GateConfig<N>,
    exp: &F,
    out: Vec<N>,
)
    requires
        call_ensures(
            apply_envelope::<N, F>,
            (audio, decisions, sample_rate, config, exp),
            Ok(out),
        ),
        lawful::<N>(),
        in_order(decisions@, audio@.len()),
    ensures
        is_shaped(audio@, decisions@, sample_rate, config, *exp, out@),
{
    lemma_enveloped_is_shaped(audio@, decisions@, sample_rate, config, *exp, out);
}

/// `out` is the audio, each sample times its gain; the gains follow the decisions from
/// silence on, at the attack and the release of the configuration.
pub open spec fn is_shaped<N: Scalar, F: Fn(N) -> N>(
    audio: Seq<N>,
    decisions: Seq<(usize, bool)>,
    sample_rate: u32,
    config: GateConfig<N>,
    exp: F,
    out: Seq<N>,
) -> bool {
    exists|attack: N, release: N, gains: Seq<N>|
        {
            &&& is_share(config.attack_ms, sample_rate, exp, attack)
            &&& is_share(config.release_ms, sample_rate, exp, release)
            &&& gains.len() == audio.len()
            &&& out.len() == audio.len()
            &&& #[trigger] follows(attack, release, num(0), decisions, gains)
            &&& forall|k: int|
                0 <= k < audio.len() ==> #[trigger] out[k] == audio[k].mul_spec(gains[k])
        }
}

pub(crate) proof fn lemma_enveloped_is_shaped<N: Scalar, F: Fn(N) -> N>(
    audio: Seq<N>,
    decisions: Seq<(usize, bool)>,
    sample_rate: u32,
    config: GateConfig<N>,
    exp: F,
    out: Vec<N>,
)
    requires
        is_enveloped(audio, decisions, sample_rate, config, exp, Ok(out)),
        lawful::<N>(),
        in_order(decisions, audio.len()),
    ensures
        is_shaped(audio, decisions, sample_rate, config, exp, out@),
{
    let env = choose|env: EnvelopeView<N>| #[trigger]
        is_fresh(config, sample_rate, exp, env) && out@ == enveloped(
            env,
            audio,
            decisions,
            decisions.len(),
        );
    let gains = lemma_enveloped_follows(env, audio, decisions);
    assert(follows(env.attack, env.release, num(0), decisions, gains));
}

/// `c` is what a time constant of `ms` milliseconds leaves to go per sample: one minus
/// the exponential of minus one over the samples in it; everything at once for none.
pub open spec fn is_share<N: Scalar, F: Fn(N) -> N>(ms: N, rate: u32, exp: F, c: N) -> bool {
    if le(ms, num(0)) {
        c == num::<N>(1)
    } else {
        exists|e: N|
            {
                &&& #[trigger] call_ensures(
                    exp,
                    (num::<N>(0).sub_spec(num(1)).div_spec(
                        ms.mul_spec(count(rate as nat)).div_spec(num(1000)),
                    ),),
                    e,
                )
                &&& c == num::<N>(1).sub_spec(e)
            }
    }
}

/// Gains that follow the same states from the same start are the same.
proof fn lemma_followers_agree<N: Scalar>(
    attack: N,
    release: N,
    start: N,
    d: Seq<(usize, bool)>,
    e: Seq<(usize, bool)>,
    g: Seq<N>,
    h: Seq<N>,
    k: int,
)
    requires
        follows(attack, release, start, d, g),
        follows(attack, release, start, e, h),
        g.len() == h.len(),
        0 <= k < g.len(),
        forall|i: int, j: int, m: int|
            0 <= m < g.len() && #[trigger] in_force(d, i, m) && #[trigger] in_force(e, j, m)
                ==> d[i].1 == e[j].1,
        forall|m: int|
            0 <= m < g.len() ==> #[trigger] has_decision(d, m) && has_decision(e, m),
    ensures
        g[k] == h[k],
    decreases k,
{
    if k > 0 {
        lemma_followers_agree(attack, release, start, d, e, g, h, k - 1);
    }
    assert(has_decision(d, k));
    let i = choose|i: int| in_force(d, i, k);
    let j = choose|j: int| in_force(e, j, k);
    assert(in_force(d, i, k) && in_force(e, j, k));
}

/// Some decision is in force at sample `k`.
pub open spec fn has_decision(d: Seq<(usize, bool)>, k: int) -> bool {
    exists|i: int| in_force(d, i, k)
}

/// Only the state in force at each sample matters to the envelope. Two lists of
/// decisions that agree there, such as one that splits a region of the other in two,
/// give the same output.
pub proof fn lemma_same_states_same_envelope<N: Scalar>(
    env: EnvelopeState<N>,
    audio: &[N],
    d: &[(usize, bool)],
    e: &[(usize, bool)],
    out_d: Vec<N>,
    out_e: Vec<N>,
)
    requires
        call_ensures(apply_follower::<N>, (env, audio, d), out_d),
        call_ensures(apply_follower::<N>, (env, audio, e), out_e),
        lawful::<N>(),
        in_order(d@, audio@.len()),
        in_order(e@, audio@.len()),
        d@.len() > 0 && d@[0].0 == 0,
        e@.len() > 0 && e@[0].0 == 0,
        forall|i: int, j: int, m: int|
            0 <= m < audio@.len() && #[trigger] in_force(d@, i, m) && #[trigger] in_force(
                e@,
                j,
                m,
            ) ==> d@[i].1 == e@[j].1,
    ensures
        out_d@ == out_e@,
{
    let g = lemma_enveloped_follows(env@, audio@, d@);
    let h = lemma_enveloped_follows(env@, audio@, e@);
    assert forall|m: int| 0 <= m < g.len() implies #[trigger] has_decision(d@, m) && has_decision(
        e@,
        m,
    ) by {
        let i = lemma_some_in_force(d@, m);
        let j = lemma_some_in_force(e@, m);
    }
    assert forall|k: int| 0 <= k < audio@.len() implies out_d@[k] == out_e@[k] by {
        lemma_followers_agree(
            env@.attack,
            env@.release,
            env@.value,
            d@,
            e@,
            g,
            h,
            k,
        );
        assert(enveloped(env@, audio@, d@, d@.len())[k] == audio@[k].mul_spec(g[k]));
        assert(enveloped(env@, audio@, e@, e@.len())[k] == audio@[k].mul_spec(h[k]));
    }
    assert(out_d@ =~= out_e@);
}

} // verus!
