//! Laws of the enrolled voice beyond scoring, and of how much work a session may take.
use crate::embedding::EmbeddingError;
use crate::enrollment::{is_distance, EmbeddingPool};
use crate::ort_threads::intra_op_threads;
use crate::overlap::{OverlapDecision, OverlapDetector, OverlapReply};
use crate::scalar::{count, descending, gt, lawful, le, num, total_order, Scalar};
use crate::text::{decimal, parse_unsigned};
use vstd::prelude::*;
use vstd::std_specs::ops::{AddSpec, DivSpec, MulSpec};

verus! {

/// Anchors that are added come behind those that are there, in their order, and nothing else
/// changes.
pub proof fn lemma_anchors_are_added_behind<N: Scalar>(
    pool: &mut EmbeddingPool<N>,
    more: Vec<Vec<N>>,
)
    requires
        call_ensures(EmbeddingPool::<N>::add_anchors, (pool, more), ()),
    ensures
        final(pool)@.anchors.len() == old(pool)@.anchors.len() + more@.len(),
        forall|i: int|
            0 <= i < old(pool)@.anchors.len() ==> #[trigger] final(pool)@.anchors[i] == old(
                pool,
            )@.anchors[i],
        forall|i: int|
            0 <= i < more@.len() ==> final(pool)@.anchors[old(pool)@.anchors.len() + i]
                == #[trigger] more@[i],
        final(pool)@.auto_learn == old(pool)@.auto_learn,
        final(pool)@.metadata == old(pool)@.metadata,
        final(pool)@.config == old(pool)@.config,
{
    assert forall|i: int| 0 <= i < more@.len() implies final(pool)@.anchors[old(
        pool,
    )@.anchors.len() + i] == #[trigger] more@[i] by {}
}

/// A pool lists its anchors first and what was learned behind them, the oldest first.
pub proof fn lemma_pool_lists_anchors_first<N: Scalar>(pool: EmbeddingPool<N>, r: Vec<&[N]>)
    requires
        call_ensures(EmbeddingPool::<N>::iter, (&pool,), r),
    ensures
        r@.len() == pool@.anchors.len() + pool@.auto_learn.len(),
        forall|i: int|
            0 <= i < pool@.anchors.len() ==> #[trigger] r@[i]@ == pool@.anchors[i]@,
        forall|i: int|
            pool@.anchors.len() <= i < r@.len() ==> #[trigger] r@[i]@ == pool@.auto_learn[i
                - pool@.anchors.len()]@,
{
}

/// The pitch of the voice is what was set, and nothing else changes.
pub proof fn lemma_pitch_is_remembered<N: Scalar>(pool: &mut EmbeddingPool<N>, mu: N, sigma: N)
    requires
        call_ensures(EmbeddingPool::<N>::set_f0_stats, (pool, mu, sigma), ()),
    ensures
        final(pool)@.metadata.f0_mu == mu,
        final(pool)@.metadata.f0_sigma == sigma,
        final(pool)@.anchors == old(pool)@.anchors,
        final(pool)@.auto_learn == old(pool)@.auto_learn,
{
}

/// A pool is begun only where it is empty; it then holds that one voice as its anchor, with
/// its pitch.
pub proof fn lemma_only_an_empty_pool_is_begun<N: Scalar>(
    pool: &mut EmbeddingPool<N>,
    emb: Vec<N>,
    mu: N,
    sigma: N,
    r: bool,
)
    requires
        call_ensures(EmbeddingPool::<N>::bootstrap_seed, (pool, emb, mu, sigma), r),
    ensures
        r <==> old(pool)@.anchors.len() == 0 && old(pool)@.auto_learn.len() == 0,
        !r ==> final(pool)@ == old(pool)@,
        r ==> final(pool)@.anchors.len() == 1 && final(pool)@.anchors[0] == emb,
        r ==> final(pool)@.metadata.f0_mu == mu && final(pool)@.metadata.f0_sigma == sigma,
        final(pool)@.auto_learn == old(pool)@.auto_learn,
{
}

/// A voice can be learned exactly where it lies no farther from the anchors than the limit; it
/// cannot without anchors.
pub proof fn lemma_learnable_is_near<N: Scalar, F: Fn(N) -> N>(
    pool: EmbeddingPool<N>,
    emb: &[N],
    sqrt: &F,
    r: bool,
)
    requires
        call_ensures(EmbeddingPool::<N>::can_auto_learn::<F>, (&pool, emb, sqrt), r),
        lawful::<N>(),
    ensures
        pool@.anchors.len() == 0 ==> !r,
        pool@.anchors.len() > 0 ==> exists|d: N|
            {
                &&& #[trigger] is_distance(emb@, pool@.anchors, *sqrt, d)
                &&& r <==> le(d, pool@.config.anchor_distance_threshold)
            },
{
}

/// `m` is in the middle of the distances of the learned voices from the anchors: the middle one
/// of them, or half of what the two in the middle add up to.
pub open spec fn is_in_the_middle<N: Scalar, F: Fn(N) -> N>(
    learned: Seq<Vec<N>>,
    anchors: Seq<Vec<N>>,
    sqrt: F,
    m: N,
) -> bool {
    exists|s: Seq<N>, p: Seq<N>|
        {
            &&& s.len() == learned.len()
            &&& forall|i: int|
                0 <= i < s.len() ==> is_distance(learned[i]@, anchors, sqrt, #[trigger] s[i])
            &&& #[trigger] s.to_multiset() == #[trigger] p.to_multiset()
            &&& p.len() == s.len()
            &&& total_order::<N>() ==> descending(p)
            &&& p.len() % 2 == 1 ==> m == p[(p.len() - 1) / 2]
            &&& p.len() % 2 == 0 ==> m == p[p.len() as int / 2].add_spec(
                p[p.len() as int / 2 - 1],
            ).mul_spec(num::<N>(1).div_spec(num(2)))
        }
}

proof fn lemma_median<N: Scalar, F: Fn(N) -> N>(
    learned: Seq<Vec<N>>,
    anchors: Seq<Vec<N>>,
    sqrt: F,
    m: N,
)
    requires
        crate::enrollment::is_median(learned, anchors, sqrt, m),
        learned.len() > 0,
        anchors.len() > 0,
    ensures
        is_in_the_middle(learned, anchors, sqrt, m),
{
    let p = choose|p: Seq<N>| #[trigger]
        crate::enrollment::are_ranked_distances(learned, anchors, sqrt, p) && m
            == crate::enrollment::middle(p);
    let s = choose|s: Seq<N>| #[trigger]
        crate::enrollment::are_distances(learned, anchors, sqrt, s) && p.to_multiset()
            =~= s.to_multiset();
    assert(s.to_multiset() == p.to_multiset());
}

/// How far the learned voices have drifted is the distance in the middle; it is zero where
/// nothing was learned or enrolled.
pub proof fn lemma_drift_is_the_middle_distance<N: Scalar, F: Fn(N) -> N>(
    pool: EmbeddingPool<N>,
    sqrt: &F,
    m: N,
)
    requires
        call_ensures(EmbeddingPool::<N>::median_anchor_distance::<F>, (&pool, sqrt), m),
        lawful::<N>(),
    ensures
        pool@.auto_learn.len() == 0 || pool@.anchors.len() == 0 ==> m == num::<N>(0),
        pool@.auto_learn.len() > 0 && pool@.anchors.len() > 0 ==> is_in_the_middle(
            pool@.auto_learn,
            pool@.anchors,
            *sqrt,
            m,
        ),
{
    if pool@.auto_learn.len() > 0 && pool@.anchors.len() > 0 {
        lemma_median(pool@.auto_learn, pool@.anchors, *sqrt, m);
    }
}

/// What was learned is forgotten where it has drifted beyond the limit, all of it, and kept
/// otherwise; the anchors and the pitch stay in any case.
pub proof fn lemma_drifted_voices_are_forgotten<N: Scalar, F: Fn(N) -> N>(
    pool: &mut EmbeddingPool<N>,
    sqrt: &F,
    r: bool,
)
    requires
        call_ensures(EmbeddingPool::<N>::maybe_reset::<F>, (pool, sqrt), r),
        lawful::<N>(),
    ensures
        final(pool)@.anchors == old(pool)@.anchors,
        final(pool)@.metadata == old(pool)@.metadata,
        r ==> final(pool)@.auto_learn.len() == 0,
        !r ==> final(pool)@.auto_learn == old(pool)@.auto_learn,
        old(pool)@.auto_learn.len() > 0 && old(pool)@.anchors.len() > 0 ==> exists|m: N|
            {
                &&& #[trigger] is_in_the_middle(
                    old(pool)@.auto_learn,
                    old(pool)@.anchors,
                    *sqrt,
                    m,
                )
                &&& r <==> gt(m, old(pool)@.config.anchor_reset_threshold)
            },
        old(pool)@.auto_learn.len() == 0 || old(pool)@.anchors.len() == 0 ==> (r <==> gt(
            num::<N>(0),
            old(pool)@.config.anchor_reset_threshold,
        )),
{
    let m = choose|m: N| #[trigger]
        crate::enrollment::is_median(old(pool)@.auto_learn, old(pool)@.anchors, *sqrt, m) && r
            == gt(m, old(pool)@.config.anchor_reset_threshold);
    if old(pool)@.auto_learn.len() > 0 && old(pool)@.anchors.len() > 0 {
        lemma_median(old(pool)@.auto_learn, old(pool)@.anchors, *sqrt, m);
    }
}

// ---------------------------------------------------------------------
// The overlap detector
// ---------------------------------------------------------------------
/// The share of overlap is the frames with overlap over all frames.
pub proof fn lemma_overlap_is_a_share<N: Scalar>(d: OverlapDecision<N>, r: N)
    requires
        call_ensures(OverlapDecision::<N>::overlap_frame_fraction, (&d,), r),
        lawful::<N>(),
    ensures
        d.total_frames == 0 ==> r == num::<N>(0),
        d.total_frames > 0 ==> r == count::<N>(d.overlap_frame_count as nat).div_spec(
            count(d.total_frames as nat),
        ),
{
}

/// The detector runs as often as it is told to, and not more often than for each sample; at 16
/// kHz its samples are that many thousandths of a second.
pub proof fn lemma_cadence_is_kept<N: Scalar>(
    detector: &mut OverlapDetector<N>,
    samples: usize,
    ms: N,
)
    requires
        call_ensures(OverlapDetector::<N>::set_cadence_samples, (detector, samples), ()),
        call_ensures(OverlapDetector::<N>::cadence_ms, (&*final(detector),), ms),
        lawful::<N>(),
        samples > 0,
    ensures
        final(detector)@.cadence == samples,
        final(detector)@.window == old(detector)@.window,
        ms == count::<N>(samples as nat).div_spec(count(16_000)).mul_spec(num(1000)),
{
}

/// A detector that is asked at once decides exactly where it has heard a whole window.
pub proof fn lemma_detector_needs_a_window<
    N: Scalar,
    M: Fn(&Vec<N>) -> Result<OverlapReply<N>, EmbeddingError>,
    F: Fn(N) -> N,
>(
    detector: OverlapDetector<N>,
    infer: &M,
    exp: &F,
    r: Result<Option<OverlapDecision<N>>, EmbeddingError>,
)
    requires
        call_ensures(OverlapDetector::<N>::force_run::<M, F>, (&detector, infer, exp), r),
    ensures
        detector@.window.len() < 16_000 <==> r == Ok::<
            Option<OverlapDecision<N>>,
            EmbeddingError,
        >(None),
{
}

// ---------------------------------------------------------------------
// Threads
// ---------------------------------------------------------------------
/// A number of threads that is asked for is what is taken, though never none.
pub proof fn lemma_threads_are_as_asked(
    n: u64,
    written: String,
    setting: &str,
    cores: Option<usize>,
    r: usize,
)
    requires
        call_ensures(decimal, (n,), written),
        call_ensures(intra_op_threads, (Some(setting), cores), r),
        setting@ == written@,
        n <= usize::MAX,
    ensures
        n > 0 ==> r == n,
        n == 0 ==> r == 1,
{
    crate::laws::tools::lemma_dec_is_numeral(n as nat);
    let s = setting@;
    assert(s[0] != '+');
    assert(crate::text::is_numeral(s)) by {
        assert forall|i: int| 0 <= i < s.len() implies crate::text::is_digit(#[trigger] s[i]) by {
            assert('0' <= crate::text::dec(n as nat)[i] <= '9');
        }
    }
}

/// Without a setting that is a number, as many threads are taken as the machine has, though not
/// more than two.
pub proof fn lemma_threads_follow_the_machine(setting: Option<&str>, cores: Option<usize>, r: usize)
    requires
        call_ensures(intra_op_threads, (setting, cores), r),
        setting matches Some(s) ==> call_ensures(parse_unsigned, (s, usize::MAX as u64), None),
    ensures
        cores is None ==> r == 1,
        cores matches Some(c) ==> r <= c && r <= 2 && (r == c || r == 2),
{
}

} // verus!
