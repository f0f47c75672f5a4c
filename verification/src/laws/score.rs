//! Laws of scores, of the speaker gate and of what a fresh embedding does.
use crate::enrollment::{
    centroid, column_sum, contents, is_anchor_score, is_nearest, EmbeddingPool, EmbeddingPoolConfig,
    PersistenceError, PoolPayload, PoolView,
};
use crate::gating::{
    are_cosines, as_norm_score, cos_sim_max, cos_similarity, f0_match, impostor_scores, is_as_norm,
    is_best_cosine, is_cosine, is_normalised, is_top, lemma_peak_bounds, should_admit_auto_learn,
    squared_deviations, GateConfig, GateState,
};
use crate::laws::{
    adds_up, are_running_sums, has_units, lemma_dot_adds_up, lemma_integers_have_units,
    lemma_sum_adds_up, products,
};
use crate::pipeline::{apply_refresh, smooth_score, AutoLearnEvent, AutoLearnKind, ScoreState};
use crate::scalar::{
    bottom, count, dot, frac, ge, gt, highest, inner_product, lawful, le, lt, num, peak, sum,
    total_order, Scalar,
};
use vstd::prelude::*;
use vstd::std_specs::cmp::PartialEqSpec;
use vstd::std_specs::ops::{AddSpec, DivSpec, MulSpec, SubSpec};

verus! {

/// An inner product is the sum of the products, entry by entry.
pub proof fn lemma_inner_product_adds_products<N: Scalar>(a: &[N], b: &[N], r: N)
    requires
        call_ensures(inner_product::<N>, (a, b), r),
        a@.len() == b@.len(),
        lawful::<N>(),
    ensures
        adds_up(products(a@, b@), r),
{
    lemma_dot_adds_up(a@, b@);
}

/// The cosine times both norms is the inner product; it is zero where a norm is zero.
pub proof fn lemma_cosine_is_inner_product_over_norms<N: Scalar, F: Fn(N) -> N>(
    a: &[N],
    b: &[N],
    sqrt: &F,
    r: N,
)
    requires
        call_ensures(cos_similarity::<N, F>, (a, b, sqrt), r),
        a@.len() == b@.len(),
        lawful::<N>(),
        forall|x: N, y: N|
            !y.eq_spec(&num(0)) ==> #[trigger] x.div_spec(y).mul_spec(y) == x,
        forall|x: N, y: N|
            !x.eq_spec(&num(0)) && !y.eq_spec(&num(0)) ==> !(#[trigger] x.mul_spec(y)).eq_spec(
                &num(0),
            ),
    ensures
        exists|d: N, aa: N, bb: N, na: N, nb: N|
            {
                &&& #[trigger] adds_up(products(a@, b@), d)
                &&& #[trigger] adds_up(products(a@, a@), aa)
                &&& #[trigger] adds_up(products(b@, b@), bb)
                &&& #[trigger] call_ensures(*sqrt, (aa,), na)
                &&& #[trigger] call_ensures(*sqrt, (bb,), nb)
                &&& na.eq_spec(&num(0)) || nb.eq_spec(&num(0)) ==> r == num::<N>(0)
                &&& !na.eq_spec(&num(0)) && !nb.eq_spec(&num(0)) ==> r.mul_spec(na.mul_spec(nb))
                    == d
            },
{
    lemma_dot_adds_up(a@, b@);
    lemma_dot_adds_up(a@, a@);
    lemma_dot_adds_up(b@, b@);
    let (na, nb) = choose|na: N, nb: N|
        {
            &&& #[trigger] call_ensures(*sqrt, (dot(a@, a@, a@.len()),), na)
            &&& #[trigger] call_ensures(*sqrt, (dot(b@, b@, b@.len()),), nb)
            &&& r == if na.eq_spec(&num(0)) || nb.eq_spec(&num(0)) {
                num(0)
            } else {
                dot(a@, b@, a@.len()).div_spec(na.mul_spec(nb))
            }
        };
    assert(adds_up(products(a@, b@), dot(a@, b@, a@.len())));
}

/// A vector that has a norm is fully similar to itself, where roots and quotients are
/// exact.
pub proof fn lemma_vector_is_similar_to_itself<N: Scalar, F: Fn(N) -> N>(
    a: &[N],
    sqrt: &F,
    r: N,
)
    requires
        call_ensures(cos_similarity::<N, F>, (a, a, sqrt), r),
        lawful::<N>(),
        forall|x: N, y: N, z: N|
            #[trigger] call_ensures(*sqrt, (x,), y) && #[trigger] call_ensures(*sqrt, (x,), z)
                ==> y.mul_spec(z) == x && !y.eq_spec(&num(0)),
        forall|x: N| #[trigger] x.div_spec(x) == num::<N>(1),
    ensures
        r == num::<N>(1),
{
}

/// The best cosine over a list is the cosine of one of its vectors and no less than any
/// other; it is zero for none and never less.
pub proof fn lemma_best_cosine_is_the_largest<N: Scalar, F: Fn(N) -> N>(
    emb: &[N],
    pool: &[Vec<N>],
    sqrt: &F,
    r: N,
)
    requires
        call_ensures(cos_sim_max::<N, F>, (emb, pool, sqrt), r),
        lawful::<N>(),
        total_order::<N>(),
    ensures
        exists|s: Seq<N>|
            {
                &&& s.len() == pool@.len()
                &&& forall|i: int|
                    0 <= i < s.len() ==> is_cosine(emb@, pool@[i]@, *sqrt, #[trigger] s[i])
                &&& #[trigger] bounds(s, r)
                &&& le(num::<N>(0), r)
                &&& r == num::<N>(0) || s.contains(r)
            },
{
    let s = choose|s: Seq<N>| #[trigger]
        are_cosines(emb@, pool@, *sqrt, s) && r == peak(s, s.len());
    lemma_peak_bounds(s, s.len());
    assert(bounds(s, r));
    if r != num::<N>(0) {
        assert(s.len() > 0);
        let i = choose|i: int| 0 <= i < s.len() && #[trigger] s[i] == r;
        assert(s.contains(r));
    }
}

/// No entry exceeds `r`.
pub open spec fn bounds<N: Scalar>(s: Seq<N>, r: N) -> bool {
    forall|i: int| 0 <= i < s.len() ==> le(#[trigger] s[i], r)
}

/// The centroid of the anchors is, column by column, their sum over their number. That
/// of a single anchor is the anchor.
pub proof fn lemma_centroid_is_the_mean<N: Scalar>(pool: EmbeddingPool<N>, c: &[N])
    requires
        call_ensures(EmbeddingPool::<N>::anchor_centroid, (&pool,), Some(c)),
        lawful::<N>(),
    ensures
        pool@.anchors.len() > 0,
        c@.len() == pool@.anchors[0]@.len(),
        are_column_means(pool@.anchors, c@),
        pool@.anchors.len() == 1 && has_units::<N>() ==> c@ == pool@.anchors[0]@,
{
    let anchors = pool@.anchors;
    let n = anchors.len();
    lemma_centroid_means(anchors);
    if n == 1 && has_units::<N>() {
        assert(count::<N>(1) == num::<N>(1));
        assert forall|j: int| 0 <= j < c@.len() implies c@[j] == anchors[0]@[j] by {
            assert(column_sum(anchors, j, 0) == num::<N>(0));
            assert(column_sum(anchors, j, 1) == num::<N>(0).add_spec(anchors[0]@[j]));
            assert(c@[j] == centroid(anchors)[j]);
            assert(num::<N>(1).div_spec(num(1)) == num::<N>(1));
        }
        assert(c@ =~= anchors[0]@);
    }
}

/// `c` holds the mean of each column.
pub open spec fn are_column_means<N: Scalar>(anchors: Seq<Vec<N>>, c: Seq<N>) -> bool {
    forall|j: int| 0 <= j < c.len() ==> is_column_mean(anchors, j, #[trigger] c[j])
}

/// The centroid holds the mean of each column.
pub proof fn lemma_centroid_means<N: Scalar>(anchors: Seq<Vec<N>>)
    ensures
        are_column_means(anchors, centroid(anchors)),
{
    let n = anchors.len();
    let c = centroid(anchors);
    assert forall|j: int| 0 <= j < c.len() implies is_column_mean(
        anchors,
        j,
        #[trigger] c[j],
    ) by {
        let p = Seq::new(n + 1, |i: int| column_sum(anchors, j, i as nat));
        assert(are_running_sums(column(anchors, j), p));
        let t = column_sum(anchors, j, n);
        assert(adds_up(column(anchors, j), t));
        assert(c[j] == t.mul_spec(num::<N>(1).div_spec(count(n))));
    }
}

/// `m` is the sum of the entries `j` times one over their number.
pub open spec fn is_column_mean<N: Scalar>(anchors: Seq<Vec<N>>, j: int, m: N) -> bool {
    exists|t: N| #[trigger]
        adds_up(column(anchors, j), t) && m == t.mul_spec(
            num::<N>(1).div_spec(count(anchors.len())),
        )
}

/// Entry `j` of each anchor.
pub open spec fn column<N>(anchors: Seq<Vec<N>>, j: int) -> Seq<N> {
    Seq::new(anchors.len(), |i: int| anchors[i]@[j])
}

/// How well an embedding matches is the cosine to the centroid of the anchors or that to
/// a learned embedding, and no less than any of them.
pub proof fn lemma_match_is_the_best<N: Scalar, F: Fn(N) -> N>(
    pool: EmbeddingPool<N>,
    emb: &[N],
    sqrt: &F,
    r: N,
)
    requires
        call_ensures(EmbeddingPool::<N>::match_score::<F>, (&pool, emb, sqrt), r),
        lawful::<N>(),
        total_order::<N>(),
        forall|x: N| #[trigger] x.eq_spec(&x),
    ensures
        exists|a: N, s: Seq<N>|
            {
                &&& pool@.anchors.len() == 0 ==> a == num::<N>(0)
                &&& pool@.anchors.len() > 0 ==> is_cosine(emb@, centroid(pool@.anchors), *sqrt, a)
                &&& s.len() == pool@.auto_learn.len()
                &&& forall|i: int|
                    0 <= i < s.len() ==> is_cosine(
                        emb@,
                        pool@.auto_learn[i]@,
                        *sqrt,
                        #[trigger] s[i],
                    )
                &&& #[trigger] le(a, r)
                &&& #[trigger] bounds(s, r)
                &&& r == a || r == num::<N>(0) || s.contains(r)
            },
        pool@.anchors.len() == 0 && pool@.auto_learn.len() == 0 ==> r == num::<N>(0),
{
    let (a, l) = choose|a: N, l: N|
        {
            &&& #[trigger] is_anchor_score(emb@, pool@.anchors, *sqrt, a)
            &&& #[trigger] is_best_cosine(emb@, pool@.auto_learn, *sqrt, l)
            &&& r == crate::scalar::pick(a, l)
        };
    let s = choose|s: Seq<N>| #[trigger]
        are_cosines(emb@, pool@.auto_learn, *sqrt, s) && l == peak(s, s.len());
    lemma_peak_bounds(s, s.len());
    assert(gt(l, a) == !le(l, a));
    assert(le(a, l) || le(l, a));
    assert(le(l, r));
    assert(le(a, a));
    assert(le(a, r));
    assert forall|i: int| 0 <= i < s.len() implies le(#[trigger] s[i], r) by {
        assert(le(s[i], l));
    }
    assert(bounds(s, r));
    if r == l && r != num::<N>(0) {
        assert(s.len() > 0);
        let i = choose|i: int| 0 <= i < s.len() && #[trigger] s[i] == r;
        assert(s.contains(r));
    }
}

/// The distance to the anchors is one minus the cosine to the nearest of them: no anchor
/// has a larger cosine.
pub proof fn lemma_distance_is_to_the_nearest<N: Scalar, F: Fn(N) -> N>(
    pool: EmbeddingPool<N>,
    emb: &[N],
    sqrt: &F,
    d: N,
)
    requires
        call_ensures(EmbeddingPool::<N>::anchor_distance::<F>, (&pool, emb, sqrt), Some(d)),
        lawful::<N>(),
        total_order::<N>(),
        forall|x: N| #[trigger] le(bottom::<N>(), x),
    ensures
        exists|s: Seq<N>, best: N|
            {
                &&& s.len() == pool@.anchors.len()
                &&& forall|i: int|
                    0 <= i < s.len() ==> is_cosine(
                        emb@,
                        pool@.anchors[i]@,
                        *sqrt,
                        #[trigger] s[i],
                    )
                &&& #[trigger] bounds(s, best)
                &&& s.contains(best) || best == bottom::<N>()
                &&& d == num::<N>(1).sub_spec(best)
            },
{
    let best = choose|best: N| #[trigger]
        is_nearest(emb@, pool@.anchors, *sqrt, best) && d == num::<N>(1).sub_spec(best);
    let s = choose|s: Seq<N>| #[trigger]
        are_cosines(emb@, pool@.anchors, *sqrt, s) && best == highest(s, s.len());
    lemma_highest_bounds(s, s.len());
    assert(bounds(s, best));
    if best != bottom::<N>() {
        let i = choose|i: int| 0 <= i < s.len() && #[trigger] s[i] == best;
        assert(s.contains(best));
    }
}

/// The largest entry bounds the entries and is one of them.
proof fn lemma_highest_bounds<N: Scalar>(s: Seq<N>, n: nat)
    requires
        n <= s.len(),
        total_order::<N>(),
        forall|x: N| #[trigger] le(bottom::<N>(), x),
    ensures
        forall|i: int| 0 <= i < n ==> le(#[trigger] s[i], highest(s, n)),
        highest(s, n) != bottom::<N>() ==> exists|i: int|
            0 <= i < n && #[trigger] s[i] == highest(s, n),
    decreases n,
{
    if n > 0 {
        let before = highest(s, (n - 1) as nat);
        lemma_highest_bounds(s, (n - 1) as nat);
        assert(gt(s[n - 1], before) == !le(s[n - 1], before));
        assert(le(s[n - 1], s[n - 1]));
        assert(le(before, s[n - 1]) || le(s[n - 1], before));
    }
}

// ---------------------------------------------------------------------
// Normalisation and pitch
// ---------------------------------------------------------------------
/// `r` is how far `raw` lies above the mean of `top`, in units of the spread of `top`;
/// only how far, where the spread is below `eps`.
pub open spec fn stands_out<N: Scalar, F: Fn(N) -> N>(
    raw: N,
    top: Seq<N>,
    eps: N,
    sqrt: F,
    r: N,
) -> bool {
    exists|t: N, v: N, mean: N, spread: N|
        {
            &&& #[trigger] adds_up(top, t)
            &&& mean == t.div_spec(count(top.len()))
            &&& #[trigger] adds_up(squares_about(top, mean), v)
            &&& #[trigger] call_ensures(sqrt, (v.div_spec(count(top.len())),), spread)
            &&& lt(spread, eps) ==> r == raw.sub_spec(mean)
            &&& !lt(spread, eps) ==> r == raw.sub_spec(mean).div_spec(spread)
        }
}

/// The squared distances from `mean`.
pub open spec fn squares_about<N: Scalar>(s: Seq<N>, mean: N) -> Seq<N> {
    Seq::new(s.len(), |i: int| s[i].sub_spec(mean).mul_spec(s[i].sub_spec(mean)))
}

proof fn lemma_normalised_stands_out<N: Scalar, F: Fn(N) -> N>(
    raw: N,
    top: Seq<N>,
    eps: N,
    sqrt: F,
    r: N,
)
    requires
        is_normalised(raw, top, eps, sqrt, r),
    ensures
        stands_out(raw, top, eps, sqrt, r),
{
    let k = count::<N>(top.len());
    let t = sum(top, top.len());
    let mean = t.div_spec(k);
    let v = sum(squared_deviations(top, mean), top.len());
    lemma_sum_adds_up(top);
    lemma_sum_adds_up(squared_deviations(top, mean));
    assert(squared_deviations(top, mean) =~= squares_about(top, mean));
    let spread = choose|spread: N|
        {
            &&& #[trigger] call_ensures(sqrt, (v.div_spec(k),), spread)
            &&& r == if lt(spread, eps) {
                raw.sub_spec(mean)
            } else {
                raw.sub_spec(mean).div_spec(spread)
            }
        };
    assert(adds_up(top, t) && adds_up(squares_about(top, mean), v));
    assert(call_ensures(sqrt, (v.div_spec(count(top.len())),), spread));
}

/// `s[j]` is the inner product of impostor `j` with the embedding, over its norm.
pub open spec fn are_impostor_scores<N: Scalar>(
    embedding: Seq<N>,
    cohort: Seq<Vec<N>>,
    norm: N,
    s: Seq<N>,
) -> bool {
    &&& s.len() == cohort.len()
    &&& forall|j: int|
        0 <= j < s.len() ==> is_impostor_score(embedding, cohort[j]@, norm, #[trigger] s[j])
}

/// `x` is the inner product of the row with the embedding, times one over the norm.
pub open spec fn is_impostor_score<N: Scalar>(
    embedding: Seq<N>,
    row: Seq<N>,
    norm: N,
    x: N,
) -> bool {
    exists|d: N| #[trigger]
        adds_up(products(row, embedding), d) && x == d.mul_spec(num::<N>(1).div_spec(norm))
}

/// A normalised score says by how many spreads the score stands out from those of the
/// impostors that score highest, as many as are asked for or as there are.
pub proof fn lemma_normalised_against_best_impostors<N: Scalar, F: Fn(N) -> N>(
    embedding: &[N],
    raw: N,
    cohort: &[Vec<N>],
    top_k: usize,
    eps: N,
    sqrt: &F,
    r: N,
)
    requires
        call_ensures(
            as_norm_score::<N, F>,
            (embedding, raw, cohort, top_k, eps, sqrt),
            r,
        ),
        lawful::<N>(),
        total_order::<N>(),
        forall|i: int| 0 <= i < cohort@.len() ==> (#[trigger] cohort@[i])@.len() == embedding@.len(),
    ensures
        cohort@.len() == 0 || top_k == 0 ==> r == raw,
        cohort@.len() > 0 && top_k > 0 ==> exists|ee: N, norm: N|
            {
                &&& #[trigger] adds_up(products(embedding@, embedding@), ee)
                &&& #[trigger] call_ensures(*sqrt, (ee,), norm)
                &&& lt(norm, eps) ==> r == raw
                &&& !lt(norm, eps) ==> is_against_best(
                    raw,
                    embedding@,
                    cohort@,
                    norm,
                    top_k as nat,
                    eps,
                    *sqrt,
                    r,
                )
            },
{
    if cohort@.len() > 0 && top_k > 0 {
        let e = embedding@;
        let ee = dot(e, e, e.len());
        lemma_dot_adds_up(e, e);
        let k = crate::gating::at_most(top_k as nat, cohort@.len());
        let norm = choose|norm: N|
            {
                &&& #[trigger] call_ensures(*sqrt, (ee,), norm)
                &&& if lt(norm, eps) || k == 0 {
                    r == raw
                } else {
                    let scores = impostor_scores(e, cohort@, num::<N>(1).div_spec(norm));
                    if k == scores.len() {
                        is_normalised(raw, scores, eps, *sqrt, r)
                    } else {
                        exists|top: Seq<N>, rest: Seq<N>|
                            #[trigger] is_top(scores, k, top, rest) && is_normalised(
                                raw,
                                top,
                                eps,
                                *sqrt,
                                r,
                            )
                    }
                }
            };
        assert(adds_up(products(e, e), ee) && call_ensures(*sqrt, (ee,), norm));
        if !lt(norm, eps) {
            let scores = impostor_scores(e, cohort@, num::<N>(1).div_spec(norm));
            assert forall|j: int| 0 <= j < scores.len() implies is_impostor_score(
                e,
                cohort@[j]@,
                norm,
                #[trigger] scores[j],
            ) by {
                lemma_dot_adds_up(cohort@[j]@, e);
                assert(cohort@[j]@.len() == e.len());
                let d = dot(cohort@[j]@, e, e.len());
                assert(adds_up(products(cohort@[j]@, e), d));
            }
            assert(are_impostor_scores(e, cohort@, norm, scores));
            if k == scores.len() {
                assert(scores + Seq::<N>::empty() =~= scores);
                assert(is_split(scores, scores, Seq::empty()));
                lemma_normalised_stands_out(raw, scores, eps, *sqrt, r);
            } else {
                let (top, rest) = choose|top: Seq<N>, rest: Seq<N>|
                    #[trigger] is_top(scores, k, top, rest) && is_normalised(
                        raw,
                        top,
                        eps,
                        *sqrt,
                        r,
                    );
                assert(is_split(scores, top, rest));
                lemma_normalised_stands_out(raw, top, eps, *sqrt, r);
            }
        }
    }
}

/// `top` and `rest` together are the entries of `scores`, and none of `rest` exceeds one
/// of `top`.
pub open spec fn is_split<N: Scalar>(scores: Seq<N>, top: Seq<N>, rest: Seq<N>) -> bool {
    &&& (top + rest).to_multiset() == scores.to_multiset()
    &&& forall|i: int, j: int|
        0 <= i < top.len() && 0 <= j < rest.len() ==> le(#[trigger] rest[j], #[trigger] top[i])
}

/// `r` says by how many spreads `raw` stands out from the best impostors.
pub open spec fn is_against_best<N: Scalar, F: Fn(N) -> N>(
    raw: N,
    embedding: Seq<N>,
    cohort: Seq<Vec<N>>,
    norm: N,
    top_k: nat,
    eps: N,
    sqrt: F,
    r: N,
) -> bool {
    exists|scores: Seq<N>, top: Seq<N>, rest: Seq<N>|
        {
            &&& #[trigger] are_impostor_scores(embedding, cohort, norm, scores)
            &&& #[trigger] is_split(scores, top, rest)
            &&& top_k <= cohort.len() ==> top.len() == top_k
            &&& top_k >= cohort.len() ==> top.len() == cohort.len()
            &&& stands_out(raw, top, eps, sqrt, r)
        }
}

/// The pitch match is the exponential of minus half the squared distance from the
/// enrolled pitch in units of its spread, and neutral where there is no pitch to compare.
pub proof fn lemma_pitch_match_is_gaussian<N: Scalar, F: Fn(N) -> N>(
    f0_mean: N,
    mu: N,
    sigma: N,
    exp: &F,
    r: N,
)
    requires
        call_ensures(f0_match::<N, F>, (f0_mean, mu, sigma, exp), r),
        lawful::<N>(),
    ensures
        le(sigma, num(0)) ==> r == num::<N>(1),
        !f0_mean.sub_spec(f0_mean).eq_spec(&num(0)) ==> r == num::<N>(1),
        !le(sigma, num(0)) && f0_mean.sub_spec(f0_mean).eq_spec(&num(0)) ==> exists|z: N|
            {
                &&& z == f0_mean.sub_spec(mu).div_spec(sigma)
                &&& #[trigger] call_ensures(
                    *exp,
                    (num::<N>(0).sub_spec(frac(1, 2)).mul_spec(z).mul_spec(z),),
                    r,
                )
            },
        has_units::<N>() && f0_mean == mu && num::<N>(0).div_spec(sigma) == num::<N>(0) && !le(
            sigma,
            num(0),
        ) ==> call_ensures(*exp, (num::<N>(0),), r),
{
    let z = f0_mean.sub_spec(mu).div_spec(sigma);
    if !le(sigma, num(0)) && f0_mean.sub_spec(f0_mean).eq_spec(&num(0)) {
        assert(call_ensures(
            *exp,
            (num::<N>(0).sub_spec(frac(1, 2)).mul_spec(z).mul_spec(z),),
            r,
        ));
    }
}

// ---------------------------------------------------------------------
// The speaker gate
// ---------------------------------------------------------------------
/// A score that reaches the threshold in force opens the speaker gate at once; a gate that is
/// shut stays shut below it.
pub proof fn lemma_gate_opens_at_the_threshold<N: Scalar>(
    g: &mut GateState<N>,
    score: N,
    dt_ms: N,
    r: bool,
)
    requires
        call_ensures(GateState::<N>::update, (g, score, dt_ms), r),
        lawful::<N>(),
    ensures
        r == final(g)@.on,
        old(g).rules().use_as_norm && ge(score, old(g).rules().theta_pass_as_norm) ==> r,
        !old(g).rules().use_as_norm && ge(score, old(g).rules().theta_pass) ==> r,
        !old(g)@.on && old(g).rules().use_as_norm && !ge(score, old(g).rules().theta_pass_as_norm) ==> !r,
        !old(g)@.on && !old(g).rules().use_as_norm && !ge(score, old(g).rules().theta_pass) ==> !r,
        final(g).rules() == old(g).rules(),
{
}

/// After a score that passed the speaker gate stays open for exactly as many low scores as end
/// before the hangover time; the next one shuts it.
pub proof fn lemma_gate_stays_open_for_the_hangover(
    gates: Seq<&mut GateState<u64>>,
    scores: Seq<u64>,
    dt_ms: u64,
    answers: Seq<bool>,
    n: int,
)
    requires
        gates.len() == scores.len() == answers.len(),
        forall|i: int|
            0 <= i < scores.len() ==> call_ensures(
                GateState::<u64>::update,
                (gates[i], #[trigger] scores[i], dt_ms),
                answers[i],
            ),
        forall|i: int| 0 < i < gates.len() ==> *(#[trigger] gates[i]) == *final(gates[i - 1]),
        0 < n < scores.len(),
        scores[0] >= threshold(gates[0].rules()),
        forall|i: int| 0 < i < scores.len() ==> #[trigger] scores[i] < threshold(gates[0].rules()),
        (n - 1) * dt_ms < gates[0].rules().hangover_ms || n == 1,
        n * dt_ms <= u64::MAX,
    ensures
        answers[0],
        answers[n] <==> n * dt_ms < gates[0].rules().hangover_ms,
        final(gates[n])@.elapsed == n * dt_ms,
        final(gates[n]).rules() == gates[0].rules(),
    decreases n,
{
    lemma_integers_have_units();
    assert(num::<u64>(0) == 0u64);
    assert(n * dt_ms == (n - 1) * dt_ms + dt_ms) by (nonlinear_arith);
    assert(scores[0] >= threshold(gates[0].rules()));
    assert(scores[n] < threshold(gates[0].rules()));
    let before = scores[n - 1];
    assert(answers[n - 1] == final(gates[n - 1])@.on);
    assert(*gates[n] == *final(gates[n - 1]));
    if n > 1 {
        assert((n - 2) * dt_ms <= (n - 1) * dt_ms) by (nonlinear_arith)
            requires
                n > 1,
        ;
        lemma_gate_stays_open_for_the_hangover(gates, scores, dt_ms, answers, n - 1);
    } else {
        assert((n - 1) * dt_ms == 0) by (nonlinear_arith)
            requires
                n == 1,
        ;
    }
}

/// The pass threshold that goes with the kind of score.
pub open spec fn threshold(c: GateConfig<u64>) -> u64 {
    if c.use_as_norm {
        c.theta_pass_as_norm
    } else {
        c.theta_pass
    }
}

/// An embedding is admitted exactly when the score, the pitch match and the length of
/// the speech all reach what is asked of them; more of each does no harm.
pub proof fn lemma_admission_needs_all_three<N: Scalar>(
    score: N,
    f0: N,
    ms: N,
    config: GateConfig<N>,
    r: bool,
)
    requires
        call_ensures(should_admit_auto_learn::<N>, (score, f0, ms, &config), r),
        lawful::<N>(),
    ensures
        r ==> ge(f0, config.theta_f0),
        r ==> ge(ms, config.min_continuous_speech_sec.mul_spec(num(1000))),
        r && config.use_as_norm ==> ge(score, config.theta_learn_as_norm),
        r && !config.use_as_norm ==> ge(score, config.theta_learn),
        !r ==> {
            ||| !ge(f0, config.theta_f0)
            ||| !ge(ms, config.min_continuous_speech_sec.mul_spec(num(1000)))
            ||| config.use_as_norm && !ge(score, config.theta_learn_as_norm)
            ||| !config.use_as_norm && !ge(score, config.theta_learn)
        },
{
}

// ---------------------------------------------------------------------
// A fresh embedding
// ---------------------------------------------------------------------
/// Smoothing keeps the old score for a factor of zero, takes the new one for a factor of
/// one, and gives the new score the factor as its share between; the first score is
/// taken as it is.
pub proof fn lemma_smoothing_moves_by_its_factor<N: Scalar>(last: N, fresh: N, alpha: N, r: N)
    requires
        call_ensures(smooth_score::<N>, (last, fresh, alpha), r),
        lawful::<N>(),
    ensures
        last.eq_spec(&num(0)) ==> r == fresh,
        !lt(alpha, num(1)) ==> r == fresh,
        !ge(alpha, num(0)) ==> r == fresh,
        has_units::<N>() && ge(num::<N>(0), num::<N>(0)) && alpha == num::<N>(0) && !last.eq_spec(
            &num(0),
        ) ==> r == last,
        ge(alpha, num(0)) && lt(alpha, num(1)) && !last.eq_spec(&num(0)) && has_units::<N>()
            && fresh == num::<N>(0) ==> r == num::<N>(1).sub_spec(alpha).mul_spec(last),
        ge(alpha, num(0)) && lt(alpha, num(1)) && !last.eq_spec(&num(0)) ==> exists|new: N, old: N|
            {
                &&& new == alpha.mul_spec(fresh)
                &&& old == num::<N>(1).sub_spec(alpha).mul_spec(last)
                &&& r == #[trigger] new.add_spec(old)
            },
{
    let new = alpha.mul_spec(fresh);
    let old = num::<N>(1).sub_spec(alpha).mul_spec(last);
    assert(new.add_spec(old) == new.add_spec(old));
}

/// The score of a fresh embedding is the normalised match where normalisation is on and
/// there is a cohort, and the match itself where it is off, whatever the cohort holds. It
/// is what is smoothed into the score that is carried on.
pub proof fn lemma_refresh_scores_as_configured<N: Scalar, F: Fn(N) -> N, G: Fn(N) -> N>(
    embedding: Vec<N>,
    f0_mu: N,
    frame: usize,
    ms: N,
    pool: &mut EmbeddingPool<N>,
    cohort: Vec<Vec<N>>,
    gate_cfg: GateConfig<N>,
    learn: bool,
    seed: bool,
    alpha: N,
    eps: N,
    sqrt: &F,
    exp: &G,
    score: &mut ScoreState<N>,
    event: Option<AutoLearnEvent<N>>,
)
    requires
        call_ensures(
            apply_refresh::<N, F, G>,
            (
                embedding,
                f0_mu,
                frame,
                ms,
                pool,
                &cohort,
                &gate_cfg,
                learn,
                seed,
                alpha,
                eps,
                sqrt,
                exp,
                score,
            ),
            event,
        ),
        lawful::<N>(),
        old(score).last_score.eq_spec(&num(0)),
    ensures
        !gate_cfg.use_as_norm ==> final(score).last_score == final(score).last_cs,
        cohort@.len() == 0 ==> final(score).last_score == final(score).last_cs,
        gate_cfg.use_as_norm && cohort@.len() > 0 ==> is_as_norm(
            embedding@,
            final(score).last_cs,
            cohort@,
            20,
            eps,
            *sqrt,
            final(score).last_score,
        ),
{
}

/// What a fresh embedding does to the pool: nothing where learning is off; where there
/// are anchors they and the pitch stay, and the embedding is the newest learned one after
/// an admission and changes nothing otherwise.
pub proof fn lemma_refresh_learns_beside_the_anchors<N: Scalar, F: Fn(N) -> N, G: Fn(N) -> N>(
    embedding: Vec<N>,
    f0_mu: N,
    frame: usize,
    ms: N,
    pool: &mut EmbeddingPool<N>,
    cohort: Vec<Vec<N>>,
    gate_cfg: GateConfig<N>,
    learn: bool,
    seed: bool,
    alpha: N,
    eps: N,
    sqrt: &F,
    exp: &G,
    score: &mut ScoreState<N>,
    event: Option<AutoLearnEvent<N>>,
)
    requires
        call_ensures(
            apply_refresh::<N, F, G>,
            (
                embedding,
                f0_mu,
                frame,
                ms,
                pool,
                &cohort,
                &gate_cfg,
                learn,
                seed,
                alpha,
                eps,
                sqrt,
                exp,
                score,
            ),
            event,
        ),
        lawful::<N>(),
    ensures
        !learn ==> event is None && final(pool)@ == old(pool)@,
        event is None ==> final(pool)@ == old(pool)@,
        old(pool)@.anchors.len() > 0 ==> final(pool)@.anchors == old(pool)@.anchors,
        old(pool)@.anchors.len() > 0 ==> final(pool)@.metadata == old(pool)@.metadata,
        event matches Some(e) ==> {
            &&& e.frame_idx == frame
            &&& e.score == final(score).last_score
            &&& e.f0_match == final(score).last_fm
            &&& ge(ms, gate_cfg.min_continuous_speech_sec.mul_spec(num(1000)))
            &&& e.kind == AutoLearnKind::Admit && old(pool)@.config.auto_learn_max_size > 0
                ==> final(pool)@.auto_learn.len() > 0 && final(pool)@.auto_learn.last() == embedding
            &&& e.kind == AutoLearnKind::RejectAnchorDistance ==> final(pool)@ == old(pool)@
            &&& e.kind == AutoLearnKind::BootstrapSeed ==> {
                &&& old(pool)@.anchors.len() == 0 && old(pool)@.auto_learn.len() == 0
                &&& final(pool)@.anchors == seq![embedding]
                &&& final(pool)@.metadata.f0_mu == f0_mu
                &&& final(pool)@.metadata.f0_sigma == num::<N>(40)
                &&& old(pool)@.config.allow_bootstrap_from_runtime && seed
            }
            &&& e.kind != AutoLearnKind::BootstrapSeed ==> ge(
                e.score,
                if gate_cfg.use_as_norm {
                    gate_cfg.theta_learn_as_norm
                } else {
                    gate_cfg.theta_learn
                },
            ) && ge(e.f0_match, gate_cfg.theta_f0)
        },
{
}

/// What is learned is the newest; the others keep their order, and only the oldest goes
/// where there is no room.
pub proof fn lemma_learning_drops_the_oldest<N: Scalar, F: Fn(N) -> N>(
    pool: &mut EmbeddingPool<N>,
    emb: Vec<N>,
    sqrt: &F,
    r: bool,
)
    requires
        call_ensures(EmbeddingPool::<N>::add_auto_learn::<F>, (pool, emb, sqrt), r),
        pool.wf(),
    ensures
        old(pool)@.anchors.len() == 0 ==> !r,
        !r ==> final(pool)@ == old(pool)@,
        r ==> final(pool)@.anchors == old(pool)@.anchors,
        r && old(pool)@.auto_learn.len() < old(pool)@.config.auto_learn_max_size
            ==> final(pool)@.auto_learn == old(pool)@.auto_learn.push(emb),
        r && old(pool)@.auto_learn.len() == old(pool)@.config.auto_learn_max_size > 0
            ==> final(pool)@.auto_learn == old(pool)@.auto_learn.subrange(
            1,
            old(pool)@.auto_learn.len() as int,
        ).push(emb),
{
    pool.lemma_bounded();
    if r && old(pool)@.auto_learn.len() == old(pool)@.config.auto_learn_max_size > 0 {
        assert(final(pool)@.auto_learn =~= old(pool)@.auto_learn.subrange(
            1,
            old(pool)@.auto_learn.len() as int,
        ).push(emb));
    }
    if r && old(pool)@.auto_learn.len() < old(pool)@.config.auto_learn_max_size {
        assert(final(pool)@.auto_learn =~= old(pool)@.auto_learn.push(emb));
    }
}

/// A pool that is written down and read back under its own limits is the same pool.
pub proof fn lemma_pool_survives_storage<N: Scalar>(
    pool: EmbeddingPool<N>,
    stored: PoolPayload<N>,
    r: Result<EmbeddingPool<N>, PersistenceError>,
)
    requires
        pool.wf(),
        call_ensures(EmbeddingPool::<N>::to_payload, (&pool,), stored),
        call_ensures(EmbeddingPool::<N>::from_payload, (stored, pool@.config), r),
    ensures
        r matches Ok(back) && {
            &&& back@.config == pool@.config
            &&& back@.metadata == pool@.metadata
            &&& back@.anchors.len() == pool@.anchors.len()
            &&& forall|i: int|
                0 <= i < pool@.anchors.len() ==> (#[trigger] back@.anchors[i])@
                    == pool@.anchors[i]@
            &&& back@.auto_learn.len() == pool@.auto_learn.len()
            &&& forall|i: int|
                0 <= i < pool@.auto_learn.len() ==> (#[trigger] back@.auto_learn[i])@
                    == pool@.auto_learn[i]@
        },
{
    pool.lemma_bounded();
    assert(contents(stored.anchors@) == contents(pool@.anchors));
    assert(contents(stored.auto_learn@) == contents(pool@.auto_learn));
    assert(contents(stored.anchors@).len() == stored.anchors@.len());
    assert(contents(stored.auto_learn@).len() == stored.auto_learn@.len());
    assert forall|i: int| 0 <= i < pool@.anchors.len() implies (#[trigger] stored.anchors@[i])@
        == pool@.anchors[i]@ by {
        assert(contents(stored.anchors@)[i] == contents(pool@.anchors)[i]);
    }
    assert forall|i: int| 0 <= i < pool@.auto_learn.len() implies (
    #[trigger] stored.auto_learn@[i])@ == pool@.auto_learn[i]@ by {
        assert(contents(stored.auto_learn@)[i] == contents(pool@.auto_learn)[i]);
    }
}

} // verus!
