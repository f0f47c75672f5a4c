//! Scores and gates: cosine similarity against an enrolled voice, adaptive
//! score normalisation, the binary gate with hangover, and the attack/release
//! envelope that turns gate decisions into a gain.
use crate::scalar::{
    count, count_fits, dot, dot_fits, frac, frac_fits, fraction, from_count, ge, gt, inner_product,
    lawful, le, lemma_move_one, lt, num, peak, split_top, sum, sum_fits, sum_of, take_largest, total,
    total_order, Scalar,
};
use std::collections::VecDeque;
use vstd::prelude::*;
use vstd::std_specs::cmp::PartialEqSpec;
use vstd::std_specs::ops::{AddSpec, DivSpec, MulSpec, SubSpec};

verus! {

// ---------------------------------------------------------------------
// Similarity
// ---------------------------------------------------------------------
/// `r` is the cosine of the angle between `a` and `b`: their inner product over
/// the product of their norms, and zero when a norm is zero. `sqrt` takes the
/// norms.
pub open spec fn is_cosine<N: Scalar, F: Fn(N) -> N>(
    a: Seq<N>,
    b: Seq<N>,
    sqrt: F,
    r: N,
) -> bool {
    exists|na: N, nb: N|
        {
            &&& #[trigger] call_ensures(sqrt, (dot(a, a, a.len()),), na)
            &&& #[trigger] call_ensures(sqrt, (dot(b, b, b.len()),), nb)
            &&& r == if na.eq_spec(&num(0)) || nb.eq_spec(&num(0)) {
                num(0)
            } else {
                dot(a, b, a.len()).div_spec(na.mul_spec(nb))
            }
        }
}

/// No operation of the cosine leaves the range of `N`.
pub open spec fn cosine_fits<N: Scalar, F: Fn(N) -> N>(a: Seq<N>, b: Seq<N>, sqrt: F) -> bool {
    &&& dot_fits(a, b, a.len())
    &&& dot_fits(a, a, a.len())
    &&& dot_fits(b, b, b.len())
    &&& forall|na: N, nb: N|
        {
            &&& #[trigger] call_ensures(sqrt, (dot(a, a, a.len()),), na)
            &&& #[trigger] call_ensures(sqrt, (dot(b, b, b.len()),), nb)
            &&& !na.eq_spec(&num(0))
            &&& !nb.eq_spec(&num(0))
        } ==> na.mul_req(nb) && dot(a, b, a.len()).div_req(na.mul_spec(nb))
}

/// Cosine similarity between two vectors of equal length; zero if either has
/// zero norm.
pub fn cos_similarity<N: Scalar, F: Fn(N) -> N>(a: &[N], b: &[N], sqrt: &F) -> (r: N)
    requires
        a.len() == b.len(),
        forall|x: N| call_requires(*sqrt, (x,)),
        total::<N>() || lawful::<N>() && cosine_fits(a@, b@, *sqrt),
    ensures
        lawful::<N>() ==> is_cosine(a@, b@, *sqrt, r),
{
    let d: N = inner_product(a, b);
    let na: N = sqrt(inner_product(a, a));
    let nb: N = sqrt(inner_product(b, b));
    let zero: N = N::from(0u16);
    if na == zero || nb == zero {
        return zero;
    }
    d / (na * nb)
}

/// `s` lists the cosine of `emb` against each vector of `pool`.
pub open spec fn are_cosines<N: Scalar, F: Fn(N) -> N>(
    emb: Seq<N>,
    pool: Seq<Vec<N>>,
    sqrt: F,
    s: Seq<N>,
) -> bool {
    &&& s.len() == pool.len()
    &&& forall|i: int| 0 <= i < s.len() ==> is_cosine(emb, pool[i]@, sqrt, #[trigger] s[i])
}

/// `r` is the largest cosine of `emb` against `pool`, and at least zero.
pub open spec fn is_best_cosine<N: Scalar, F: Fn(N) -> N>(
    emb: Seq<N>,
    pool: Seq<Vec<N>>,
    sqrt: F,
    r: N,
) -> bool {
    exists|s: Seq<N>| #[trigger] are_cosines(emb, pool, sqrt, s) && r == peak(s, s.len())
}

/// Every vector of `pool` can be compared with `emb`.
pub open spec fn pool_fits<N: Scalar, F: Fn(N) -> N>(
    emb: Seq<N>,
    pool: Seq<Vec<N>>,
    sqrt: F,
) -> bool {
    forall|i: int| 0 <= i < pool.len() ==> cosine_fits(emb, #[trigger] pool[i]@, sqrt)
}

/// Maximum cosine similarity between `emb` and any vector in `pool`; zero when
/// the pool is empty or every similarity is negative.
pub fn cos_sim_max<N: Scalar, F: Fn(N) -> N>(emb: &[N], pool: &[Vec<N>], sqrt: &F) -> (r: N)
    requires
        forall|i: int| 0 <= i < pool.len() ==> (#[trigger] pool@[i])@.len() == emb.len(),
        forall|x: N| call_requires(*sqrt, (x,)),
        total::<N>() || lawful::<N>() && pool_fits(emb@, pool@, *sqrt),
    ensures
        lawful::<N>() ==> is_best_cosine(emb@, pool@, *sqrt, r),
{
    let mut best: N = N::from(0u16);
    let ghost mut found: Seq<N> = Seq::empty();
    let mut i: usize = 0;
    while i < pool.len()
        invariant
            i <= pool.len(),
            forall|j: int| 0 <= j < pool.len() ==> (#[trigger] pool@[j])@.len() == emb.len(),
            forall|x: N| call_requires(*sqrt, (x,)),
            total::<N>() || lawful::<N>() && pool_fits(emb@, pool@, *sqrt),
            found.len() == i,
            lawful::<N>() ==> forall|j: int|
                0 <= j < i ==> is_cosine(emb@, pool@[j]@, *sqrt, #[trigger] found[j]),
            lawful::<N>() ==> best == peak(found, i as nat),
        decreases pool.len() - i,
    {
        assert(pool@[i as int]@.len() == emb.len());
        let s: N = cos_similarity(emb, pool[i].as_slice(), sqrt);
        let ghost before = found;
        proof {
            found = found.push(s);
            lemma_peak_prefix(before, found, i as nat);
        }
        if s > best {
            best = s;
        }
        i = i + 1;
    }
    assert(lawful::<N>() ==> are_cosines(emb@, pool@, *sqrt, found));
    best
}

/// [`cos_sim_max`] over a double-ended queue.
pub fn cos_sim_max_iter<N: Scalar, F: Fn(N) -> N>(
    emb: &[N],
    pool: &VecDeque<Vec<N>>,
    sqrt: &F,
) -> (r: N)
    requires
        forall|i: int| 0 <= i < pool@.len() ==> (#[trigger] pool@[i])@.len() == emb.len(),
        forall|x: N| call_requires(*sqrt, (x,)),
        total::<N>() || lawful::<N>() && pool_fits(emb@, pool@, *sqrt),
    ensures
        lawful::<N>() ==> is_best_cosine(emb@, pool@, *sqrt, r),
{
    let mut best: N = N::from(0u16);
    let ghost mut found: Seq<N> = Seq::empty();
    let mut i: usize = 0;
    while i < pool.len()
        invariant
            i <= pool@.len(),
            forall|j: int| 0 <= j < pool@.len() ==> (#[trigger] pool@[j])@.len() == emb.len(),
            forall|x: N| call_requires(*sqrt, (x,)),
            total::<N>() || lawful::<N>() && pool_fits(emb@, pool@, *sqrt),
            found.len() == i,
            lawful::<N>() ==> forall|j: int|
                0 <= j < i ==> is_cosine(emb@, pool@[j]@, *sqrt, #[trigger] found[j]),
            lawful::<N>() ==> best == peak(found, i as nat),
        decreases pool@.len() - i,
    {
        assert(pool@[i as int]@.len() == emb.len());
        let s: N = cos_similarity(emb, pool[i].as_slice(), sqrt);
        let ghost before = found;
        proof {
            found = found.push(s);
            lemma_peak_prefix(before, found, i as nat);
        }
        if s > best {
            best = s;
        }
        i = i + 1;
    }
    assert(lawful::<N>() ==> are_cosines(emb@, pool@, *sqrt, found));
    best
}

/// The running maximum depends on the leading entries only.
pub proof fn lemma_peak_prefix<N: Scalar>(s: Seq<N>, t: Seq<N>, n: nat)
    requires
        n <= s.len(),
        n <= t.len(),
        forall|i: int| 0 <= i < n ==> #[trigger] s[i] == t[i],
    ensures
        peak(s, n) == peak(t, n),
    decreases n,
{
    if n > 0 {
        lemma_peak_prefix(s, t, (n - 1) as nat);
        assert(s[n - 1] == t[n - 1]);
    }
}

/// The largest similarity bounds each similarity it was taken over, and zero.
pub proof fn lemma_peak_bounds<N: Scalar>(s: Seq<N>, n: nat)
    requires
        n <= s.len(),
        total_order::<N>(),
    ensures
        le(num::<N>(0), peak(s, n)),
        forall|i: int| 0 <= i < n ==> le(#[trigger] s[i], peak(s, n)),
        n > 0 && peak(s, n) != num::<N>(0) ==> exists|i: int|
            0 <= i < n && #[trigger] s[i] == peak(s, n),
    decreases n,
{
    assert(le(num::<N>(0), num::<N>(0)));
    if n > 0 {
        let before = peak(s, (n - 1) as nat);
        lemma_peak_bounds(s, (n - 1) as nat);
        assert(gt(s[n - 1], before) == !le(s[n - 1], before));
        assert(le(s[n - 1], s[n - 1]));
        assert(le(before, s[n - 1]) || le(s[n - 1], before));
    }
}

/// `x` is a finite number: an infinity or a NaN minus itself is not zero.
pub open spec fn finite<N: Scalar>(x: N) -> bool {
    x.sub_spec(x).eq_spec(&num(0))
}

/// Whether `x` is a finite number.
pub fn is_finite<N: Scalar>(x: N) -> (r: bool)
    requires
        total::<N>() || lawful::<N>() && x.sub_req(x),
    ensures
        lawful::<N>() ==> r == finite(x),
{
    let zero: N = N::from(0u16);
    x - x == zero
}

/// The exponent of the Gaussian: `-z * z / 2` for `z = (f0_mean - mu) / sigma`.
pub open spec fn f0_exponent<N: Scalar>(f0_mean: N, mu: N, sigma: N) -> N {
    let z = f0_mean.sub_spec(mu).div_spec(sigma);
    num::<N>(0).sub_spec(frac(1, 2)).mul_spec(z).mul_spec(z)
}

/// No operation of [`f0_exponent`] leaves the range of `N`.
pub open spec fn f0_exponent_fits<N: Scalar>(f0_mean: N, mu: N, sigma: N) -> bool {
    let z = f0_mean.sub_spec(mu).div_spec(sigma);
    let c = num::<N>(0).sub_spec(frac(1, 2));
    &&& f0_mean.sub_req(f0_mean)
    &&& f0_mean.sub_req(mu)
    &&& f0_mean.sub_spec(mu).div_req(sigma)
    &&& frac_fits::<N>(1, 2)
    &&& num::<N>(0).sub_req(frac(1, 2))
    &&& c.mul_req(z)
    &&& c.mul_spec(z).mul_req(z)
}

/// `r` is the Gaussian fit of `f0_mean` to the enrolled pitch, and one where no
/// fit can be made.
pub open spec fn is_f0_fit<N: Scalar, F: Fn(N) -> N>(
    f0_mean: N,
    mu: N,
    sigma: N,
    exp: F,
    r: N,
) -> bool {
    if le(sigma, num(0)) || !finite(f0_mean) {
        r == num::<N>(1)
    } else {
        call_ensures(exp, (f0_exponent(f0_mean, mu, sigma),), r)
    }
}

/// Gaussian fit of `f0_mean` against the enrolled pitch. One (neutral) when
/// `sigma` is not positive or `f0_mean` is not finite.
pub fn f0_match<N: Scalar, F: Fn(N) -> N>(f0_mean: N, mu: N, sigma: N, exp: &F) -> (r: N)
    requires
        forall|x: N| call_requires(*exp, (x,)),
        total::<N>() || lawful::<N>() && (le(sigma, num(0)) || f0_exponent_fits(
            f0_mean,
            mu,
            sigma,
        )),
    ensures
        lawful::<N>() ==> is_f0_fit(f0_mean, mu, sigma, *exp, r),
{
    let zero: N = N::from(0u16);
    if sigma <= zero || !is_finite(f0_mean) {
        return N::from(1u16);
    }
    let z: N = (f0_mean - mu) / sigma;
    let c: N = zero - fraction::<N>(1, 2);
    exp(c * z * z)
}

// ---------------------------------------------------------------------
// Adaptive score normalisation
// ---------------------------------------------------------------------
/// The squared deviations of `s` from `mu`.
pub open spec fn squared_deviations<N: Scalar>(s: Seq<N>, mu: N) -> Seq<N> {
    s.map_values(|v: N| v.sub_spec(mu).mul_spec(v.sub_spec(mu)))
}

/// `r` is the score `raw` relative to the mean and spread of `top`; only the
/// mean is taken off when the spread is below `eps`.
pub open spec fn is_normalised<N: Scalar, F: Fn(N) -> N>(
    raw: N,
    top: Seq<N>,
    eps: N,
    sqrt: F,
    r: N,
) -> bool {
    let k = count::<N>(top.len());
    let mu = sum(top, top.len()).div_spec(k);
    let var = sum(squared_deviations(top, mu), top.len()).div_spec(k);
    exists|sigma: N|
        {
            &&& #[trigger] call_ensures(sqrt, (var,), sigma)
            &&& r == if lt(sigma, eps) {
                raw.sub_spec(mu)
            } else {
                raw.sub_spec(mu).div_spec(sigma)
            }
        }
}

/// No operation of [`is_normalised`] leaves the range of `N`.
pub open spec fn normalise_fits<N: Scalar, F: Fn(N) -> N>(
    raw: N,
    top: Seq<N>,
    eps: N,
    sqrt: F,
) -> bool {
    let k = count::<N>(top.len());
    let mu = sum(top, top.len()).div_spec(k);
    let var = sum(squared_deviations(top, mu), top.len()).div_spec(k);
    &&& count_fits::<N>(top.len())
    &&& sum_fits(top, top.len())
    &&& sum(top, top.len()).div_req(k)
    &&& forall|i: int|
        0 <= i < top.len() ==> (#[trigger] top[i]).sub_req(mu) && top[i].sub_spec(mu).mul_req(
            top[i].sub_spec(mu),
        )
    &&& sum_fits(squared_deviations(top, mu), top.len())
    &&& sum(squared_deviations(top, mu), top.len()).div_req(k)
    &&& raw.sub_req(mu)
    &&& forall|sigma: N|
        #[trigger] call_ensures(sqrt, (var,), sigma) && !lt(sigma, eps) ==> raw.sub_spec(
            mu,
        ).div_req(sigma)
}

/// Relates `raw` to the mean and spread of the scores in `top`.
pub fn normalise_against<N: Scalar, F: Fn(N) -> N>(raw: N, top: &Vec<N>, eps: N, sqrt: &F) -> (r: N)
    requires
        forall|x: N| call_requires(*sqrt, (x,)),
        total::<N>() || lawful::<N>() && normalise_fits(raw, top@, eps, *sqrt),
    ensures
        lawful::<N>() ==> is_normalised(raw, top@, eps, *sqrt, r),
{
    let k: N = from_count::<N>(top.len() as u64);
    let mu: N = sum_of(top.as_slice()) / k;
    let mut squares: Vec<N> = Vec::new();
    let mut i: usize = 0;
    while i < top.len()
        invariant
            i <= top.len(),
            squares.len() == i,
            lawful::<N>() ==> mu == sum(top@, top@.len()).div_spec(count(top@.len())),
            total::<N>() || lawful::<N>() && normalise_fits(raw, top@, eps, *sqrt),
            lawful::<N>() ==> forall|j: int|
                0 <= j < i ==> #[trigger] squares@[j] == squared_deviations(top@, mu)[j],
        decreases top.len() - i,
    {
        let x: N = top[i];
        assert(lawful::<N>() && !total::<N>() ==> top@[i as int].sub_req(mu));
        let d: N = x - mu;
        squares.push(d * d);
        i = i + 1;
    }
    assert(lawful::<N>() ==> squares@ =~= squared_deviations(top@, mu));
    let var: N = sum_of(squares.as_slice()) / k;
    let sigma: N = sqrt(var);
    if sigma < eps {
        return raw - mu;
    }
    (raw - mu) / sigma
}

/// The largest `k` of `scores`, taken out one after the other, the first among
/// equals first: `top` and `rest` together hold the entries of `scores`, and no entry
/// of `rest` exceeds one of `top`.
pub open spec fn is_top<N: Scalar>(scores: Seq<N>, k: nat, top: Seq<N>, rest: Seq<N>) -> bool {
    &&& top.len() == k
    &&& (top, rest) == split_top(scores, k)
    &&& (top + rest).to_multiset() =~= scores.to_multiset()
    &&& total_order::<N>() ==> forall|i: int, j: int|
        0 <= i < top.len() && 0 <= j < rest.len() ==> le(#[trigger] rest[j], #[trigger] top[i])
}

/// Splits off the largest `k` entries.
pub fn top_entries<N: Scalar>(scores: Vec<N>, k: usize) -> (r: Vec<N>)
    requires
        k <= scores@.len(),
    ensures
        r@.len() == k,
        lawful::<N>() ==> exists|rest: Seq<N>| #[trigger] is_top(scores@, k as nat, r@, rest),
{
    let mut rest: Vec<N> = scores;
    let mut top: Vec<N> = Vec::new();
    proof {
        assert(top@ + rest@ =~= scores@);
        assert(top@ =~= Seq::<N>::empty());
    }
    while top.len() < k
        invariant
            top@.len() <= k <= scores@.len(),
            top@.len() + rest@.len() == scores@.len(),
            (top@ + rest@).to_multiset() =~= scores@.to_multiset(),
            lawful::<N>() ==> (top@, rest@) == split_top(scores@, top@.len()),
            lawful::<N>() && total_order::<N>() ==> forall|i: int, j: int|
                0 <= i < top@.len() && 0 <= j < rest@.len() ==> le(
                    #[trigger] rest@[j],
                    #[trigger] top@[i],
                ),
        decreases k - top.len(),
    {
        let ghost rest_before = rest@;
        let ghost top_before = top@;
        let x: N = take_largest(&mut rest);
        proof {
            let at = choose|at: int|
                0 <= at < rest_before.len() && x == rest_before[at]
                    && #[trigger] rest_before.remove(at) == rest@;
            assert(rest@ == rest_before.remove(at));
            lemma_move_one(top_before, rest_before, at);
            assert forall|j: int| 0 <= j < rest@.len() implies exists|m: int|
                0 <= m < rest_before.len() && #[trigger] rest@[j] == #[trigger] rest_before[m] by {
                let m: int = if j < at {
                    j
                } else {
                    j + 1
                };
                assert(rest@[j] == rest_before[m]);
            }
        }
        top.push(x);
        proof {
            assert(top@ == top_before.push(x));
            if lawful::<N>() && total_order::<N>() {
                assert forall|i: int, j: int|
                    0 <= i < top@.len() && 0 <= j < rest@.len() implies le(
                    #[trigger] rest@[j],
                    #[trigger] top@[i],
                ) by {
                    let r = rest@[j];
                    let m = choose|m: int|
                        0 <= m < rest_before.len() && r == #[trigger] rest_before[m];
                    assert(le(rest_before[m], x));
                    if i < top_before.len() {
                        assert(le(rest_before[m], top_before[i]));
                    }
                }
            }
        }
    }
    assert(lawful::<N>() ==> is_top(scores@, k as nat, top@, rest@));
    top
}

/// The inner products of the rows of `cohort` with `embedding`, each times
/// `inv`.
pub open spec fn impostor_scores<N: Scalar>(
    embedding: Seq<N>,
    cohort: Seq<Vec<N>>,
    inv: N,
) -> Seq<N> {
    cohort.map_values(|row: Vec<N>| dot(row@, embedding, embedding.len()).mul_spec(inv))
}

/// The smaller of two counts.
pub open spec fn at_most(a: nat, b: nat) -> nat {
    if a < b {
        a
    } else {
        b
    }
}

/// What [`as_norm_score`] returns: `raw` itself without a cohort, without a
/// usable embedding or for `top_k == 0`; otherwise `raw` related to the largest
/// `top_k` impostor scores.
pub open spec fn is_as_norm<N: Scalar, F: Fn(N) -> N>(
    embedding: Seq<N>,
    raw: N,
    cohort: Seq<Vec<N>>,
    top_k: nat,
    eps: N,
    sqrt: F,
    r: N,
) -> bool {
    if cohort.len() == 0 {
        r == raw
    } else {
        let k = at_most(top_k, cohort.len());
        exists|norm: N|
            {
                &&& #[trigger] call_ensures(sqrt, (dot(embedding, embedding, embedding.len()),), norm)
                &&& if lt(norm, eps) || k == 0 {
                    r == raw
                } else {
                    let scores = impostor_scores(embedding, cohort, num::<N>(1).div_spec(norm));
                    if k == scores.len() {
                        is_normalised(raw, scores, eps, sqrt, r)
                    } else {
                        exists|top: Seq<N>, rest: Seq<N>|
                            #[trigger] is_top(scores, k, top, rest) && is_normalised(
                                raw,
                                top,
                                eps,
                                sqrt,
                                r,
                            )
                    }
                }
            }
    }
}

/// No operation of [`as_norm_score`] leaves the range of `N`.
pub open spec fn as_norm_fits<N: Scalar, F: Fn(N) -> N>(
    embedding: Seq<N>,
    raw: N,
    cohort: Seq<Vec<N>>,
    top_k: nat,
    eps: N,
    sqrt: F,
) -> bool {
    let k = at_most(top_k, cohort.len());
    &&& dot_fits(embedding, embedding, embedding.len())
    &&& forall|norm: N|
        #[trigger] call_ensures(sqrt, (dot(embedding, embedding, embedding.len()),), norm) && !lt(
            norm,
            eps,
        ) ==> {
            let inv = num::<N>(1).div_spec(norm);
            let scores = impostor_scores(embedding, cohort, inv);
            &&& num::<N>(1).div_req(norm)
            &&& forall|j: int|
                0 <= j < cohort.len() ==> dot_fits(
                    (#[trigger] cohort[j])@,
                    embedding,
                    embedding.len(),
                ) && dot(cohort[j]@, embedding, embedding.len()).mul_req(inv)
            &&& k == scores.len() ==> normalise_fits(raw, scores, eps, sqrt)
            &&& forall|top: Seq<N>, rest: Seq<N>|
                #[trigger] is_top(scores, k, top, rest) ==> normalise_fits(raw, top, eps, sqrt)
        }
}

/// Adaptive S-norm of `raw` against an impostor cohort of unit rows. `eps` is
/// the size below which a norm or a spread counts as zero.
pub fn as_norm_score<N: Scalar, F: Fn(N) -> N>(
    embedding: &[N],
    raw: N,
    cohort: &[Vec<N>],
    top_k: usize,
    eps: N,
    sqrt: &F,
) -> (r: N)
    requires
        forall|i: int| 0 <= i < cohort.len() ==> (#[trigger] cohort@[i])@.len() == embedding.len(),
        forall|x: N| call_requires(*sqrt, (x,)),
        cohort.len() == 0 || total::<N>() || lawful::<N>() && as_norm_fits(
            embedding@,
            raw,
            cohort@,
            top_k as nat,
            eps,
            *sqrt,
        ),
    ensures
        cohort@.len() == 0 || top_k == 0 ==> r == raw,
        lawful::<N>() ==> is_as_norm(embedding@, raw, cohort@, top_k as nat, eps, *sqrt, r),
{
    if cohort.len() == 0 {
        return raw;
    }
    let norm: N = sqrt(inner_product(embedding, embedding));
    if norm < eps {
        return raw;
    }
    let one: N = N::from(1u16);
    let inv: N = one / norm;
    let mut scores: Vec<N> = Vec::new();
    let mut i: usize = 0;
    while i < cohort.len()
        invariant
            total::<N>() || lawful::<N>() && as_norm_fits(
                embedding@,
                raw,
                cohort@,
                top_k as nat,
                eps,
                *sqrt,
            ),
            lawful::<N>() ==> call_ensures(
                *sqrt,
                (dot(embedding@, embedding@, embedding@.len()),),
                norm,
            ) && !lt(norm, eps) && inv == num::<N>(1).div_spec(norm),
            i <= cohort.len(),
            scores.len() == i,
            forall|j: int|
                0 <= j < cohort.len() ==> (#[trigger] cohort@[j])@.len() == embedding.len(),
            lawful::<N>() ==> forall|j: int|
                0 <= j < i ==> #[trigger] scores@[j] == impostor_scores(embedding@, cohort@, inv)[j],
        decreases cohort.len() - i,
    {
        assert(cohort@[i as int]@.len() == embedding.len());
        let d: N = inner_product(cohort[i].as_slice(), embedding);
        scores.push(d * inv);
        i = i + 1;
    }
    let n: usize = scores.len();
    let k: usize = if top_k < n {
        top_k
    } else {
        n
    };
    if k == 0 {
        return raw;
    }
    let ghost all = scores@;
    proof {
        if lawful::<N>() {
            assert(all =~= impostor_scores(embedding@, cohort@, inv));
        }
    }
    let top: Vec<N> = if k == n {
        scores
    } else {
        top_entries(scores, k)
    };
    proof {
        if lawful::<N>() && k != n {
            let rest = choose|rest: Seq<N>| #[trigger] is_top(all, k as nat, top@, rest);
            assert(is_top(all, k as nat, top@, rest));
            assert(k as nat == at_most(top_k as nat, cohort@.len()));
        }
    }
    normalise_against(raw, &top, eps, sqrt)
}

/// The score the speaker gate compares: the best cosine against the enrolled pool,
/// normalised against the cohort.
pub fn target_score_as_norm<N: Scalar, F: Fn(N) -> N>(
    embedding: &[N],
    pool: &[Vec<N>],
    cohort: &[Vec<N>],
    as_norm_top_k: usize,
    eps: N,
    sqrt: &F,
) -> (r: N)
    requires
        forall|i: int| 0 <= i < pool.len() ==> (#[trigger] pool@[i])@.len() == embedding.len(),
        forall|i: int| 0 <= i < cohort.len() ==> (#[trigger] cohort@[i])@.len() == embedding.len(),
        forall|x: N| call_requires(*sqrt, (x,)),
        total::<N>() || lawful::<N>() && pool_fits(embedding@, pool@, *sqrt) && (cohort.len() == 0
            || forall|cs: N| #[trigger]
            is_best_cosine(embedding@, pool@, *sqrt, cs) ==> as_norm_fits(
                embedding@,
                cs,
                cohort@,
                as_norm_top_k as nat,
                eps,
                *sqrt,
            )),
    ensures
        lawful::<N>() ==> exists|cs: N|
            {
                &&& #[trigger] is_best_cosine(embedding@, pool@, *sqrt, cs)
                &&& is_as_norm(embedding@, cs, cohort@, as_norm_top_k as nat, eps, *sqrt, r)
            },
{
    let cs: N = cos_sim_max(embedding, pool, sqrt);
    as_norm_score(embedding, cs, cohort, as_norm_top_k, eps, sqrt)
}

// ---------------------------------------------------------------------
// The speaker gate
// ---------------------------------------------------------------------
/// Thresholds and timing constants of the speaker gate and its envelope.
#[derive(Clone, Copy, Debug)]
pub struct GateConfig<N> {
    /// Pass threshold for raw similarity scores.
    pub theta_pass: N,
    /// Pass threshold for scores normalised against a cohort.
    pub theta_pass_as_norm: N,
    /// Whether scores are normalised.
    pub use_as_norm: bool,
    /// How long the speaker gate stays on after the score drops below the threshold.
    pub hangover_ms: N,
    /// Envelope attack time in milliseconds.
    pub attack_ms: N,
    /// Envelope release time in milliseconds.
    pub release_ms: N,
    /// Auto-learn admission threshold for raw similarity scores.
    pub theta_learn: N,
    /// Auto-learn admission threshold for normalised scores.
    pub theta_learn_as_norm: N,
    /// Minimum pitch match before an embedding can join auto-learn.
    pub theta_f0: N,
    /// Minimum length of a continuous speech run, in seconds.
    pub min_continuous_speech_sec: N,
}

/// The default gate: 0.3 to pass, 0.8 to learn, 300 ms hangover, 15 ms attack,
/// 100 ms release.
pub open spec fn default_gate<N: Scalar>() -> GateConfig<N> {
    GateConfig {
        theta_pass: frac(3, 10),
        theta_pass_as_norm: frac(9, 4),
        use_as_norm: false,
        hangover_ms: num(300),
        attack_ms: num(15),
        release_ms: num(100),
        theta_learn: frac(4, 5),
        theta_learn_as_norm: frac(13, 4),
        theta_f0: frac(7, 10),
        min_continuous_speech_sec: num(1),
    }
}

impl<N: Scalar> GateConfig<N> {
    /// The defaults of [`default_gate`].
    pub fn default() -> (r: Self)
        requires
            total::<N>() || lawful::<N>() && frac_fits::<N>(3, 10) && frac_fits::<N>(9, 4)
                && frac_fits::<N>(4, 5) && frac_fits::<N>(13, 4) && frac_fits::<N>(7, 10),
        ensures
            lawful::<N>() ==> r == default_gate::<N>(),
    {
        GateConfig {
            theta_pass: fraction(3, 10),
            theta_pass_as_norm: fraction(9, 4),
            use_as_norm: false,
            hangover_ms: N::from(300u16),
            attack_ms: N::from(15u16),
            release_ms: N::from(100u16),
            theta_learn: fraction(4, 5),
            theta_learn_as_norm: fraction(13, 4),
            theta_f0: fraction(7, 10),
            min_continuous_speech_sec: N::from(1u16),
        }
    }

    /// The pass threshold in force.
    pub open spec fn theta(self) -> N {
        if self.use_as_norm {
            self.theta_pass_as_norm
        } else {
            self.theta_pass
        }
    }
}

/// The binary gate. It opens at once on a passing score and closes only after
/// the scores have stayed below the threshold for the hangover time.
#[derive(Clone, Copy, Debug)]
pub struct GateState<N> {
    config: GateConfig<N>,
    is_on: bool,
    elapsed_off_ms: N,
}

/// The state of a gate: whether it is open, and the time below the threshold
/// counted so far.
pub struct GateView<N> {
    pub on: bool,
    pub elapsed: N,
}

impl<N> View for GateState<N> {
    type V = GateView<N>;

    closed spec fn view(&self) -> GateView<N> {
        GateView { on: self.is_on, elapsed: self.elapsed_off_ms }
    }
}

/// The speaker gate after `dt_ms` with the given score.
pub open spec fn gate_step<N: Scalar>(
    config: GateConfig<N>,
    g: GateView<N>,
    score: N,
    dt_ms: N,
) -> GateView<N> {
    if ge(score, config.theta()) {
        GateView { on: true, elapsed: num(0) }
    } else if g.on {
        let elapsed = g.elapsed.add_spec(dt_ms);
        GateView { on: lt(elapsed, config.hangover_ms), elapsed }
    } else {
        g
    }
}

impl<N: Scalar> GateState<N> {
    /// The thresholds of this gate.
    pub closed spec fn rules(&self) -> GateConfig<N> {
        self.config
    }

    /// A closed gate.
    pub fn new(config: GateConfig<N>) -> (r: Self)
        ensures
            r.rules() == config,
            !r@.on,
            lawful::<N>() ==> r@ == (GateView { on: false, elapsed: num::<N>(0) }),
    {
        GateState { config, is_on: false, elapsed_off_ms: N::from(0u16) }
    }

    /// Whether the speaker gate is open.
    pub fn is_on(&self) -> (r: bool)
        ensures
            r == self@.on,
    {
        self.is_on
    }

    fn theta_pass(&self) -> (r: N)
        ensures
            r == self.rules().theta(),
    {
        if self.config.use_as_norm {
            self.config.theta_pass_as_norm
        } else {
            self.config.theta_pass
        }
    }

    /// Steps the speaker gate forward by `dt_ms` with the latest `score` and returns
    /// whether it is open.
    pub fn update(&mut self, score: N, dt_ms: N) -> (r: bool)
        requires
            total::<N>() || lawful::<N>() && (ge(score, old(self).rules().theta()) || !old(
                self)@.on || old(self)@.elapsed.add_req(dt_ms)),
        ensures
            final(self).rules() == old(self).rules(),
            r == final(self)@.on,
            lawful::<N>() ==> final(self)@ == gate_step(
                old(self).rules(),
                old(self)@,
                score,
                dt_ms,
            ),
    {
        if score >= self.theta_pass() {
            self.is_on = true;
            self.elapsed_off_ms = N::from(0u16);
            return true;
        }
        if self.is_on {
            self.elapsed_off_ms = self.elapsed_off_ms + dt_ms;
            if self.elapsed_off_ms < self.config.hangover_ms {
                return true;
            }
            self.is_on = false;
            return false;
        }
        false
    }
}

/// A gate that is closed opens only on a passing score.
pub proof fn lemma_gate_opens_on_score_only<N: Scalar>(
    config: GateConfig<N>,
    g: GateView<N>,
    score: N,
    dt_ms: N,
)
    requires
        !g.on,
    ensures
        gate_step(config, g, score, dt_ms).on == ge(score, config.theta()),
{
}

/// The speaker gate after `n` steps of `dt_ms` below the threshold.
pub open spec fn gate_idle<N: Scalar>(
    config: GateConfig<N>,
    g: GateView<N>,
    score: N,
    dt_ms: N,
    n: nat,
) -> GateView<N>
    decreases n,
{
    if n == 0 {
        g
    } else {
        gate_step(config, gate_idle(config, g, score, dt_ms, (n - 1) as nat), score, dt_ms)
    }
}

/// On integer milliseconds an open gate whose last score passed stays open for
/// exactly as many low frames as end before the hangover time.
pub proof fn lemma_hangover_length(
    config: GateConfig<u64>,
    g: GateView<u64>,
    score: u64,
    dt_ms: u64,
    n: nat,
)
    requires
        g.on,
        g.elapsed == 0,
        score < config.theta(),
        n * dt_ms < config.hangover_ms,
    ensures
        gate_idle(config, g, score, dt_ms, n) == (GateView {
            on: true,
            elapsed: (n * dt_ms) as u64,
        }),
        (n + 1) * dt_ms <= u64::MAX ==> (gate_idle(config, g, score, dt_ms, n + 1).on <==> (n + 1)
            * dt_ms < config.hangover_ms),
    decreases n,
{
    if n > 0 {
        assert((n - 1) * dt_ms <= n * dt_ms) by (nonlinear_arith);
        assert((n - 1) * dt_ms + dt_ms == n * dt_ms) by (nonlinear_arith);
        lemma_hangover_length(config, g, score, dt_ms, (n - 1) as nat);
    } else {
        assert(n * dt_ms == 0) by (nonlinear_arith)
            requires
                n == 0,
        ;
    }
    assert(n * dt_ms + dt_ms == (n + 1) * dt_ms) by (nonlinear_arith);
    assert(gate_idle(config, g, score, dt_ms, n + 1) == gate_step(
        config,
        gate_idle(config, g, score, dt_ms, n),
        score,
        dt_ms,
    ));
}

/// Admission to auto-learn: the score, the pitch match and the length of the
/// speech run all reach their thresholds.
pub fn should_admit_auto_learn<N: Scalar>(
    score: N,
    f0_match_value: N,
    continuous_speech_ms: N,
    config: &GateConfig<N>,
) -> (r: bool)
    requires
        total::<N>() || lawful::<N>() && config.min_continuous_speech_sec.mul_req(num(1000)),
    ensures
        lawful::<N>() ==> r == admits(score, f0_match_value, continuous_speech_ms, *config),
{
    let theta_learn: N = if config.use_as_norm {
        config.theta_learn_as_norm
    } else {
        config.theta_learn
    };
    let min_ms: N = config.min_continuous_speech_sec * N::from(1000u16);
    score >= theta_learn && f0_match_value >= config.theta_f0 && continuous_speech_ms >= min_ms
}

/// The admission rule of [`should_admit_auto_learn`].
pub open spec fn admits<N: Scalar>(
    score: N,
    f0_match_value: N,
    continuous_speech_ms: N,
    config: GateConfig<N>,
) -> bool {
    &&& ge(
        score,
        if config.use_as_norm {
            config.theta_learn_as_norm
        } else {
            config.theta_learn
        },
    )
    &&& ge(f0_match_value, config.theta_f0)
    &&& ge(continuous_speech_ms, config.min_continuous_speech_sec.mul_spec(num(1000)))
}

// ---------------------------------------------------------------------
// The envelope
// ---------------------------------------------------------------------
/// The time constant of the follower in samples.
pub open spec fn tau_samples<N: Scalar>(ms: N, sample_rate: u32) -> N {
    ms.mul_spec(count(sample_rate as nat)).div_spec(num(1000))
}

/// What one sample contributes to the exponential decay.
pub open spec fn decay_exponent<N: Scalar>(ms: N, sample_rate: u32) -> N {
    num::<N>(0).sub_spec(num(1)).div_spec(tau_samples(ms, sample_rate))
}

/// `c` is the share of the remaining distance that the follower covers per
/// sample: all of it for a time constant of zero or less, otherwise
/// `1 - exp(-1 / tau)`.
pub open spec fn is_coef<N: Scalar, F: Fn(N) -> N>(ms: N, sample_rate: u32, exp: F, c: N) -> bool {
    if le(ms, num(0)) {
        c == num::<N>(1)
    } else {
        exists|e: N| #[trigger]
            call_ensures(exp, (decay_exponent(ms, sample_rate),), e) && c == num::<N>(1).sub_spec(e)
    }
}

/// No operation of [`is_coef`] leaves the range of `N`.
pub open spec fn coef_fits<N: Scalar, F: Fn(N) -> N>(ms: N, sample_rate: u32, exp: F) -> bool {
    let tau = tau_samples(ms, sample_rate);
    le(ms, num(0)) || {
        &&& count_fits::<N>(sample_rate as nat)
        &&& ms.mul_req(count(sample_rate as nat))
        &&& ms.mul_spec(count(sample_rate as nat)).div_req(num(1000))
        &&& num::<N>(0).sub_req(num(1))
        &&& num::<N>(0).sub_spec(num(1)).div_req(tau)
        &&& forall|e: N| #[trigger]
            call_ensures(exp, (decay_exponent(ms, sample_rate),), e) ==> num::<N>(1).sub_req(e)
    }
}

fn coef<N: Scalar, F: Fn(N) -> N>(ms: N, sample_rate: u32, exp: &F) -> (c: N)
    requires
        forall|x: N| call_requires(*exp, (x,)),
        total::<N>() || lawful::<N>() && coef_fits(ms, sample_rate, *exp),
    ensures
        lawful::<N>() ==> is_coef(ms, sample_rate, *exp, c),
{
    let zero: N = N::from(0u16);
    let one: N = N::from(1u16);
    if ms <= zero {
        return one;
    }
    let tau: N = ms * from_count::<N>(sample_rate as u64) / N::from(1000u16);
    let x: N = (zero - one) / tau;
    assert(lawful::<N>() ==> x == decay_exponent(ms, sample_rate));
    let e: N = exp(x);
    one - e
}

/// Attack/release follower between silence and full gain.
#[derive(Clone, Copy, Debug)]
pub struct EnvelopeState<N> {
    attack: N,
    release: N,
    value: N,
}

/// A follower: its two step shares and its current value.
pub struct EnvelopeView<N> {
    pub attack: N,
    pub release: N,
    pub value: N,
}

impl<N> View for EnvelopeState<N> {
    type V = EnvelopeView<N>;

    closed spec fn view(&self) -> EnvelopeView<N> {
        EnvelopeView { attack: self.attack, release: self.release, value: self.value }
    }
}

/// The follower's value after `k` samples toward `target`.
pub open spec fn glide<N: Scalar>(v: N, c: N, target: N, k: nat) -> N
    decreases k,
{
    if k == 0 {
        v
    } else {
        let p = glide(v, c, target, (k - 1) as nat);
        p.add_spec(c.mul_spec(target.sub_spec(p)))
    }
}

/// No operation of [`glide`] over `n` samples leaves the range of `N`.
pub open spec fn glide_fits<N: Scalar>(v: N, c: N, target: N, n: nat) -> bool {
    forall|k: nat|
        k < n ==> {
            let p = #[trigger] glide(v, c, target, k);
            &&& target.sub_req(p)
            &&& c.mul_req(target.sub_spec(p))
            &&& p.add_req(c.mul_spec(target.sub_spec(p)))
        }
}

impl<N> EnvelopeView<N> {
    /// The step share toward on or off.
    pub open spec fn share(self, on: bool) -> N {
        if on {
            self.attack
        } else {
            self.release
        }
    }
}

/// The value the follower heads for.
pub open spec fn goal<N: Scalar>(on: bool) -> N {
    if on {
        num(1)
    } else {
        num(0)
    }
}

impl<N: Scalar> EnvelopeState<N> {
    /// A silent follower for audio at `sample_rate`.
    pub fn new<F: Fn(N) -> N>(config: GateConfig<N>, sample_rate: u32, exp: &F) -> (r: Self)
        requires
            forall|x: N| call_requires(*exp, (x,)),
            total::<N>() || lawful::<N>() && coef_fits(config.attack_ms, sample_rate, *exp)
                && coef_fits(config.release_ms, sample_rate, *exp),
        ensures
            lawful::<N>() ==> {
                &&& is_coef(config.attack_ms, sample_rate, *exp, r@.attack)
                &&& is_coef(config.release_ms, sample_rate, *exp, r@.release)
                &&& r@.value == num::<N>(0)
            },
    {
        EnvelopeState {
            attack: coef(config.attack_ms, sample_rate, exp),
            release: coef(config.release_ms, sample_rate, exp),
            value: N::from(0u16),
        }
    }

    /// The last emitted gain.
    pub fn value(&self) -> (r: N)
        ensures
            r == self@.value,
    {
        self.value
    }

    /// Replaces the current value.
    pub fn set_value(&mut self, v: N)
        ensures
            final(self)@ == (EnvelopeView { value: v, ..old(self)@ }),
    {
        self.value = v;
    }

    /// Steps `n_samples` toward on or off and returns the gain at each sample.
    pub fn advance(&mut self, target_on: bool, n_samples: usize) -> (out: Vec<N>)
        requires
            total::<N>() || lawful::<N>() && glide_fits(
                old(self)@.value,
                old(self)@.share(target_on),
                goal(target_on),
                n_samples as nat,
            ),
        ensures
            out@.len() == n_samples,
            final(self)@.attack == old(self)@.attack,
            final(self)@.release == old(self)@.release,
            lawful::<N>() ==> forall|i: int|
                0 <= i < n_samples ==> #[trigger] out@[i] == glide(
                    old(self)@.value,
                    old(self)@.share(target_on),
                    goal(target_on),
                    (i + 1) as nat,
                ),
            lawful::<N>() ==> final(self)@.value == glide(
                old(self)@.value,
                old(self)@.share(target_on),
                goal(target_on),
                n_samples as nat,
            ),
    {
        let share: N = if target_on {
            self.attack
        } else {
            self.release
        };
        let target: N = if target_on {
            N::from(1u16)
        } else {
            N::from(0u16)
        };
        let mut out: Vec<N> = Vec::new();
        let mut v: N = self.value;
        let mut k: usize = 0;
        while k < n_samples
            invariant
                k <= n_samples,
                out@.len() == k,
                share == old(self)@.share(target_on),
                lawful::<N>() ==> target == goal::<N>(target_on),
                total::<N>() || lawful::<N>() && glide_fits(
                    old(self)@.value,
                    share,
                    goal(target_on),
                    n_samples as nat,
                ),
                lawful::<N>() ==> v == glide(old(self)@.value, share, goal(target_on), k as nat),
                lawful::<N>() ==> forall|i: int|
                    0 <= i < k ==> #[trigger] out@[i] == glide(
                        old(self)@.value,
                        share,
                        goal(target_on),
                        (i + 1) as nat,
                    ),
            decreases n_samples - k,
        {
            let gap: N = target - v;
            let step: N = share * gap;
            v = v + step;
            out.push(v);
            k = k + 1;
        }
        self.value = v;
        out
    }
}

/// Why an envelope could not be applied.
#[derive(Debug, PartialEq, Eq, Structural)]
pub enum ApplyEnvelopeError {
    /// The decisions were empty or did not start at sample 0.
    DecisionsMustStartAtZero,
}

impl ApplyEnvelopeError {
    /// The error in words.
    pub fn message(&self) -> (r: String)
        ensures
            r@ == "decisions must start with sample 0"@,
    {
        "decisions must start with sample 0".to_owned()
    }
}

/// Where the region of decision `i` ends: at the next decision, or at the end
/// of the audio.
pub open spec fn region_end(decisions: Seq<(usize, bool)>, i: int, n: nat) -> int {
    if i + 1 < decisions.len() {
        decisions[i + 1].0 as int
    } else {
        n as int
    }
}

/// The region of decision `i` lies inside the audio.
pub open spec fn region_valid(decisions: Seq<(usize, bool)>, i: int, n: nat) -> bool {
    decisions[i].0 <= region_end(decisions, i, n) <= n
}

/// The follower's value after the first `m` decisions.
pub open spec fn level_after<N: Scalar>(
    env: EnvelopeView<N>,
    decisions: Seq<(usize, bool)>,
    n: nat,
    m: nat,
) -> N
    decreases m,
{
    if m == 0 {
        env.value
    } else {
        let before = level_after(env, decisions, n, (m - 1) as nat);
        let i = m - 1;
        if region_valid(decisions, i, n) {
            glide(
                before,
                env.share(decisions[i].1),
                goal(decisions[i].1),
                (region_end(decisions, i, n) - decisions[i].0) as nat,
            )
        } else {
            before
        }
    }
}

/// The gain at sample `k` of the region of decision `i`.
pub open spec fn region_gain<N: Scalar>(
    env: EnvelopeView<N>,
    decisions: Seq<(usize, bool)>,
    n: nat,
    i: int,
    k: int,
) -> N {
    glide(
        level_after(env, decisions, n, i as nat),
        env.share(decisions[i].1),
        goal(decisions[i].1),
        (k - decisions[i].0 + 1) as nat,
    )
}

/// The output once the first `m` decisions were applied: each valid region
/// holds its audio times its gain, what no region covered is zero.
pub open spec fn enveloped<N: Scalar>(
    env: EnvelopeView<N>,
    audio: Seq<N>,
    decisions: Seq<(usize, bool)>,
    m: nat,
) -> Seq<N>
    decreases m,
{
    if m == 0 {
        Seq::new(audio.len(), |k: int| num::<N>(0))
    } else {
        let before = enveloped(env, audio, decisions, (m - 1) as nat);
        let i = m - 1;
        Seq::new(
            audio.len(),
            |k: int|
                if region_valid(decisions, i, audio.len()) && decisions[i].0 <= k < region_end(
                    decisions,
                    i,
                    audio.len(),
                ) {
                    audio[k].mul_spec(region_gain(env, decisions, audio.len(), i, k))
                } else {
                    before[k]
                },
        )
    }
}

/// No operation of [`apply_envelope`] leaves the range of `N`.
pub open spec fn enveloped_fits<N: Scalar>(
    env: EnvelopeView<N>,
    audio: Seq<N>,
    decisions: Seq<(usize, bool)>,
) -> bool {
    forall|i: int|
        #![trigger decisions[i]]
        0 <= i < decisions.len() && region_valid(decisions, i, audio.len()) ==> {
            &&& glide_fits(
                level_after(env, decisions, audio.len(), i as nat),
                env.share(decisions[i].1),
                goal(decisions[i].1),
                (region_end(decisions, i, audio.len()) - decisions[i].0) as nat,
            )
            &&& forall|k: int|
                decisions[i].0 <= k < region_end(decisions, i, audio.len()) ==> (
                #[trigger] audio[k]).mul_req(region_gain(env, decisions, audio.len(), i, k))
        }
}

/// Multiplies `audio` by the follower's gain, region by region, starting from
/// the follower as given. A region that runs backwards or past the audio is
/// left out.
pub fn apply_follower<N: Scalar>(
    env: EnvelopeState<N>,
    audio: &[N],
    decisions: &[(usize, bool)],
) -> (out: Vec<N>)
    requires
        total::<N>() || lawful::<N>() && enveloped_fits(env@, audio@, decisions@),
    ensures
        out@.len() == audio@.len(),
        lawful::<N>() ==> out@ =~= enveloped(env@, audio@, decisions@, decisions@.len()),
{
    let n: usize = audio.len();
    let mut follower: EnvelopeState<N> = env;
    let mut out: Vec<N> = Vec::new();
    let zero: N = N::from(0u16);
    let mut z: usize = 0;
    while z < n
        invariant
            z <= n,
            out@.len() == z,
            lawful::<N>() ==> zero == num::<N>(0),
            lawful::<N>() ==> forall|j: int| 0 <= j < z ==> #[trigger] out@[j] == num::<N>(0),
        decreases n - z,
    {
        out.push(zero);
        z = z + 1;
    }
    let mut i: usize = 0;
    assert(lawful::<N>() ==> out@ =~= enveloped(env@, audio@, decisions@, 0));
    while i < decisions.len()
        invariant
            n == audio@.len(),
            i <= decisions@.len(),
            out@.len() == n,
            follower@.attack == env@.attack,
            follower@.release == env@.release,
            total::<N>() || lawful::<N>() && enveloped_fits(env@, audio@, decisions@),
            lawful::<N>() ==> follower@.value == level_after(env@, decisions@, n as nat, i as nat),
            lawful::<N>() ==> out@ =~= enveloped(env@, audio@, decisions@, i as nat),
        decreases decisions@.len() - i,
    {
        let start: usize = decisions[i].0;
        let is_on: bool = decisions[i].1;
        assert(decisions@[i as int] == (start, is_on));
        let end: usize = if i + 1 < decisions.len() {
            decisions[i + 1].0
        } else {
            n
        };
        if start <= end && end <= n {
            let ghost before = out@;
            let gain: Vec<N> = follower.advance(is_on, end - start);
            let mut k: usize = 0;
            while k < gain.len()
                invariant
                    n == audio@.len(),
                    i < decisions@.len(),
                    decisions@[i as int] == (start, is_on),
                    end == region_end(decisions@, i as int, n as nat),
                    start <= end <= n,
                    gain@.len() == end - start,
                    k <= gain@.len(),
                    out@.len() == n,
                    total::<N>() || lawful::<N>() && enveloped_fits(env@, audio@, decisions@),
                    lawful::<N>() ==> forall|j: int|
                        0 <= j < gain@.len() ==> #[trigger] gain@[j] == region_gain(
                            env@,
                            decisions@,
                            n as nat,
                            i as int,
                            start + j,
                        ),
                    lawful::<N>() ==> forall|j: int|
                        start <= j < start + k ==> #[trigger] out@[j] == audio@[j].mul_spec(
                            region_gain(env@, decisions@, n as nat, i as int, j),
                        ),
                    forall|j: int|
                        0 <= j < n && !(start <= j < start + k) ==> #[trigger] out@[j]
                            == before[j],
                    before.len() == n,
                decreases gain@.len() - k,
            {
                let x: N = audio[start + k];
                let g: N = gain[k];
                proof {
                    if !total::<N>() {
                        assert(decisions@[i as int].0 <= start + k);
                        assert(audio@[start + k].mul_req(
                            region_gain(env@, decisions@, n as nat, i as int, start + k),
                        ));
                    }
                }
                let y: N = x * g;
                out.set(start + k, y);
                k = k + 1;
            }
        }
        i = i + 1;
    }
    out
}

/// Applies the attack/release envelope to `audio`, given gate decisions as
/// `(start_sample, is_on)` pairs. The region of a decision runs to the next
/// one, or to the end.
pub fn apply_envelope<N: Scalar, F: Fn(N) -> N>(
    audio: &[N],
    decisions: &[(usize, bool)],
    sample_rate: u32,
    config: GateConfig<N>,
    exp: &F,
) -> (r: Result<Vec<N>, ApplyEnvelopeError>)
    requires
        forall|x: N| call_requires(*exp, (x,)),
        total::<N>() || lawful::<N>() && apply_fits(
            audio@,
            decisions@,
            sample_rate,
            config,
            *exp,
        ),
    ensures
        is_enveloped(audio@, decisions@, sample_rate, config, *exp, r),
{
    if decisions.len() == 0 || decisions[0].0 != 0 {
        return Err(ApplyEnvelopeError::DecisionsMustStartAtZero);
    }
    let env: EnvelopeState<N> = EnvelopeState::new(config, sample_rate, exp);
    assert(lawful::<N>() ==> is_fresh(config, sample_rate, *exp, env@));
    Ok(apply_follower(env, audio, decisions))
}

/// `r` is the outcome of applying the envelope: an error when the decisions do
/// not start at sample 0, otherwise the audio times the gain of a follower that
/// starts silent.
pub open spec fn is_enveloped<N: Scalar, F: Fn(N) -> N>(
    audio: Seq<N>,
    decisions: Seq<(usize, bool)>,
    sample_rate: u32,
    config: GateConfig<N>,
    exp: F,
    r: Result<Vec<N>, ApplyEnvelopeError>,
) -> bool {
    &&& r is Err <==> decisions.len() == 0 || decisions[0].0 != 0
    &&& r matches Ok(out) ==> {
        &&& out@.len() == audio.len()
        &&& lawful::<N>() ==> exists|env: EnvelopeView<N>| #[trigger]
            is_fresh(config, sample_rate, exp, env) && out@ == enveloped(
                env,
                audio,
                decisions,
                decisions.len(),
            )
    }
}

/// No operation of [`apply_envelope`] leaves the range of `N`.
pub open spec fn apply_fits<N: Scalar, F: Fn(N) -> N>(
    audio: Seq<N>,
    decisions: Seq<(usize, bool)>,
    sample_rate: u32,
    config: GateConfig<N>,
    exp: F,
) -> bool {
    &&& coef_fits(config.attack_ms, sample_rate, exp)
    &&& coef_fits(config.release_ms, sample_rate, exp)
    &&& forall|env: EnvelopeView<N>| #[trigger]
        is_fresh(config, sample_rate, exp, env) ==> enveloped_fits(env, audio, decisions)
}

/// `env` is a silent follower with the time constants of `config`.
pub open spec fn is_fresh<N: Scalar, F: Fn(N) -> N>(
    config: GateConfig<N>,
    sample_rate: u32,
    exp: F,
    env: EnvelopeView<N>,
) -> bool {
    &&& is_coef(config.attack_ms, sample_rate, exp, env.attack)
    &&& is_coef(config.release_ms, sample_rate, exp, env.release)
    &&& env.value == num::<N>(0)
}

/// The decisions are in order and none starts past the end of the audio.
pub open spec fn in_order(decisions: Seq<(usize, bool)>, n: nat) -> bool {
    &&& forall|i: int, j: int|
        0 <= i <= j < decisions.len() ==> (#[trigger] decisions[i]).0 <= (#[trigger] decisions[j]).0
    &&& forall|i: int| 0 <= i < decisions.len() ==> (#[trigger] decisions[i]).0 <= n
}

/// With decisions in order, every sample of a region is its input times the
/// gain of that region.
pub proof fn lemma_envelope_by_region<N: Scalar>(
    env: EnvelopeView<N>,
    audio: Seq<N>,
    decisions: Seq<(usize, bool)>,
    m: nat,
    i: int,
    k: int,
)
    requires
        in_order(decisions, audio.len()),
        0 <= i < m <= decisions.len(),
        decisions[i].0 <= k < region_end(decisions, i, audio.len()),
    ensures
        enveloped(env, audio, decisions, m)[k] == audio[k].mul_spec(
            region_gain(env, decisions, audio.len(), i, k),
        ),
    decreases m,
{
    let last = m - 1;
    assert(decisions[last].0 <= audio.len());
    if i + 1 < decisions.len() {
        assert(decisions[i + 1].0 <= audio.len());
        assert(decisions[i].0 <= decisions[i + 1].0);
    }
    if i < last {
        lemma_envelope_by_region(env, audio, decisions, (m - 1) as nat, i, k);
        assert(decisions[i + 1].0 <= decisions[last].0);
    }
}

} // verus!
