//! The enrolled voice: anchor embeddings written by explicit enrollment, and a
//! bounded first-in-first-out list of embeddings learned while running.
use crate::gating::{
    are_cosines, cosine_fits, cos_sim_max_iter, cos_similarity, is_best_cosine, is_cosine,
    pool_fits,
};
use crate::rings::{copied, drop_oldest, keep_last};
use crate::scalar::{
    below_all, bottom_fits, count, count_fits, descending, frac, frac_fits, fraction, from_count, gt,
    highest, lawful, le, lemma_highest_prefix, num, pick, pick_larger, sort_descending, total,
    total_order, Scalar,
};
use crate::text::{append_decimal, dec};
use std::collections::VecDeque;
use vstd::prelude::*;
use vstd::std_specs::ops::{AddSpec, DivSpec, MulSpec, SubSpec};

verus! {

/// Version of the stored form. Readers reject any other.
pub const PERSISTENCE_VERSION: u32 = 1;

/// Drift safeguards of the pool.
#[derive(Clone, Copy, Debug)]
pub struct EmbeddingPoolConfig<N> {
    /// Largest distance to the anchors at which an embedding may be learned.
    pub anchor_distance_threshold: N,
    /// Median anchor distance of the learned embeddings that triggers a reset.
    pub anchor_reset_threshold: N,
    /// How many learned embeddings are kept.
    pub auto_learn_max_size: usize,
    /// Whether the first voice heard may become the first anchor of an empty
    /// pool.
    pub allow_bootstrap_from_runtime: bool,
}

impl<N: Scalar> EmbeddingPoolConfig<N> {
    /// The configuration that nothing was changed in.
    pub open spec fn is_default(self) -> bool {
        &&& self.auto_learn_max_size == 20
        &&& !self.allow_bootstrap_from_runtime
        &&& lawful::<N>() ==> self.anchor_distance_threshold == frac::<N>(2, 5)
        &&& lawful::<N>() ==> self.anchor_reset_threshold == frac::<N>(1, 2)
    }

    /// Distance 0.4 to learn, 0.5 to reset, twenty entries, no bootstrap.
    pub fn default() -> (r: Self)
        requires
            total::<N>() || lawful::<N>() && frac_fits::<N>(2, 5) && frac_fits::<N>(1, 2),
        ensures
            r.is_default(),
    {
        EmbeddingPoolConfig {
            anchor_distance_threshold: fraction(2, 5),
            anchor_reset_threshold: fraction(1, 2),
            auto_learn_max_size: 20,
            allow_bootstrap_from_runtime: false,
        }
    }
}

/// Pitch statistics of the enrollment recording.
#[derive(Clone, Copy, Debug)]
pub struct EnrollmentMetadata<N> {
    pub f0_mu: N,
    pub f0_sigma: N,
}

/// The sum of column `j` over the first `n` anchors.
pub open spec fn column_sum<N: Scalar>(anchors: Seq<Vec<N>>, j: int, n: nat) -> N
    decreases n,
{
    if n == 0 {
        num(0)
    } else {
        column_sum(anchors, j, (n - 1) as nat).add_spec(anchors[n - 1]@[j])
    }
}

/// The element-wise mean of the anchors: each column's sum times the reciprocal
/// of their number.
pub open spec fn centroid<N: Scalar>(anchors: Seq<Vec<N>>) -> Seq<N> {
    Seq::new(
        anchors[0]@.len(),
        |j: int|
            column_sum(anchors, j, anchors.len()).mul_spec(
                num::<N>(1).div_spec(count(anchors.len())),
            ),
    )
}

/// No operation of [`centroid`] leaves the range of `N`.
pub open spec fn centroid_fits<N: Scalar>(anchors: Seq<Vec<N>>) -> bool {
    &&& count_fits::<N>(anchors.len())
    &&& num::<N>(1).div_req(count(anchors.len()))
    &&& forall|i: int, j: int|
        0 <= i < anchors.len() && 0 <= j < anchors[0]@.len() ==> column_sum(
            anchors,
            j,
            i as nat,
        ).add_req(#[trigger] anchors[i]@[j])
    &&& forall|j: int|
        0 <= j < anchors[0]@.len() ==> (#[trigger] column_sum(anchors, j, anchors.len())).mul_req(
            num::<N>(1).div_spec(count(anchors.len())),
        )
}

/// All vectors have `d` entries.
pub open spec fn uniform<N>(vectors: Seq<Vec<N>>, d: nat) -> bool {
    forall|i: int| 0 <= i < vectors.len() ==> (#[trigger] vectors[i])@.len() == d
}

fn compute_anchor_centroid<N: Scalar>(anchors: &Vec<Vec<N>>) -> (r: Option<Vec<N>>)
    requires
        anchors@.len() > 0 ==> uniform(anchors@, anchors@[0]@.len()),
        anchors@.len() == 0 || total::<N>() || lawful::<N>() && centroid_fits(anchors@),
    ensures
        r is None <==> anchors@.len() == 0,
        r matches Some(c) ==> c@.len() == anchors@[0]@.len(),
        r matches Some(c) ==> lawful::<N>() ==> c@ =~= centroid(anchors@),
{
    if anchors.len() == 0 {
        return None;
    }
    let dim: usize = anchors[0].len();
    let one: N = N::from(1u16);
    let inv: N = one / from_count::<N>(anchors.len() as u64);
    let mut mean: Vec<N> = Vec::new();
    let mut j: usize = 0;
    while j < dim
        invariant
            anchors@.len() > 0,
            dim == anchors@[0]@.len(),
            uniform(anchors@, dim as nat),
            total::<N>() || lawful::<N>() && centroid_fits(anchors@),
            lawful::<N>() ==> inv == num::<N>(1).div_spec(count(anchors@.len())),
            j <= dim,
            mean@.len() == j,
            lawful::<N>() ==> forall|m: int|
                0 <= m < j ==> #[trigger] mean@[m] == centroid(anchors@)[m],
        decreases dim - j,
    {
        let mut acc: N = N::from(0u16);
        let mut i: usize = 0;
        while i < anchors.len()
            invariant
                anchors@.len() > 0,
                dim == anchors@[0]@.len(),
                uniform(anchors@, dim as nat),
                total::<N>() || lawful::<N>() && centroid_fits(anchors@),
                j < dim,
                i <= anchors@.len(),
                lawful::<N>() ==> acc == column_sum(anchors@, j as int, i as nat),
            decreases anchors@.len() - i,
        {
            assert(anchors@[i as int]@.len() == dim);
            let x: N = anchors[i][j];
            assert(x == anchors@[i as int]@[j as int]);
            acc = acc + x;
            i = i + 1;
        }
        let m: N = acc * inv;
        mean.push(m);
        j = j + 1;
    }
    Some(mean)
}

/// The contents of a list of vectors.
pub open spec fn contents<N>(vectors: Seq<Vec<N>>) -> Seq<Seq<N>> {
    vectors.map_values(|v: Vec<N>| v@)
}

/// `best` is the similarity of `emb` to its nearest anchor: below all numbers where
/// it has none.
pub open spec fn is_nearest<N: Scalar, F: Fn(N) -> N>(
    emb: Seq<N>,
    anchors: Seq<Vec<N>>,
    sqrt: F,
    best: N,
) -> bool {
    exists|s: Seq<N>| #[trigger]
        are_cosines(emb, anchors, sqrt, s) && best == highest(s, s.len())
}

/// `d` is the distance of `emb` to the anchors: one minus the similarity to the
/// nearest.
pub open spec fn is_distance<N: Scalar, F: Fn(N) -> N>(
    emb: Seq<N>,
    anchors: Seq<Vec<N>>,
    sqrt: F,
    d: N,
) -> bool {
    exists|best: N| #[trigger]
        is_nearest(emb, anchors, sqrt, best) && d == num::<N>(1).sub_spec(best)
}

/// No operation of [`is_distance`] leaves the range of `N`.
pub open spec fn distance_fits<N: Scalar, F: Fn(N) -> N>(
    emb: Seq<N>,
    anchors: Seq<Vec<N>>,
    sqrt: F,
) -> bool {
    &&& pool_fits(emb, anchors, sqrt)
    &&& bottom_fits::<N>()
    &&& forall|best: N| #[trigger]
        is_nearest(emb, anchors, sqrt, best) ==> num::<N>(1).sub_req(best)
}

/// `s` lists the anchor distances of `learned`.
pub open spec fn are_distances<N: Scalar, F: Fn(N) -> N>(
    learned: Seq<Vec<N>>,
    anchors: Seq<Vec<N>>,
    sqrt: F,
    s: Seq<N>,
) -> bool {
    &&& s.len() == learned.len()
    &&& forall|i: int| 0 <= i < s.len() ==> is_distance(learned[i]@, anchors, sqrt, #[trigger] s[i])
}

/// `p` holds the anchor distances of `learned` from the largest down.
pub open spec fn are_ranked_distances<N: Scalar, F: Fn(N) -> N>(
    learned: Seq<Vec<N>>,
    anchors: Seq<Vec<N>>,
    sqrt: F,
    p: Seq<N>,
) -> bool {
    &&& p.len() == learned.len()
    &&& total_order::<N>() ==> descending(p)
    &&& exists|s: Seq<N>| #[trigger]
        are_distances(learned, anchors, sqrt, s) && p.to_multiset() =~= s.to_multiset()
}

/// The middle of a ranked list: the middle entry, or half the sum of the two in
/// the middle.
pub open spec fn middle<N: Scalar>(p: Seq<N>) -> N {
    let h = p.len() as int / 2;
    if p.len() % 2 == 0 {
        p[h].add_spec(p[h - 1]).mul_spec(frac(1, 2))
    } else {
        p[h]
    }
}

/// `m` is the median anchor distance of `learned`; zero when nothing was
/// learned or nothing enrolled.
pub open spec fn is_median<N: Scalar, F: Fn(N) -> N>(
    learned: Seq<Vec<N>>,
    anchors: Seq<Vec<N>>,
    sqrt: F,
    m: N,
) -> bool {
    if learned.len() == 0 || anchors.len() == 0 {
        m == num::<N>(0)
    } else {
        exists|p: Seq<N>| #[trigger]
            are_ranked_distances(learned, anchors, sqrt, p) && m == middle(p)
    }
}

/// No operation of [`is_median`] leaves the range of `N`.
pub open spec fn median_fits<N: Scalar, F: Fn(N) -> N>(
    learned: Seq<Vec<N>>,
    anchors: Seq<Vec<N>>,
    sqrt: F,
) -> bool {
    &&& frac_fits::<N>(1, 2)
    &&& forall|i: int|
        0 <= i < learned.len() ==> distance_fits((#[trigger] learned[i])@, anchors, sqrt)
    &&& forall|p: Seq<N>| #[trigger]
        are_ranked_distances(learned, anchors, sqrt, p) && learned.len() % 2 == 0 && learned.len()
            > 0 ==> {
            let h = p.len() as int / 2;
            &&& p[h].add_req(p[h - 1])
            &&& p[h].add_spec(p[h - 1]).mul_req(frac(1, 2))
        }
}

/// The pool once `emb` was learned: the oldest learned embedding makes room.
pub open spec fn keep_newest<N>(pool: PoolView<N>, emb: Vec<N>) -> PoolView<N> {
    PoolView {
        auto_learn: keep_last(
            pool.auto_learn.push(emb),
            pool.config.auto_learn_max_size as nat,
        ),
        ..pool
    }
}

/// What a pool holds.
pub struct PoolView<N> {
    pub config: EmbeddingPoolConfig<N>,
    pub anchors: Seq<Vec<N>>,
    pub auto_learn: Seq<Vec<N>>,
    pub metadata: EnrollmentMetadata<N>,
}

/// Two-compartment pool with anchor protection.
#[derive(Clone, Debug)]
pub struct EmbeddingPool<N> {
    config: EmbeddingPoolConfig<N>,
    anchors: Vec<Vec<N>>,
    auto_learn: VecDeque<Vec<N>>,
    metadata: EnrollmentMetadata<N>,
    anchor_centroid: Option<Vec<N>>,
}

impl<N> View for EmbeddingPool<N> {
    type V = PoolView<N>;

    closed spec fn view(&self) -> PoolView<N> {
        PoolView {
            config: self.config,
            anchors: self.anchors@,
            auto_learn: self.auto_learn@,
            metadata: self.metadata,
        }
    }
}

/// `r` is how well `emb` matches a pool with the given anchor centroid and
/// learned embeddings: the better of the cosine to the centroid and the best
/// cosine to a learned embedding.
pub open spec fn is_match<N: Scalar, F: Fn(N) -> N>(
    emb: Seq<N>,
    pool: PoolView<N>,
    sqrt: F,
    r: N,
) -> bool {
    exists|a: N, l: N|
        {
            &&& #[trigger] is_anchor_score(emb, pool.anchors, sqrt, a)
            &&& #[trigger] is_best_cosine(emb, pool.auto_learn, sqrt, l)
            &&& r == pick(a, l)
        }
}

/// `a` is the cosine of `emb` to the anchor centroid; zero without anchors.
pub open spec fn is_anchor_score<N: Scalar, F: Fn(N) -> N>(
    emb: Seq<N>,
    anchors: Seq<Vec<N>>,
    sqrt: F,
    a: N,
) -> bool {
    if anchors.len() == 0 {
        a == num::<N>(0)
    } else {
        is_cosine(emb, centroid(anchors), sqrt, a)
    }
}

/// No operation of [`is_match`] leaves the range of `N`.
pub open spec fn match_fits<N: Scalar, F: Fn(N) -> N>(
    emb: Seq<N>,
    pool: PoolView<N>,
    sqrt: F,
) -> bool {
    &&& pool.anchors.len() == 0 || cosine_fits(emb, centroid(pool.anchors), sqrt)
    &&& pool_fits(emb, pool.auto_learn, sqrt)
}

impl<N> PoolView<N> {
    /// All embeddings of the pool have `d` entries.
    pub open spec fn uniform(self, d: nat) -> bool {
        uniform(self.anchors, d) && uniform(self.auto_learn, d)
    }
}

impl<N: Scalar> EmbeddingPool<N> {
    /// The learned embeddings stay within the bound, the anchors share a
    /// dimension, and the stored centroid is theirs.
    pub closed spec fn wf(&self) -> bool {
        &&& self.auto_learn@.len() <= self.config.auto_learn_max_size
        &&& self.anchors@.len() > 0 ==> uniform(self.anchors@, self.anchors@[0]@.len())
        &&& self.anchor_centroid is None <==> self.anchors@.len() == 0
        &&& self.anchor_centroid matches Some(c) ==> {
            &&& c@.len() == self.anchors@[0]@.len()
            &&& lawful::<N>() ==> c@ == centroid(self.anchors@)
        }
    }

    /// The bound on learned embeddings holds in every state.
    pub proof fn lemma_bounded(&self)
        requires
            self.wf(),
        ensures
            self@.auto_learn.len() <= self@.config.auto_learn_max_size,
    {
    }

    /// An empty pool.
    pub fn new(config: EmbeddingPoolConfig<N>) -> (r: Self)
        ensures
            r.wf(),
            r@.config == config,
            r@.anchors.len() == 0,
            r@.auto_learn.len() == 0,
            lawful::<N>() ==> r@.metadata == (EnrollmentMetadata {
                f0_mu: num::<N>(0),
                f0_sigma: num::<N>(0),
            }),
    {
        EmbeddingPool {
            config,
            anchors: Vec::new(),
            auto_learn: VecDeque::new(),
            metadata: EnrollmentMetadata { f0_mu: N::from(0u16), f0_sigma: N::from(0u16) },
            anchor_centroid: None,
        }
    }

    pub fn config(&self) -> (r: EmbeddingPoolConfig<N>)
        ensures
            r == self@.config,
    {
        self.config
    }

    pub fn anchors(&self) -> (r: &[Vec<N>])
        ensures
            r@ == self@.anchors,
    {
        self.anchors.as_slice()
    }

    pub fn auto_learn(&self) -> (r: &VecDeque<Vec<N>>)
        ensures
            r@ == self@.auto_learn,
    {
        &self.auto_learn
    }

    pub fn metadata(&self) -> (r: EnrollmentMetadata<N>)
        ensures
            r == self@.metadata,
    {
        self.metadata
    }

    /// How many embeddings the pool holds.
    pub fn len(&self) -> (r: usize)
        requires
            self@.anchors.len() + self@.auto_learn.len() <= usize::MAX,
        ensures
            r == self@.anchors.len() + self@.auto_learn.len(),
    {
        self.anchors.len() + self.auto_learn.len()
    }

    /// Whether the pool holds no embedding at all.
    pub fn is_empty(&self) -> (r: bool)
        ensures
            r == (self@.anchors.len() == 0 && self@.auto_learn.len() == 0),
    {
        self.anchors.len() == 0 && self.auto_learn.len() == 0
    }

    /// Whether all embeddings have `dim` entries.
    pub fn has_dim(&self, dim: usize) -> (r: bool)
        ensures
            r == self@.uniform(dim as nat),
    {
        let mut i: usize = 0;
        while i < self.anchors.len()
            invariant
                i <= self.anchors@.len(),
                forall|j: int| 0 <= j < i ==> (#[trigger] self.anchors@[j])@.len() == dim,
            decreases self.anchors@.len() - i,
        {
            if self.anchors[i].len() != dim {
                assert(self@.anchors[i as int]@.len() != dim);
                return false;
            }
            i = i + 1;
        }
        let mut k: usize = 0;
        while k < self.auto_learn.len()
            invariant
                k <= self.auto_learn@.len(),
                uniform(self.anchors@, dim as nat),
                forall|j: int| 0 <= j < k ==> (#[trigger] self.auto_learn@[j])@.len() == dim,
            decreases self.auto_learn@.len() - k,
        {
            if self.auto_learn[k].len() != dim {
                assert(self@.auto_learn[k as int]@.len() != dim);
                return false;
            }
            k = k + 1;
        }
        true
    }

    /// The anchors, then the learned embeddings from the oldest on.
    pub fn iter(&self) -> (r: Vec<&[N]>)
        ensures
            r@.len() == self@.anchors.len() + self@.auto_learn.len(),
            forall|i: int|
                0 <= i < r@.len() ==> (#[trigger] r@[i])@ == (self@.anchors
                    + self@.auto_learn)[i]@,
    {
        let mut out: Vec<&[N]> = Vec::new();
        let mut i: usize = 0;
        while i < self.anchors.len()
            invariant
                i <= self.anchors@.len(),
                out@.len() == i,
                forall|j: int| 0 <= j < i ==> (#[trigger] out@[j])@ == self.anchors@[j]@,
            decreases self.anchors.len() - i,
        {
            out.push(self.anchors[i].as_slice());
            i = i + 1;
        }
        let n: usize = self.anchors.len();
        let mut k: usize = 0;
        while k < self.auto_learn.len()
            invariant
                n == self.anchors@.len(),
                k <= self.auto_learn@.len(),
                out@.len() == n + k,
                forall|j: int|
                    0 <= j < n + k ==> (#[trigger] out@[j])@ == (self.anchors@
                        + self.auto_learn@)[j]@,
            decreases self.auto_learn.len() - k,
        {
            out.push(self.auto_learn[k].as_slice());
            k = k + 1;
        }
        out
    }

    /// Adds enrollment embeddings and takes the centroid anew.
    pub fn add_anchors(&mut self, embeddings: Vec<Vec<N>>)
        requires
            old(self).wf(),
            (old(self)@.anchors + embeddings@).len() > 0 ==> uniform(
                old(self)@.anchors + embeddings@,
                (old(self)@.anchors + embeddings@)[0]@.len(),
            ),
            (old(self)@.anchors + embeddings@).len() == 0 || total::<N>() || lawful::<N>()
                && centroid_fits(old(self)@.anchors + embeddings@),
        ensures
            final(self).wf(),
            final(self)@ == (PoolView { anchors: old(self)@.anchors + embeddings@, ..old(self)@ }),
    {
        let mut more: Vec<Vec<N>> = embeddings;
        self.anchors.append(&mut more);
        self.anchor_centroid = compute_anchor_centroid(&self.anchors);
    }

    /// The element-wise mean of the anchors, or `None` without anchors.
    pub fn anchor_centroid(&self) -> (r: Option<&[N]>)
        requires
            self.wf(),
        ensures
            r is None <==> self@.anchors.len() == 0,
            r matches Some(c) ==> c@.len() == self@.anchors[0]@.len() && (lawful::<N>() ==> c@
                == centroid(self@.anchors)),
    {
        match &self.anchor_centroid {
            Some(c) => Some(c.as_slice()),
            None => None,
        }
    }

    /// How well `emb` matches the enrolled voice; zero for an empty pool.
    pub fn match_score<F: Fn(N) -> N>(&self, emb: &[N], sqrt: &F) -> (r: N)
        requires
            self.wf(),
            self@.uniform(emb@.len()),
            forall|x: N| call_requires(*sqrt, (x,)),
            total::<N>() || lawful::<N>() && match_fits(emb@, self@, *sqrt),
        ensures
            lawful::<N>() ==> is_match(emb@, self@, *sqrt, r),
    {
        let anchor_score: N = match &self.anchor_centroid {
            Some(c) => {
                assert(self@.anchors[0]@.len() == emb@.len());
                cos_similarity(emb, c.as_slice(), sqrt)
            },
            None => N::from(0u16),
        };
        assert(lawful::<N>() ==> is_anchor_score(emb@, self@.anchors, *sqrt, anchor_score));
        let auto_score: N = cos_sim_max_iter(emb, &self.auto_learn, sqrt);
        pick_larger(anchor_score, auto_score)
    }

    /// Stores the pitch statistics.
    pub fn set_f0_stats(&mut self, mu: N, sigma: N)
        requires
            old(self).wf(),
        ensures
            final(self).wf(),
            final(self)@ == (PoolView {
                metadata: EnrollmentMetadata { f0_mu: mu, f0_sigma: sigma },
                ..old(self)@
            }),
    {
        self.metadata = EnrollmentMetadata { f0_mu: mu, f0_sigma: sigma };
    }

    /// One minus the similarity to the nearest anchor; `None` without anchors.
    pub fn anchor_distance<F: Fn(N) -> N>(&self, emb: &[N], sqrt: &F) -> (r: Option<N>)
        requires
            uniform(self@.anchors, emb@.len()),
            forall|x: N| call_requires(*sqrt, (x,)),
            self@.anchors.len() == 0 || total::<N>() || lawful::<N>() && distance_fits(
                emb@,
                self@.anchors,
                *sqrt,
            ),
        ensures
            r is None <==> self@.anchors.len() == 0,
            r matches Some(d) ==> lawful::<N>() ==> is_distance(emb@, self@.anchors, *sqrt, d),
    {
        if self.anchors.len() == 0 {
            return None;
        }
        let mut best: N = below_all::<N>();
        let ghost mut found: Seq<N> = Seq::empty();
        let mut i: usize = 0;
        while i < self.anchors.len()
            invariant
                i <= self.anchors@.len(),
                uniform(self.anchors@, emb@.len()),
                forall|x: N| call_requires(*sqrt, (x,)),
                total::<N>() || lawful::<N>() && distance_fits(emb@, self.anchors@, *sqrt),
                found.len() == i,
                lawful::<N>() ==> forall|j: int|
                    0 <= j < i ==> is_cosine(
                        emb@,
                        self.anchors@[j]@,
                        *sqrt,
                        #[trigger] found[j],
                    ),
                lawful::<N>() ==> best == highest(found, i as nat),
            decreases self.anchors.len() - i,
        {
            assert(self.anchors@[i as int]@.len() == emb@.len());
            let s: N = cos_similarity(emb, self.anchors[i].as_slice(), sqrt);
            proof {
                let before = found;
                found = found.push(s);
                lemma_highest_prefix(before, found, i as nat);
            }
            if s > best {
                best = s;
            }
            i = i + 1;
        }
        proof {
            if lawful::<N>() {
                assert(are_cosines(emb@, self.anchors@, *sqrt, found));
                assert(is_nearest(emb@, self.anchors@, *sqrt, best));
            }
        }
        let one: N = N::from(1u16);
        Some(one - best)
    }

    /// Whether `emb` is near enough to the anchors to be learned; never without
    /// anchors.
    pub fn can_auto_learn<F: Fn(N) -> N>(&self, emb: &[N], sqrt: &F) -> (r: bool)
        requires
            uniform(self@.anchors, emb@.len()),
            forall|x: N| call_requires(*sqrt, (x,)),
            self@.anchors.len() == 0 || total::<N>() || lawful::<N>() && distance_fits(
                emb@,
                self@.anchors,
                *sqrt,
            ),
        ensures
            self@.anchors.len() == 0 ==> !r,
            lawful::<N>() ==> is_learnable(emb@, self@, *sqrt, r),
    {
        match self.anchor_distance(emb, sqrt) {
            Some(d) => {
                assert(lawful::<N>() ==> is_distance(emb@, self@.anchors, *sqrt, d));
                d <= self.config.anchor_distance_threshold
            },
            None => false,
        }
    }

    /// Learns `emb` if it is near enough to the anchors; the oldest learned
    /// embedding makes room. Returns whether it was learned.
    pub fn add_auto_learn<F: Fn(N) -> N>(&mut self, emb: Vec<N>, sqrt: &F) -> (r: bool)
        requires
            old(self).wf(),
            uniform(old(self)@.anchors, emb@.len()),
            forall|x: N| call_requires(*sqrt, (x,)),
            old(self)@.anchors.len() == 0 || total::<N>() || lawful::<N>() && distance_fits(
                emb@,
                old(self)@.anchors,
                *sqrt,
            ),
        ensures
            final(self).wf(),
            old(self)@.anchors.len() == 0 ==> !r,
            lawful::<N>() ==> is_learnable(emb@, old(self)@, *sqrt, r),
            !r ==> final(self)@ == old(self)@,
            r ==> final(self)@ == keep_newest(old(self)@, emb),
    {
        if !self.can_auto_learn(emb.as_slice(), sqrt) {
            return false;
        }
        self.auto_learn.push_back(emb);
        drop_oldest(&mut self.auto_learn, self.config.auto_learn_max_size);
        true
    }

    /// Seeds an empty pool with its first anchor and pitch statistics. Returns
    /// whether it did; a pool that holds anything is left as it is.
    pub fn bootstrap_seed(&mut self, emb: Vec<N>, f0_mu: N, f0_sigma: N) -> (r: bool)
        requires
            old(self).wf(),
            total::<N>() || lawful::<N>() && centroid_fits(seq![emb]),
        ensures
            final(self).wf(),
            r == (old(self)@.anchors.len() == 0 && old(self)@.auto_learn.len() == 0),
            !r ==> final(self)@ == old(self)@,
            r ==> final(self)@ == (PoolView {
                anchors: seq![emb],
                metadata: EnrollmentMetadata { f0_mu, f0_sigma },
                ..old(self)@
            }),
    {
        if !self.is_empty() {
            return false;
        }
        let mut first: Vec<Vec<N>> = Vec::new();
        first.push(emb);
        assert(self@.anchors + first@ =~= seq![emb]);
        self.add_anchors(first);
        self.set_f0_stats(f0_mu, f0_sigma);
        true
    }

    /// The median anchor distance of the learned embeddings.
    pub fn median_anchor_distance<F: Fn(N) -> N>(&self, sqrt: &F) -> (r: N)
        requires
            self@.anchors.len() > 0 ==> self@.uniform(self@.anchors[0]@.len()),
            forall|x: N| call_requires(*sqrt, (x,)),
            total::<N>() || lawful::<N>() && median_fits(self@.auto_learn, self@.anchors, *sqrt),
        ensures
            lawful::<N>() ==> is_median(self@.auto_learn, self@.anchors, *sqrt, r),
    {
        if self.auto_learn.len() == 0 || self.anchors.len() == 0 {
            return N::from(0u16);
        }
        let mut distances: Vec<N> = Vec::new();
        let mut i: usize = 0;
        while i < self.auto_learn.len()
            invariant
                self@.anchors.len() > 0,
                self@.uniform(self@.anchors[0]@.len()),
                forall|x: N| call_requires(*sqrt, (x,)),
                total::<N>() || lawful::<N>() && median_fits(
                    self@.auto_learn,
                    self@.anchors,
                    *sqrt,
                ),
                i <= self.auto_learn@.len(),
                distances@.len() == i,
                lawful::<N>() ==> forall|j: int|
                    0 <= j < i ==> is_distance(
                        self.auto_learn@[j]@,
                        self@.anchors,
                        *sqrt,
                        #[trigger] distances@[j],
                    ),
            decreases self.auto_learn.len() - i,
        {
            assert(self@.auto_learn[i as int]@.len() == self@.anchors[0]@.len());
            let d: Option<N> = self.anchor_distance(self.auto_learn[i].as_slice(), sqrt);
            match d {
                Some(x) => {
                    distances.push(x);
                },
                None => {
                    assert(false);
                },
            }
            i = i + 1;
        }
        let ghost listed = distances@;
        let ranked: Vec<N> = sort_descending(distances);
        proof {
            if lawful::<N>() {
                assert(are_distances(self@.auto_learn, self@.anchors, *sqrt, listed));
                assert(are_ranked_distances(self@.auto_learn, self@.anchors, *sqrt, ranked@));
            }
        }
        let h: usize = ranked.len() / 2;
        if ranked.len() % 2 == 0 {
            let a: N = ranked[h];
            let b: N = ranked[h - 1];
            (a + b) * fraction::<N>(1, 2)
        } else {
            ranked[h]
        }
    }

    /// Forgets what was learned once its median anchor distance is too large.
    /// Returns whether it did.
    pub fn maybe_reset<F: Fn(N) -> N>(&mut self, sqrt: &F) -> (r: bool)
        requires
            old(self).wf(),
            old(self)@.anchors.len() > 0 ==> old(self)@.uniform(old(self)@.anchors[0]@.len()),
            forall|x: N| call_requires(*sqrt, (x,)),
            total::<N>() || lawful::<N>() && median_fits(
                old(self)@.auto_learn,
                old(self)@.anchors,
                *sqrt,
            ),
        ensures
            final(self).wf(),
            !r ==> final(self)@ == old(self)@,
            r ==> final(self)@ == (PoolView { auto_learn: Seq::empty(), ..old(self)@ }),
            lawful::<N>() ==> exists|m: N| #[trigger]
                is_median(old(self)@.auto_learn, old(self)@.anchors, *sqrt, m) && r == gt(
                    m,
                    old(self)@.config.anchor_reset_threshold,
                ),
    {
        let m: N = self.median_anchor_distance(sqrt);
        assert(lawful::<N>() ==> is_median(self@.auto_learn, self@.anchors, *sqrt, m));
        if m > self.config.anchor_reset_threshold {
            self.auto_learn.clear();
            return true;
        }
        false
    }
}

/// `r` says whether `emb` lies within the admission distance of the anchors.
pub open spec fn is_learnable<N: Scalar, F: Fn(N) -> N>(
    emb: Seq<N>,
    pool: PoolView<N>,
    sqrt: F,
    r: bool,
) -> bool {
    if pool.anchors.len() == 0 {
        !r
    } else {
        exists|d: N| #[trigger]
            is_distance(emb, pool.anchors, sqrt, d) && r == le(
                d,
                pool.config.anchor_distance_threshold,
            )
    }
}

// ---------------------------------------------------------------------
// Stored form
// ---------------------------------------------------------------------
/// The stored form of a pool.
pub struct PoolPayload<N> {
    pub version: u32,
    pub anchors: Vec<Vec<N>>,
    pub auto_learn: Vec<Vec<N>>,
    pub metadata: EnrollmentMetadata<N>,
}

/// Why a stored pool could not be read.
#[derive(Debug)]
pub enum PersistenceError {
    /// The file could not be read or written.
    Io(String),
    /// The file does not hold a pool.
    Json(String),
    /// The stored version is not [`PERSISTENCE_VERSION`].
    UnsupportedVersion(u32),
}

impl PersistenceError {
    /// The words of the error.
    pub open spec fn words(self) -> Seq<char> {
        match self {
            PersistenceError::Io(e) => "I/O error: "@ + e@,
            PersistenceError::Json(e) => "JSON error: "@ + e@,
            PersistenceError::UnsupportedVersion(v) => "unsupported enrollment version: "@ + dec(
                v as nat,
            ),
        }
    }

    /// The error in words.
    pub fn message(&self) -> (r: String)
        ensures
            r@ == self.words(),
    {
        match self {
            PersistenceError::Io(e) => "I/O error: ".to_owned().concat(e.as_str()),
            PersistenceError::Json(e) => "JSON error: ".to_owned().concat(e.as_str()),
            PersistenceError::UnsupportedVersion(v) => {
                let mut s: String = "unsupported enrollment version: ".to_owned();
                append_decimal(&mut s, *v as u64);
                s
            },
        }
    }
}

impl<N: Scalar> EmbeddingPool<N> {
    /// The stored form of this pool.
    pub fn to_payload(&self) -> (r: PoolPayload<N>)
        ensures
            r.version == PERSISTENCE_VERSION,
            contents(r.anchors@) =~= contents(self@.anchors),
            contents(r.auto_learn@) =~= contents(self@.auto_learn),
            r.metadata == self@.metadata,
    {
        let mut anchors: Vec<Vec<N>> = Vec::new();
        let mut i: usize = 0;
        while i < self.anchors.len()
            invariant
                i <= self.anchors@.len(),
                anchors@.len() == i,
                forall|j: int| 0 <= j < i ==> (#[trigger] anchors@[j])@ == self.anchors@[j]@,
            decreases self.anchors.len() - i,
        {
            anchors.push(copied(self.anchors[i].as_slice()));
            i = i + 1;
        }
        let mut auto_learn: Vec<Vec<N>> = Vec::new();
        let mut k: usize = 0;
        while k < self.auto_learn.len()
            invariant
                k <= self.auto_learn@.len(),
                auto_learn@.len() == k,
                forall|j: int| 0 <= j < k ==> (#[trigger] auto_learn@[j])@ == self.auto_learn@[j]@,
            decreases self.auto_learn.len() - k,
        {
            auto_learn.push(copied(self.auto_learn[k].as_slice()));
            k = k + 1;
        }
        PoolPayload { version: PERSISTENCE_VERSION, anchors, auto_learn, metadata: self.metadata }
    }

    /// Reads a stored pool under the given limits. The oldest learned
    /// embeddings are dropped where there are more than the limit.
    pub fn from_payload(payload: PoolPayload<N>, config: EmbeddingPoolConfig<N>) -> (r: Result<
        Self,
        PersistenceError,
    >)
        requires
            payload.anchors@.len() > 0 ==> uniform(payload.anchors@, payload.anchors@[0]@.len()),
            payload.anchors@.len() == 0 || total::<N>() || lawful::<N>() && centroid_fits(
                payload.anchors@,
            ),
        ensures
            payload.version != PERSISTENCE_VERSION ==> r == Err::<Self, PersistenceError>(
                PersistenceError::UnsupportedVersion(payload.version),
            ),
            payload.version == PERSISTENCE_VERSION ==> r is Ok,
            r matches Ok(pool) ==> {
                &&& pool.wf()
                &&& pool@ == (PoolView {
                    config,
                    anchors: payload.anchors@,
                    auto_learn: keep_last(
                        payload.auto_learn@,
                        config.auto_learn_max_size as nat,
                    ),
                    metadata: payload.metadata,
                })
            },
    {
        if payload.version != PERSISTENCE_VERSION {
            return Err(PersistenceError::UnsupportedVersion(payload.version));
        }
        let anchor_centroid: Option<Vec<N>> = compute_anchor_centroid(&payload.anchors);
        let mut source: Vec<Vec<N>> = payload.auto_learn;
        let ghost all = source@;
        let mut auto_learn: VecDeque<Vec<N>> = VecDeque::new();
        while source.len() > 0
            invariant
                source@ + auto_learn@ =~= all,
            decreases source@.len(),
        {
            match source.pop() {
                Some(v) => {
                    auto_learn.push_front(v);
                },
                None => {},
            }
        }
        assert(auto_learn@ =~= all);
        drop_oldest(&mut auto_learn, config.auto_learn_max_size);
        Ok(
            EmbeddingPool {
                config,
                anchors: payload.anchors,
                auto_learn,
                metadata: payload.metadata,
                anchor_centroid,
            },
        )
    }
}

/// A pool that is stored and read back under its own limits is the same pool:
/// `stored` is its stored form, `restored` what reading that gives.
pub proof fn lemma_store_and_load<N: Scalar>(
    pool: EmbeddingPool<N>,
    stored: PoolPayload<N>,
    restored: PoolView<N>,
)
    requires
        pool.wf(),
        contents(stored.anchors@) =~= contents(pool@.anchors),
        contents(stored.auto_learn@) =~= contents(pool@.auto_learn),
        stored.metadata == pool@.metadata,
        restored == (PoolView {
            config: pool@.config,
            anchors: stored.anchors@,
            auto_learn: keep_last(
                stored.auto_learn@,
                pool@.config.auto_learn_max_size as nat,
            ),
            metadata: stored.metadata,
        }),
    ensures
        restored.config == pool@.config,
        restored.metadata == pool@.metadata,
        contents(restored.anchors) == contents(pool@.anchors),
        contents(restored.auto_learn) == contents(pool@.auto_learn),
{
    pool.lemma_bounded();
    assert(contents(stored.auto_learn@).len() == contents(pool@.auto_learn).len());
}

} // verus!
