//! What the operations promise: relations between what goes into a call and what comes
//! out of it, and between the results of several calls. Each law speaks of calls of the
//! library's functions, not of how they are computed.
pub mod apo;
pub mod assembly;
pub mod audio;
pub mod decide;
pub mod devices;
pub mod enroll;
pub mod envelope;
pub mod features;
pub mod fetch;
pub mod frame;
pub mod listen;
pub mod models;
pub mod offline;
pub mod pitch;
pub mod pool;
pub mod score;
pub mod session;
pub mod settings;
pub mod stream;
pub mod tools;
pub mod worker;

use crate::scalar::{dot, gt, lawful, lt, num, sum, Scalar};
use vstd::prelude::*;
use vstd::std_specs::cmp::PartialEqSpec;
use vstd::std_specs::ops::{AddSpec, DivSpec, MulSpec, SubSpec};

verus! {

/// Zero and one do among the numbers `N` what they do among numbers. Integers have
/// this; a floating-point type has it for finite numbers, up to the sign of zero.
pub open spec fn has_units<N: Scalar>() -> bool {
    &&& forall|x: N| #[trigger] num::<N>(0).mul_spec(x) == num::<N>(0)
    &&& forall|x: N| #[trigger] x.mul_spec(num(0)) == num::<N>(0)
    &&& forall|x: N| #[trigger] num::<N>(1).mul_spec(x) == x
    &&& forall|x: N| #[trigger] x.mul_spec(num(1)) == x
    &&& forall|x: N| #[trigger] num::<N>(0).add_spec(x) == x
    &&& forall|x: N| #[trigger] x.add_spec(num(0)) == x
    &&& forall|x: N| #[trigger] x.sub_spec(num(0)) == x
    &&& forall|x: N| #[trigger] x.sub_spec(x) == num::<N>(0)
    &&& forall|x: N| #[trigger] x.div_spec(num(1)) == x
    &&& lt(num::<N>(0), num::<N>(1))
    &&& !lt(num::<N>(1), num::<N>(1))
    &&& !lt(num::<N>(0), num::<N>(0))
    &&& !gt(num::<N>(0), num::<N>(1))
    &&& num::<N>(0).eq_spec(&num(0))
}

/// Integers have a zero and a one.
pub proof fn lemma_integers_have_units()
    ensures
        has_units::<u64>(),
        lawful::<u64>(),
{
    assert(num::<u64>(0) == 0u64);
    assert(num::<u64>(1) == 1u64);
    assert forall|x: u64| #[trigger] num::<u64>(0).mul_spec(x) == num::<u64>(0) by {
        assert(0 * x == 0) by (nonlinear_arith);
    }
    assert forall|x: u64| #[trigger] x.mul_spec(num::<u64>(0)) == num::<u64>(0) by {
        assert(x * 0 == 0) by (nonlinear_arith);
    }
}

/// Sample `start + k` of the audio is sample `k` of the window, and the window
/// is `len` samples long.
pub open spec fn cut_out<N>(audio: Seq<N>, start: int, len: int, window: Seq<N>) -> bool {
    &&& window.len() == len
    &&& forall|k: int| 0 <= k < len ==> #[trigger] window[k] == audio[start + k]
}

/// `r` is what the terms add up to, one after the other.
pub open spec fn adds_up<N: Scalar>(terms: Seq<N>, r: N) -> bool {
    exists|p: Seq<N>| #[trigger] are_running_sums(terms, p) && r == p[terms.len() as int]
}

/// `p[i]` is the sum of the first `i` terms.
pub open spec fn are_running_sums<N: Scalar>(terms: Seq<N>, p: Seq<N>) -> bool {
    &&& p.len() == terms.len() + 1
    &&& p[0] == num::<N>(0)
    &&& forall|i: int| 0 <= i < terms.len() ==> p[i + 1] == p[i].add_spec(#[trigger] terms[i])
}

/// The entry-wise products of two lists.
pub open spec fn products<N: Scalar>(a: Seq<N>, b: Seq<N>) -> Seq<N> {
    Seq::new(a.len(), |i: int| a[i].mul_spec(b[i]))
}

/// An inner product adds the products up.
pub proof fn lemma_dot_adds_up<N: Scalar>(a: Seq<N>, b: Seq<N>)
    ensures
        adds_up(products(a, b), dot(a, b, a.len())),
{
    let p = Seq::new(a.len() + 1, |i: int| dot(a, b, i as nat));
    assert(are_running_sums(products(a, b), p));
}

/// A sum adds the entries up.
pub proof fn lemma_sum_adds_up<N: Scalar>(s: Seq<N>)
    ensures
        adds_up(s, sum(s, s.len())),
{
    let p = Seq::new(s.len() + 1, |i: int| sum(s, i as nat));
    assert(are_running_sums(s, p));
}

} // verus!
