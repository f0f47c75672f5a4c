//! Arithmetic over an abstract number type.
//!
//! Audio samples, similarity scores and durations are all numbers of one type
//! `N`. The library never fixes that type: callers pick a floating-point type
//! and the verifier reasons about every type whose operators are functions.
use core::cmp::Ordering;
use core::ops::{Add, Div, Mul, Sub};
use vstd::prelude::*;
use vstd::std_specs::cmp::{PartialEqSpec, PartialOrdSpec};
use vstd::std_specs::convert::FromSpec;
use vstd::std_specs::ops::{AddSpec, DivSpec, MulSpec, SubSpec};

verus! {

/// The operators the library needs of a number type. Every type that has them
/// is a `Scalar`; the trait adds no method of its own.
pub trait Scalar: Copy + PartialOrd + Add<Output = Self> + Sub<Output = Self> + Mul<
    Output = Self,
> + Div<Output = Self> + From<u16> {

}

impl<
    T: Copy + PartialOrd + Add<Output = T> + Sub<Output = T> + Mul<Output = T> + Div<
        Output = T,
    > + From<u16>,
> Scalar for T {

}

/// The operators of `N` compute the functions that their specifications name.
/// Integer types have this property; contracts that compute with `N` are stated
/// for every type that has it.
pub open spec fn lawful<N: Scalar>() -> bool {
    &&& N::obeys_add_spec()
    &&& N::obeys_sub_spec()
    &&& N::obeys_mul_spec()
    &&& N::obeys_div_spec()
    &&& N::obeys_eq_spec()
    &&& converts::<N>()
    &&& orders::<N>()
}

/// Small integers become numbers of type `N` by a function.
pub open spec fn converts<N: Scalar>() -> bool {
    <N as FromSpec<u16>>::obeys_from_spec()
}

/// The comparisons of `N` agree with its partial order.
pub open spec fn orders<N: Scalar>() -> bool {
    N::obeys_partial_cmp_spec()
}

/// No operation on `N` can fail, whatever its operands. IEEE arithmetic is of
/// this kind; checked integer arithmetic is not.
pub open spec fn total<N: Scalar>() -> bool {
    forall|a: N, b: N|
        #![trigger a.add_req(b)]
        #![trigger a.sub_req(b)]
        #![trigger a.mul_req(b)]
        #![trigger a.div_req(b)]
        a.add_req(b) && a.sub_req(b) && a.mul_req(b) && a.div_req(b)
}

/// The number `k` in `N`.
pub open spec fn num<N: Scalar>(k: u16) -> N {
    <N as FromSpec<u16>>::from_spec(k)
}

/// `a >= b` on `N`.
pub open spec fn ge<N: Scalar>(a: N, b: N) -> bool {
    a.partial_cmp_spec(&b) matches Some(Ordering::Greater | Ordering::Equal)
}

/// `a > b` on `N`.
pub open spec fn gt<N: Scalar>(a: N, b: N) -> bool {
    a.partial_cmp_spec(&b) == Some(Ordering::Greater)
}

/// `a < b` on `N`.
pub open spec fn lt<N: Scalar>(a: N, b: N) -> bool {
    a.partial_cmp_spec(&b) == Some(Ordering::Less)
}

/// `a <= b` on `N`.
pub open spec fn le<N: Scalar>(a: N, b: N) -> bool {
    a.partial_cmp_spec(&b) matches Some(Ordering::Less | Ordering::Equal)
}

/// The inner product of the first `n` entries, summed from the left.
pub open spec fn dot<N: Scalar>(a: Seq<N>, b: Seq<N>, n: nat) -> N
    decreases n,
{
    if n == 0 {
        num(0)
    } else {
        dot(a, b, (n - 1) as nat).add_spec(a[n - 1].mul_spec(b[n - 1]))
    }
}

/// No operation of [`dot`] leaves the range of `N`.
pub open spec fn dot_fits<N: Scalar>(a: Seq<N>, b: Seq<N>, n: nat) -> bool {
    forall|i: int|
        0 <= i < n ==> #[trigger] a[i].mul_req(b[i]) && dot(a, b, i as nat).add_req(
            a[i].mul_spec(b[i]),
        )
}

/// The inner product of `a` and `b`; the shorter length wins.
pub fn inner_product<N: Scalar>(a: &[N], b: &[N]) -> (r: N)
    requires
        total::<N>() || lawful::<N>() && dot_fits(
            a@,
            b@,
            if a.len() <= b.len() {
                a.len() as nat
            } else {
                b.len() as nat
            },
        ),
    ensures
        lawful::<N>() ==> r == dot(a@, b@, if a.len() <= b.len() { a.len() as nat } else { b.len() as nat }),
{
    let n: usize = if a.len() <= b.len() {
        a.len()
    } else {
        b.len()
    };
    let mut acc: N = N::from(0u16);
    let mut i: usize = 0;
    while i < n
        invariant
            n <= a.len(),
            n <= b.len(),
            i <= n,
            total::<N>() || lawful::<N>() && dot_fits(a@, b@, n as nat),
            lawful::<N>() ==> acc == dot(a@, b@, i as nat),
        decreases n - i,
    {
        let x: N = a[i];
        let y: N = b[i];
        assert(a@[i as int].mul_req(b@[i as int]));
        let p: N = x * y;
        acc = acc + p;
        i = i + 1;
    }
    acc
}

/// The sum of the first `n` entries, from the left.
pub open spec fn sum<N: Scalar>(s: Seq<N>, n: nat) -> N
    decreases n,
{
    if n == 0 {
        num(0)
    } else {
        sum(s, (n - 1) as nat).add_spec(s[n - 1])
    }
}

/// No operation of [`sum`] leaves the range of `N`.
pub open spec fn sum_fits<N: Scalar>(s: Seq<N>, n: nat) -> bool {
    forall|i: int| 0 <= i < n ==> sum(s, i as nat).add_req(#[trigger] s[i])
}

/// Adds up the entries of `s`.
pub fn sum_of<N: Scalar>(s: &[N]) -> (r: N)
    requires
        total::<N>() || lawful::<N>() && sum_fits(s@, s@.len()),
    ensures
        lawful::<N>() ==> r == sum(s@, s@.len()),
{
    let mut acc: N = N::from(0u16);
    let mut i: usize = 0;
    while i < s.len()
        invariant
            i <= s.len(),
            total::<N>() || lawful::<N>() && sum_fits(s@, s@.len()),
            lawful::<N>() ==> acc == sum(s@, i as nat),
        decreases s.len() - i,
    {
        let x: N = s[i];
        acc = acc + x;
        i = i + 1;
    }
    acc
}

/// The quotient of two small integers. On a binary floating-point type this is
/// the number nearest to the fraction.
pub open spec fn frac<N: Scalar>(p: u16, q: u16) -> N {
    num::<N>(p).div_spec(num(q))
}

/// `frac(p, q)` can be computed on `N`.
pub open spec fn frac_fits<N: Scalar>(p: u16, q: u16) -> bool {
    num::<N>(p).div_req(num(q))
}

/// Computes [`frac`].
pub fn fraction<N: Scalar>(p: u16, q: u16) -> (r: N)
    requires
        total::<N>() || lawful::<N>() && frac_fits::<N>(p, q),
    ensures
        lawful::<N>() ==> r == frac::<N>(p, q),
{
    let a: N = N::from(p);
    let b: N = N::from(q);
    a / b
}

/// A count as a number of type `N`, built from its 16-bit digits.
pub open spec fn count<N: Scalar>(k: nat) -> N
    decreases k,
{
    if k < 65536 {
        num(k as u16)
    } else {
        count::<N>(k / 65536).mul_spec(num(256)).mul_spec(num(256)).add_spec(
            num((k % 65536) as u16),
        )
    }
}

/// No operation of [`count`] leaves the range of `N`.
pub open spec fn count_fits<N: Scalar>(k: nat) -> bool
    decreases k,
{
    k < 65536 || {
        let high = count::<N>(k / 65536);
        &&& count_fits::<N>(k / 65536)
        &&& high.mul_req(num(256))
        &&& high.mul_spec(num(256)).mul_req(num(256))
        &&& high.mul_spec(num(256)).mul_spec(num(256)).add_req(num((k % 65536) as u16))
    }
}

/// Computes [`count`].
pub fn from_count<N: Scalar>(k: u64) -> (r: N)
    requires
        total::<N>() || lawful::<N>() && count_fits::<N>(k as nat),
    ensures
        lawful::<N>() ==> r == count::<N>(k as nat),
    decreases k,
{
    if k < 65536 {
        N::from(k as u16)
    } else {
        let high: N = from_count::<N>(k / 65536);
        let low: N = N::from((k % 65536) as u16);
        let base: N = N::from(256u16);
        let once: N = high * base;
        let twice: N = once * base;
        twice + low
    }
}

/// On 64-bit integers a count is the count itself.
pub proof fn lemma_count_is_exact(k: nat)
    requires
        k <= u64::MAX,
    ensures
        count_fits::<u64>(k),
        count::<u64>(k) == k,
    decreases k,
{
    if k >= 65536 {
        lemma_count_is_exact(k / 65536);
        let high = count::<u64>(k / 65536);
        assert(num::<u64>(256) == 256u64);
        assert(high.mul_spec(256u64) == high * 256) by (nonlinear_arith)
            requires
                high * 65536 <= u64::MAX,
        ;
        let once = (high * 256) as u64;
        assert(once.mul_spec(256u64) == once * 256) by (nonlinear_arith)
            requires
                once * 256 <= u64::MAX,
        ;
    }
}

/// The larger of two numbers, the first on a tie.
pub open spec fn larger<N: Scalar>(a: N, b: N) -> N {
    if gt(b, a) {
        b
    } else {
        a
    }
}

/// Minus one over zero: minus infinity in IEEE arithmetic, below all numbers.
pub open spec fn bottom<N: Scalar>() -> N {
    num::<N>(0).sub_spec(num(1)).div_spec(num(0))
}

/// [`bottom`] can be computed on `N`.
pub open spec fn bottom_fits<N: Scalar>() -> bool {
    &&& num::<N>(0).sub_req(num(1))
    &&& num::<N>(0).sub_spec(num(1)).div_req(num(0))
}

/// Computes [`bottom`].
pub fn below_all<N: Scalar>() -> (r: N)
    requires
        total::<N>() || lawful::<N>() && bottom_fits::<N>(),
    ensures
        lawful::<N>() ==> r == bottom::<N>(),
{
    let zero: N = N::from(0u16);
    let one: N = N::from(1u16);
    (zero - one) / zero
}

/// The largest of the first `n` entries, starting from below all numbers. What is
/// no number is passed over.
pub open spec fn highest<N: Scalar>(s: Seq<N>, n: nat) -> N
    decreases n,
{
    if n == 0 {
        bottom()
    } else {
        larger(highest(s, (n - 1) as nat), s[n - 1])
    }
}

/// The largest of the first entries does not depend on those behind.
pub proof fn lemma_highest_prefix<N: Scalar>(s: Seq<N>, t: Seq<N>, n: nat)
    requires
        n <= s.len(),
        n <= t.len(),
        forall|i: int| 0 <= i < n ==> #[trigger] s[i] == t[i],
    ensures
        highest(s, n) == highest(t, n),
    decreases n,
{
    if n > 0 {
        lemma_highest_prefix(s, t, (n - 1) as nat);
        assert(s[n - 1] == t[n - 1]);
    }
}

/// The running maximum of the first `n` entries, starting from zero.
pub open spec fn peak<N: Scalar>(s: Seq<N>, n: nat) -> N
    decreases n,
{
    if n == 0 {
        num(0)
    } else {
        larger(peak(s, (n - 1) as nat), s[n - 1])
    }
}

/// The order of `N` is a total preorder on all of its values. Integers have
/// this; a floating-point type has it on the values that are not NaN.
pub open spec fn total_order<N: Scalar>() -> bool {
    &&& forall|a: N, b: N| #[trigger] gt(a, b) == !le(a, b)
    &&& forall|a: N, b: N| #[trigger] le(a, b) || le(b, a)
    &&& forall|a: N, b: N, c: N| #![trigger le(a, b), le(b, c)] le(a, b) && le(b, c) ==> le(a, c)
}

/// Where the largest of the first `n` entries is, the first among equals; `n` is
/// positive.
pub open spec fn top_at<N: Scalar>(s: Seq<N>, n: nat) -> int
    decreases n,
{
    if n <= 1 {
        0
    } else {
        let at = top_at(s, (n - 1) as nat);
        if gt(s[n - 1], s[at]) {
            n - 1
        } else {
            at
        }
    }
}

/// The entries that are left when the largest is taken out `k` times, behind those
/// that were taken out, in order.
pub open spec fn split_top<N: Scalar>(s: Seq<N>, k: nat) -> (Seq<N>, Seq<N>)
    decreases k,
{
    if k == 0 {
        (Seq::empty(), s)
    } else {
        let (top, rest) = split_top(s, (k - 1) as nat);
        let at = top_at(rest, rest.len());
        (top.push(rest[at]), rest.remove(at))
    }
}

/// Removes the first entry that no other exceeds.
pub fn take_largest<N: Scalar>(s: &mut Vec<N>) -> (r: N)
    requires
        old(s)@.len() > 0,
    ensures
        exists|at: int|
            0 <= at < old(s)@.len() && r == old(s)@[at]
                && #[trigger] old(s)@.remove(at) == final(s)@,
        lawful::<N>() ==> {
            let at = top_at(old(s)@, old(s)@.len());
            0 <= at < old(s)@.len() && r == old(s)@[at] && final(s)@ == old(s)@.remove(at)
        },
        lawful::<N>() && total_order::<N>() ==> forall|i: int|
            0 <= i < old(s)@.len() ==> le(#[trigger] old(s)@[i], r),
{
    let mut at: usize = 0;
    let mut i: usize = 1;
    proof {
        if total_order::<N>() {
            assert(le(s@[0], s@[0]));
        }
    }
    while i < s.len()
        invariant
            s@ == old(s)@,
            at < i <= s.len(),
            lawful::<N>() ==> at == top_at(s@, i as nat),
            lawful::<N>() && total_order::<N>() ==> forall|j: int|
                0 <= j < i ==> le(#[trigger] s@[j], s@[at as int]),
        decreases s.len() - i,
    {
        if s[i] > s[at] {
            proof {
                if lawful::<N>() && total_order::<N>() {
                    assert(le(s@[at as int], s@[i as int]));
                    assert(le(s@[i as int], s@[i as int]));
                }
            }
            at = i;
        } else {
            proof {
                if lawful::<N>() && total_order::<N>() {
                    assert(gt(s@[i as int], s@[at as int]) == !le(s@[i as int], s@[at as int]));
                }
            }
        }
        i = i + 1;
    }
    s.remove(at)
}

/// The larger of two numbers, where a NaN gives way to the other.
pub open spec fn pick<N: Scalar>(a: N, b: N) -> N {
    if gt(b, a) || !a.eq_spec(&a) {
        b
    } else {
        a
    }
}

/// Computes [`pick`].
pub fn pick_larger<N: Scalar>(a: N, b: N) -> (r: N)
    ensures
        lawful::<N>() ==> r == pick(a, b),
{
    if b > a || !(a == a) {
        b
    } else {
        a
    }
}

/// No entry of `s` exceeds an earlier one.
pub open spec fn descending<N: Scalar>(s: Seq<N>) -> bool {
    forall|i: int, j: int| 0 <= i < j < s.len() ==> le(#[trigger] s[j], #[trigger] s[i])
}

/// Sorts from the largest entry down.
pub fn sort_descending<N: Scalar>(v: Vec<N>) -> (r: Vec<N>)
    ensures
        r@.len() == v@.len(),
        r@.to_multiset() =~= v@.to_multiset(),
        lawful::<N>() && total_order::<N>() ==> descending(r@),
{
    let mut rest: Vec<N> = v;
    let mut sorted: Vec<N> = Vec::new();
    proof {
        assert(sorted@ + rest@ =~= v@);
    }
    while rest.len() > 0
        invariant
            sorted@.len() + rest@.len() == v@.len(),
            (sorted@ + rest@).to_multiset() =~= v@.to_multiset(),
            lawful::<N>() && total_order::<N>() ==> descending(sorted@),
            lawful::<N>() && total_order::<N>() ==> forall|i: int, j: int|
                0 <= i < sorted@.len() && 0 <= j < rest@.len() ==> le(
                    #[trigger] rest@[j],
                    #[trigger] sorted@[i],
                ),
        decreases rest.len(),
    {
        let ghost rest_before = rest@;
        let ghost sorted_before = sorted@;
        let x: N = take_largest(&mut rest);
        proof {
            let at = choose|at: int|
                0 <= at < rest_before.len() && x == rest_before[at]
                    && #[trigger] rest_before.remove(at) == rest@;
            assert(rest@ == rest_before.remove(at));
            lemma_move_one(sorted_before, rest_before, at);
            assert forall|j: int| 0 <= j < rest@.len() implies exists|m: int|
                0 <= m < rest_before.len() && #[trigger] rest@[j] == #[trigger] rest_before[m] by {
                let m: int = if j < at {
                    j
                } else {
                    j + 1
                };
                assert(rest@[j] == rest_before[m]);
            }
        }
        sorted.push(x);
        proof {
            assert(sorted@ == sorted_before.push(x));
            if lawful::<N>() && total_order::<N>() {
                assert forall|i: int, j: int|
                    0 <= i < sorted@.len() && 0 <= j < rest@.len() implies le(
                    #[trigger] rest@[j],
                    #[trigger] sorted@[i],
                ) by {
                    let r = rest@[j];
                    let m = choose|m: int|
                        0 <= m < rest_before.len() && r == #[trigger] rest_before[m];
                    assert(le(rest_before[m], x));
                    if i < sorted_before.len() {
                        assert(le(rest_before[m], sorted_before[i]));
                    }
                }
            }
        }
    }
    assert(sorted@ + rest@ =~= sorted@);
    sorted
}

/// Moving one entry from the tail list to the head list keeps the entries.
pub proof fn lemma_move_one<N>(top: Seq<N>, rest: Seq<N>, at: int)
    requires
        0 <= at < rest.len(),
    ensures
        (top.push(rest[at]) + rest.remove(at)).to_multiset() =~= (top + rest).to_multiset(),
{
    broadcast use {
        vstd::multiset::group_multiset_axioms,
        vstd::seq_lib::group_to_multiset_ensures,
    };

    vstd::seq_lib::lemma_multiset_commutative(top, rest);
    vstd::seq_lib::lemma_multiset_commutative(top.push(rest[at]), rest.remove(at));
}

} // verus!
