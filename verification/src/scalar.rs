//! The number type of a network, and what its arithmetic is known to do.
//!
//! Nothing in this crate computes with numbers itself. A network is generic
//! over a [`Scalar`], and every contract speaks of the results of the
//! scalar's own operations through the relations below: `is_sum(a, b, r)`
//! holds when `r` is a value that `a.plus(b)` may return. The contracts
//! therefore hold for every implementation of the trait, and say, entry by
//! entry, which operation was applied to which operands.
use vstd::prelude::*;

verus! {

/// The arithmetic a network needs from its numbers.
///
/// The methods carry no contract: an implementation owes nothing beyond
/// returning a value.
pub trait Scalar: Copy {
    /// The additive identity, from which sums start.
    fn zero() -> Self;

    /// The multiplicative identity.
    fn one() -> Self;

    /// `self + rhs`.
    fn plus(self, rhs: Self) -> Self;

    /// `self - rhs`.
    fn minus(self, rhs: Self) -> Self;

    /// `self * rhs`.
    fn times(self, rhs: Self) -> Self;

    /// `self / rhs`.
    fn divided_by(self, rhs: Self) -> Self;

    /// `-self`.
    fn negated(self) -> Self;

    /// Euler's number raised to `self`.
    fn exp(self) -> Self;

    /// A fresh sample from the unit interval, for initial weights.
    fn sample() -> Self;
}

/// `r` is a value that `T::zero()` may return.
pub open spec fn is_zero<T: Scalar>(r: T) -> bool {
    call_ensures(T::zero, (), r)
}

/// `r` is a value that `T::one()` may return.
pub open spec fn is_one<T: Scalar>(r: T) -> bool {
    call_ensures(T::one, (), r)
}

/// `r` is a value that `a.plus(b)` may return.
pub open spec fn is_sum<T: Scalar>(a: T, b: T, r: T) -> bool {
    call_ensures(T::plus, (a, b), r)
}

/// `r` is a value that `a.minus(b)` may return.
pub open spec fn is_difference<T: Scalar>(a: T, b: T, r: T) -> bool {
    call_ensures(T::minus, (a, b), r)
}

/// `r` is a value that `a.times(b)` may return.
pub open spec fn is_product<T: Scalar>(a: T, b: T, r: T) -> bool {
    call_ensures(T::times, (a, b), r)
}

/// `r` is a value that `a.divided_by(b)` may return.
pub open spec fn is_quotient<T: Scalar>(a: T, b: T, r: T) -> bool {
    call_ensures(T::divided_by, (a, b), r)
}

/// `r` is a value that `a.negated()` may return.
pub open spec fn is_negation<T: Scalar>(a: T, r: T) -> bool {
    call_ensures(T::negated, (a,), r)
}

/// `r` is a value that `a.exp()` may return.
pub open spec fn is_exponential<T: Scalar>(a: T, r: T) -> bool {
    call_ensures(T::exp, (a,), r)
}

/// `r` is a value that `T::sample()` may return.
pub open spec fn is_sample<T: Scalar>(r: T) -> bool {
    call_ensures(T::sample, (), r)
}

/// `r` is the logistic function of `x`, computed as `1 / (1 + e^(-x))`:
/// the negation, the exponential, the sum with one and the quotient, in
/// that order.
pub open spec fn is_sigmoid<T: Scalar>(x: T, r: T) -> bool {
    exists|n: T, e: T, one: T, d: T|
        #![trigger is_exponential(n, e), is_sum(one, e, d)]
        is_negation(x, n) && is_exponential(n, e) && is_one(one) && is_sum(one, e, d)
            && is_quotient(one, d, r)
}

/// `r` is the slope of the logistic function at a point whose activation
/// is `a`, computed from the activation as `a * (1 - a)`.
pub open spec fn is_sigmoid_slope<T: Scalar>(a: T, r: T) -> bool {
    exists|one: T, c: T|
        #![trigger is_difference(one, a, c)]
        is_one(one) && is_difference(one, a, c) && is_product(a, c, r)
}

/// `r` is the running sum of `terms`: it starts from zero and adds the
/// terms one by one, first to last. `sums[k]` is the sum of the first `k`
/// terms.
pub open spec fn is_running_sum<T: Scalar>(terms: Seq<T>, sums: Seq<T>, r: T) -> bool {
    &&& sums.len() == terms.len() + 1
    &&& is_zero(sums[0])
    &&& forall|k: int| 0 <= k < terms.len() ==> is_sum(sums[k], #[trigger] terms[k], sums[k + 1])
    &&& r == sums[terms.len() as int]
}

/// `r` is the sum of `terms`, added from zero in their order.
pub open spec fn is_total<T: Scalar>(terms: Seq<T>, r: T) -> bool {
    exists|sums: Seq<T>| is_running_sum(terms, sums, r)
}

/// `r` is the dot product of `a` and `b`: the products of the entries at
/// equal positions, added from zero in their order.
pub open spec fn is_dot_product<T: Scalar>(a: Seq<T>, b: Seq<T>, r: T) -> bool {
    exists|terms: Seq<T>|
        {
            &&& terms.len() == a.len()
            &&& a.len() == b.len()
            &&& forall|k: int| 0 <= k < a.len() ==> is_product(a[k], b[k], #[trigger] terms[k])
            &&& #[trigger] is_total(terms, r)
        }
}

/// The logistic function `1 / (1 + e^(-x))`.
pub fn sigmoid<T: Scalar>(x: T) -> (r: T)
    ensures
        is_sigmoid(x, r),
{
    let n = x.negated();
    let e = n.exp();
    let one = T::one();
    let d = one.plus(e);
    let r = one.divided_by(d);
    proof {
        assert(is_exponential(n, e) && is_sum(one, e, d));
    }
    r
}

/// The slope of the logistic function, from the activation `a`.
pub fn sigmoid_slope<T: Scalar>(a: T) -> (r: T)
    ensures
        is_sigmoid_slope(a, r),
{
    let one = T::one();
    let c = one.minus(a);
    let r = a.times(c);
    proof {
        assert(is_difference(one, a, c));
    }
    r
}

/// A running sum of no terms is its starting zero.
pub proof fn lemma_running_sum_start<T: Scalar>(zero: T)
    requires
        is_zero(zero),
    ensures
        is_running_sum(Seq::<T>::empty(), seq![zero], zero),
{
}

/// A running sum goes on by one term.
pub proof fn lemma_running_sum_step<T: Scalar>(
    terms: Seq<T>,
    sums: Seq<T>,
    acc: T,
    term: T,
    next: T,
)
    requires
        is_running_sum(terms, sums, acc),
        is_sum(acc, term, next),
    ensures
        is_running_sum(terms.push(term), sums.push(next), next),
{
}

} // verus!
