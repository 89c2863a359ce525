//! Initial weights.
use vstd::prelude::*;
use crate::matrix::{has_shape, Matrix};
use crate::scalar::{is_negation, is_one, is_product, is_sample, Scalar};

verus! {

/// A coin, thrown by `rand::Rng::gen::<bool>` on `rand::thread_rng()`.
///
/// Nothing is claimed of the outcome.
#[verifier::external_body]
fn flip() -> bool {
    rand::Rng::gen::<bool>(&mut rand::thread_rng())
}

/// `r` is a value that an initial weight may have: a sample of the scalar,
/// or such a sample times the negation of one.
///
/// With samples spread evenly over the unit interval, the weights are
/// spread evenly over the interval from minus one to one. Weights from
/// another interval make a network learn at another pace: what a network
/// has learnt after given rounds holds for this way of starting it only.
pub open spec fn is_initial_weight<T: Scalar>(r: T) -> bool {
    ||| is_sample(r)
    ||| exists|s: T, one: T, minus_one: T|
        #![trigger is_negation(one, minus_one), is_product(s, minus_one, r)]
        is_sample(s) && is_one(one) && is_negation(one, minus_one) && is_product(s, minus_one, r)
}

/// An initial weight whose sign is `negative`.
pub fn signed_sample<T: Scalar>(negative: bool) -> (r: T)
    ensures
        is_initial_weight(r),
        !negative ==> is_sample(r),
{
    if negative {
        let one = T::one();
        let minus_one = one.negated();
        let s = T::sample();
        let r = s.times(minus_one);
        assert(is_negation(one, minus_one) && is_product(s, minus_one, r));
        r
    } else {
        T::sample()
    }
}

impl<T: Scalar> Matrix<T> {
    /// A matrix of `amount_of_rows` rows and `amount_of_cols` columns, each
    /// entry an initial weight of its own: a sample of the scalar, with the
    /// sign that a coin gave it.
    pub fn new_with_random_values(amount_of_rows: u32, amount_of_cols: u32) -> (r: Matrix<T>)
        ensures
            has_shape(r@, amount_of_rows as nat, amount_of_cols as nat),
            forall|i: int, j: int|
                0 <= i < r@.len() && 0 <= j < r@[i].len() ==> is_initial_weight(#[trigger] r@[i][j]),
    {
        let mut rows: Vec<Vec<T>> = Vec::new();
        let mut y: u32 = 0;
        while y < amount_of_rows
            invariant
                y <= amount_of_rows,
                rows.len() == y,
                forall|i: int| 0 <= i < y ==> (#[trigger] rows@[i]).len() == amount_of_cols,
                forall|i: int, j: int|
                    0 <= i < y && 0 <= j < amount_of_cols ==> is_initial_weight(
                        #[trigger] rows@[i]@[j],
                    ),
            decreases amount_of_rows - y,
        {
            let mut cols: Vec<T> = Vec::new();
            let mut x: u32 = 0;
            while x < amount_of_cols
                invariant
                    x <= amount_of_cols,
                    cols.len() == x,
                    forall|j: int| 0 <= j < x ==> is_initial_weight(#[trigger] cols@[j]),
                decreases amount_of_cols - x,
            {
                cols.push(signed_sample(flip()));
                x += 1;
            }
            rows.push(cols);
            y += 1;
        }
        let r = Matrix(rows);
        r
    }
}

} // verus!
