//! What a network is asked, and what it answers.
use vstd::prelude::*;

verus! {

/// A question: the values of the input neurons.
#[derive(Debug)]
pub struct QueryEntry<T> {
    pub input: Vec<T>,
}

/// The questions of one call, in their order.
#[derive(Debug)]
pub struct QueryData<'a, T>(pub &'a Vec<QueryEntry<T>>);

impl<'a, T> QueryData<'a, T> {
    /// A question has not `len` values.
    pub open spec fn has_input_of_other_length(&self, len: nat) -> bool {
        exists|i: int| 0 <= i < self.0@.len() && (#[trigger] self.0@[i]).input@.len() != len
    }
}

/// An answer: the values of the output neurons.
#[derive(Debug)]
pub struct QueryResult<T>(pub Vec<T>);

/// The answers of one call, in the order of the questions.
#[derive(Debug)]
pub struct QueryResults<T>(pub Vec<QueryResult<T>>);

} // verus!
