//! The entries that a network's error is measured on.
use vstd::prelude::*;

verus! {

/// The values of the input neurons, and the values that the output neurons
/// should have for them.
#[derive(Debug, Clone)]
pub struct ErrorRateEntry<T> {
    pub input: Vec<T>,
    pub expected_output: Vec<T>,
}

/// The entries of one measurement, in their order.
#[derive(Debug)]
pub struct ErrorRateData<'a, T>(pub &'a Vec<ErrorRateEntry<T>>);

} // verus!
