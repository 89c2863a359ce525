//! The forward pass: from an input vector to the activations of every
//! layer.
use vstd::prelude::*;
use crate::error::Error;
use crate::layer::{grids_of, weights_of, Layer};
use crate::matrix::{column_vector, has_shape, width, Matrix};
use crate::neuralnetwork::NeuralNetwork;
use crate::operators::{is_entrywise, is_matrix_product, matrix_multiplication, EntryMap};
use crate::scalar::Scalar;

verus! {

/// `output` is what a layer of the given weights makes of `input`: the
/// logistic function of every entry of the matrix product of the weights
/// and the input.
pub open spec fn is_activation<T: Scalar>(
    weights: Seq<Seq<T>>,
    input: Seq<Seq<T>>,
    output: Seq<Seq<T>>,
) -> bool {
    exists|weighted: Seq<Seq<T>>|
        #![trigger is_matrix_product(weights, input, weighted)]
        is_matrix_product(weights, input, weighted) && is_entrywise(
            EntryMap::Sigmoid,
            weighted,
            output,
        )
}

/// `results` are the activations of a forward pass through layers of the
/// given weights: first the input itself, then what each layer in turn
/// makes of the activation before it.
pub open spec fn is_forward_pass<T: Scalar>(
    weights: Seq<Seq<Seq<T>>>,
    input: Seq<Seq<T>>,
    results: Seq<Seq<Seq<T>>>,
) -> bool {
    &&& results.len() == weights.len() + 1
    &&& results[0] == input
    &&& forall|k: int|
        0 <= k < weights.len() ==> is_activation(#[trigger] weights[k], results[k], results[k + 1])
}

/// The number of rows that layer `k` multiplies its rows with: those of
/// the input for the first layer, those of the layer before it for every
/// other.
pub open spec fn rows_before<T>(weights: Seq<Seq<Seq<T>>>, input_rows: nat, k: int) -> nat {
    if k == 0 {
        input_rows
    } else {
        weights[k - 1].len()
    }
}

/// Each layer has as many columns as the activation that reaches it has
/// rows.
pub open spec fn chained<T>(weights: Seq<Seq<Seq<T>>>, input_rows: nat) -> bool {
    forall|k: int|
        0 <= k < weights.len() ==> width(#[trigger] weights[k]) == rows_before(
            weights,
            input_rows,
            k,
        )
}

/// The activations of a forward pass.
#[derive(Debug, PartialEq)]
pub struct Feedforward<T> {
    /// The input as a column, and behind it the activation of each layer.
    pub results: Vec<Matrix<T>>,
}

impl<T> Feedforward<T> {
    /// The grids of the activations, in their order.
    pub open spec fn activations(&self) -> Seq<Seq<Seq<T>>> {
        grids_of(self.results@)
    }
}

impl<T: Scalar> Feedforward<T> {
    /// Why a forward pass through `neural_network` fails on an input of
    /// `input_len` values, if it does. The reasons are looked for in this
    /// order: the length of the input; the rows of each layer; the number of
    /// columns of each layer; the presence of a layer; the number of rows of
    /// the first layer; the number of rows of the last.
    pub open spec fn failure(neural_network: &NeuralNetwork<T>, input_len: nat) -> Option<Error> {
        let weights = neural_network.weights();
        if input_len != neural_network.amount_of_input_neurons {
            Some(Error::InputSizeMismatch)
        } else if !neural_network.has_rectangular_layers() {
            Some(Error::RaggedLayer)
        } else if !chained(weights, input_len) {
            Some(Error::DimensionMismatch)
        } else if weights.len() == 0 {
            Some(Error::MissingHiddenResult)
        } else if weights[0].len() != neural_network.amount_of_hidden_neurons {
            Some(Error::HiddenSizeMismatch)
        } else if weights.last().len() != neural_network.amount_of_output_neurons {
            Some(Error::OutputSizeMismatch)
        } else {
            None
        }
    }

    /// The forward pass of `input_data` through `neural_network`.
    ///
    /// It fails exactly where `failure` names a reason, and with that
    /// reason. Where it succeeds, the results are the activations of the
    /// pass, the first of them the input as a column; the activation of the
    /// first layer has as many rows as the network has hidden neurons, and
    /// the last activation as many as it has output neurons.
    pub fn run(neural_network: &NeuralNetwork<T>, input_data: &Vec<T>) -> (r: Result<
        Feedforward<T>,
        Error,
    >)
        ensures
            match r {
                Ok(feedforward) => {
                    &&& Self::failure(neural_network, input_data@.len()) is None
                    &&& is_forward_pass(
                        neural_network.weights(),
                        column_vector(input_data@),
                        feedforward.activations(),
                    )
                    &&& feedforward.activations()[1].len()
                        == neural_network.amount_of_hidden_neurons
                    &&& feedforward.activations().last().len()
                        == neural_network.amount_of_output_neurons
                },
                Err(e) => Self::failure(neural_network, input_data@.len()) == Some(e),
            },
    {
        if input_data.len() != neural_network.amount_of_input_neurons as usize {
            return Err(Error::InputSizeMismatch);
        }
        if !neural_network.check_layers() {
            return Err(Error::RaggedLayer);
        }
        let input = transform_input_data_to_matrix(input_data);
        proof {
            assert forall|k: int| 0 <= k < neural_network.layers@.len() implies (
            #[trigger] neural_network.layers@[k]).0.is_rectangular() by {
                assert(neural_network.weights()[k] == neural_network.layers@[k]@);
            }
        }
        let feedforward = match calculate_results_per_layer(&neural_network.layers, input) {
            Ok(feedforward) => feedforward,
            Err(e) => {
                return Err(e);
            },
        };
        if feedforward.results.len() < 2 {
            return Err(Error::MissingHiddenResult);
        }
        let ghost weights = neural_network.weights();
        let ghost results = feedforward.activations();
        proof {
            lemma_forward_pass_shapes(weights, column_vector(input_data@), results);
        }
        if feedforward.results[1].0.len() != neural_network.amount_of_hidden_neurons as usize {
            return Err(Error::HiddenSizeMismatch);
        }
        if feedforward.results[feedforward.results.len() - 1].0.len()
            != neural_network.amount_of_output_neurons as usize {
            return Err(Error::OutputSizeMismatch);
        }
        Ok(feedforward)
    }
}

/// In a forward pass every layer has as many columns as the activation
/// that reaches it has rows, and its own activation has as many rows as the
/// layer, and as many columns as the activation before it.
pub proof fn lemma_forward_pass_shapes<T: Scalar>(
    weights: Seq<Seq<Seq<T>>>,
    input: Seq<Seq<T>>,
    results: Seq<Seq<Seq<T>>>,
)
    requires
        is_forward_pass(weights, input, results),
    ensures
        forall|k: int|
            0 <= k < weights.len() ==> width(#[trigger] weights[k]) == results[k].len()
                && has_shape(results[k + 1], weights[k].len(), width(results[k])),
{
    assert forall|k: int| 0 <= k < weights.len() implies width(#[trigger] weights[k])
        == results[k].len() && has_shape(results[k + 1], weights[k].len(), width(results[k])) by {
        let weighted = choose|weighted: Seq<Seq<T>>|
            #![trigger is_matrix_product(weights[k], results[k], weighted)]
            is_matrix_product(weights[k], results[k], weighted) && is_entrywise(
                EntryMap::Sigmoid,
                weighted,
                results[k + 1],
            );
        assert forall|i: int| 0 <= i < results[k + 1].len() implies (
        #[trigger] results[k + 1][i]).len() == width(results[k]) by {
            assert(weighted[i].len() == results[k + 1][i].len());
        }
    }
}

/// In a forward pass of a column of at least one row through layers of at
/// least one row each, every activation up to the one at `k` is a column of
/// at least one row.
pub proof fn lemma_columns<T: Scalar>(
    weights: Seq<Seq<Seq<T>>>,
    input: Seq<Seq<T>>,
    results: Seq<Seq<Seq<T>>>,
    k: int,
)
    requires
        is_forward_pass(weights, input, results),
        input.len() >= 1,
        has_shape(input, input.len(), 1),
        forall|i: int| 0 <= i < weights.len() ==> (#[trigger] weights[i]).len() >= 1,
        0 <= k <= weights.len(),
    ensures
        forall|i: int|
            0 <= i <= k ==> (#[trigger] results[i]).len() >= 1 && has_shape(
                results[i],
                results[i].len(),
                1,
            ),
    decreases k,
{
    if k > 0 {
        lemma_columns(weights, input, results, k - 1);
        lemma_forward_pass_shapes(weights, input, results);
        assert(has_shape(results[k - 1 + 1], weights[k - 1].len(), width(results[k - 1])));
    }
}

/// The activations of a forward pass of `input_data` through `layers`.
///
/// Fails with `DimensionMismatch` exactly where a layer has not as many
/// columns as the activation that reaches it has rows.
pub fn calculate_results_per_layer<T: Scalar>(layers: &Vec<Layer<T>>, input_data: Matrix<T>) -> (r:
    Result<Feedforward<T>, Error>)
    requires
        forall|k: int| 0 <= k < layers@.len() ==> (#[trigger] layers@[k]).0.is_rectangular(),
        input_data.is_rectangular(),
    ensures
        match r {
            Ok(feedforward) => {
                &&& chained(weights_of(layers@), input_data@.len())
                &&& is_forward_pass(weights_of(layers@), input_data@, feedforward.activations())
            },
            Err(e) => e == Error::DimensionMismatch && !chained(
                weights_of(layers@),
                input_data@.len(),
            ),
        },
{
    let ghost weights = weights_of(layers@);
    let ghost input = input_data@;
    let mut result: Vec<Matrix<T>> = Vec::new();
    result.push(input_data);
    let mut k: usize = 0;
    while k < layers.len()
        invariant
            k <= layers.len(),
            weights == weights_of(layers@),
            input == input_data@,
            forall|i: int| 0 <= i < layers@.len() ==> (#[trigger] layers@[i]).0.is_rectangular(),
            result.len() == k + 1,
            result@[0]@ == input,
            forall|i: int| 0 <= i <= k ==> (#[trigger] result@[i]).is_rectangular(),
            forall|i: int|
                0 < i <= k ==> (#[trigger] result@[i])@.len() == weights[i - 1].len(),
            forall|i: int|
                0 <= i < k ==> width(#[trigger] weights[i]) == rows_before(weights, input.len(), i),
            forall|i: int|
                0 <= i < k ==> is_activation(#[trigger] weights[i], result@[i]@, result@[i + 1]@),
        decreases layers.len() - k,
    {
        let layer = &layers[k];
        let weighted = match matrix_multiplication(&layer.0, &result[k]) {
            Ok(weighted) => weighted,
            Err(e) => {
                assert(width(weights[k as int]) != rows_before(weights, input.len(), k as int));
                return Err(e);
            },
        };
        let ghost weighted_grid = weighted@;
        let activation = weighted.apply_sigmoid();
        proof {
            assert forall|i: int| 0 <= i < activation@.len() implies (#[trigger] activation@[i]).len()
                == width(activation@) by {
                assert(weighted_grid[i].len() == activation@[i].len());
                assert(weighted_grid[0].len() == activation@[0].len());
            }
        }
        result.push(activation);
        k += 1;
    }
    let feedforward = Feedforward { results: result };
    Ok(feedforward)
}

/// The input as a column matrix: one row of length one for each value.
pub fn transform_input_data_to_matrix<T: Copy>(input_data: &Vec<T>) -> (r: Matrix<T>)
    ensures
        r@ == column_vector(input_data@),
{
    Matrix::from_vec(input_data)
}

} // verus!
