//! The backward pass: from the error at the output to new weights for
//! every layer.
use vstd::prelude::*;
use crate::error::{Error, Operator};
use crate::feedforward::Feedforward;
use crate::layer::{grids_of, weights_of, Layer};
use crate::matrix::{column_vector, has_shape, rectangular, same_shape, transposed, width, Matrix};
use crate::operators::{
    is_elementwise, is_entrywise, is_matrix_product, matrix_multiplication, EntryMap,
};
use crate::scalar::Scalar;

verus! {

/// The number of rows of the error behind layer `k`, which its transposed
/// weights are multiplied with: those of the target for the last layer,
/// the columns of the layer behind it for every other.
pub open spec fn rows_behind<T>(weights: Seq<Seq<Seq<T>>>, target_rows: nat, k: int) -> nat {
    if k == weights.len() - 1 {
        target_rows
    } else {
        width(weights[k + 1])
    }
}

/// Each layer but the first has, transposed, as many columns as the error
/// behind it has rows.
pub open spec fn chained_backwards<T>(weights: Seq<Seq<Seq<T>>>, target_rows: nat) -> bool {
    forall|k: int|
        1 <= k < weights.len() ==> width(transposed(#[trigger] weights[k])) == rows_behind(
            weights,
            target_rows,
            k,
        )
}

/// `errors` are the errors of the layers: the last is the target minus the
/// actual output, entry by entry, and the error of every other layer is the
/// matrix product of the transposed weights of the layer behind it and that
/// layer's error. Where there is no layer, the one error is that at the
/// output.
pub open spec fn is_error_chain<T: Scalar>(
    weights: Seq<Seq<Seq<T>>>,
    target: Seq<Seq<T>>,
    actual: Seq<Seq<T>>,
    errors: Seq<Seq<Seq<T>>>,
) -> bool {
    &&& errors.len() == if weights.len() == 0 {
        1
    } else {
        weights.len()
    }
    &&& is_elementwise(Operator::SUB, target, actual, errors.last())
    &&& forall|k: int|
        1 <= k < weights.len() ==> is_matrix_product(
            transposed(#[trigger] weights[k]),
            errors[k],
            errors[k - 1],
        )
}

/// `new` are the weights of a layer after one step of gradient descent:
/// the old weights plus the learning rate times the matrix product of the
/// layer's error, weighted entry by entry with the slope of the logistic
/// function at the layer's output, and the transposed input of the layer.
pub open spec fn is_weight_update<T: Scalar>(
    learning_rate: T,
    old: Seq<Seq<T>>,
    error: Seq<Seq<T>>,
    output: Seq<Seq<T>>,
    input: Seq<Seq<T>>,
    new: Seq<Seq<T>>,
) -> bool {
    exists|slope: Seq<Seq<T>>, credit: Seq<Seq<T>>, gradient: Seq<Seq<T>>, delta: Seq<Seq<T>>|
        #![trigger is_elementwise(Operator::MUL, error, slope, credit), is_entrywise(EntryMap::Scale(learning_rate), gradient, delta)]
        {
            &&& is_entrywise(EntryMap::SigmoidSlope, output, slope)
            &&& is_elementwise(Operator::MUL, error, slope, credit)
            &&& is_matrix_product(credit, transposed(input), gradient)
            &&& is_entrywise(EntryMap::Scale(learning_rate), gradient, delta)
            &&& is_elementwise(Operator::ADD, old, delta, new)
        }
}

/// Why the weights of a layer cannot be updated, if they cannot. The reasons
/// are looked for in the order of the steps: the shapes of the error and
/// the output; the columns of the error and of the input; the shapes of the
/// weights and of their change.
pub open spec fn update_failure<T>(
    old: Seq<Seq<T>>,
    error: Seq<Seq<T>>,
    output: Seq<Seq<T>>,
    input: Seq<Seq<T>>,
) -> Option<Error> {
    if error.len() != output.len() {
        Some(Error::RowCountMismatch(Operator::MUL))
    } else if !same_shape(error, output) {
        Some(Error::ColumnCountMismatch(Operator::MUL))
    } else if width(error) != width(input) {
        Some(Error::DimensionMismatch)
    } else if old.len() != error.len() {
        Some(Error::RowCountMismatch(Operator::ADD))
    } else if !has_shape(old, error.len(), width(transposed(input))) {
        Some(Error::ColumnCountMismatch(Operator::ADD))
    } else {
        None
    }
}

/// The layers, the target and the activations belong together: there is a
/// layer; there is one activation more than there are layers; every
/// activation is a column of at least one row; every layer has a row for
/// each row of its output and a column for each row of its input; and the
/// target has a value for each row of the last activation.
pub open spec fn aligned<T>(
    weights: Seq<Seq<Seq<T>>>,
    target_len: nat,
    results: Seq<Seq<Seq<T>>>,
) -> bool {
    &&& weights.len() >= 1
    &&& results.len() == weights.len() + 1
    &&& forall|k: int|
        0 <= k < results.len() ==> (#[trigger] results[k]).len() >= 1 && has_shape(
            results[k],
            results[k].len(),
            1,
        )
    &&& forall|k: int|
        0 <= k < weights.len() ==> has_shape(
            #[trigger] weights[k],
            results[k + 1].len(),
            results[k].len(),
        )
    &&& target_len == results.last().len()
}

/// `new` are the weights after a backward pass: there are errors of the
/// layers, from the target and the last activation, such that each layer's
/// new weights are its update by its error, its output and its input.
pub open spec fn is_backward_pass<T: Scalar>(
    learning_rate: T,
    weights: Seq<Seq<Seq<T>>>,
    target: Seq<Seq<T>>,
    results: Seq<Seq<Seq<T>>>,
    new: Seq<Seq<Seq<T>>>,
) -> bool {
    exists|errors: Seq<Seq<Seq<T>>>|
        {
            &&& #[trigger] is_error_chain(weights, target, results.last(), errors)
            &&& is_all_updated(learning_rate, weights, errors, results, new)
        }
}

/// `new` holds, for each layer, its update by its error, its output and its
/// input.
pub open spec fn is_all_updated<T: Scalar>(
    learning_rate: T,
    weights: Seq<Seq<Seq<T>>>,
    errors: Seq<Seq<Seq<T>>>,
    results: Seq<Seq<Seq<T>>>,
    new: Seq<Seq<Seq<T>>>,
) -> bool {
    &&& new.len() == weights.len()
    &&& forall|i: int|
        0 <= i < weights.len() ==> is_weight_update(
            learning_rate,
            #[trigger] weights[i],
            errors[i],
            results[i + 1],
            results[i],
            new[i],
        )
}

/// The errors of the layers, the error of layer `i` at index `i`.
#[derive(Debug)]
pub struct ErrorRatePerLayer<T>(pub Vec<Matrix<T>>);

impl<T> ErrorRatePerLayer<T> {
    /// The grids of the errors, in their order.
    pub open spec fn errors(&self) -> Seq<Seq<Seq<T>>> {
        grids_of(self.0@)
    }
}

/// The outcome of a backward pass.
#[derive(Debug)]
pub struct Backpropagation<T> {
    /// The new weights, layer by layer.
    pub new_layers: Vec<Layer<T>>,
}

impl<T: Scalar> Backpropagation<T> {
    /// The backward pass: the new weights of `layers` after one step of
    /// gradient descent towards `target`, from the activations of a forward
    /// pass through these layers.
    ///
    /// Fails with `Misaligned` exactly where the layers, the target and the
    /// activations do not belong together.
    pub fn run(
        learning_rate: &T,
        layers: &Vec<Layer<T>>,
        target: &Vec<T>,
        feedforward: &Feedforward<T>,
    ) -> (r: Result<Backpropagation<T>, Error>)
        ensures
            match r {
                Ok(backpropagation) => {
                    &&& aligned(weights_of(layers@), target@.len(), feedforward.activations())
                    &&& is_backward_pass(
                        *learning_rate,
                        weights_of(layers@),
                        column_vector(target@),
                        feedforward.activations(),
                        weights_of(backpropagation.new_layers@),
                    )
                },
                Err(e) => e == Error::Misaligned && !aligned(
                    weights_of(layers@),
                    target@.len(),
                    feedforward.activations(),
                ),
            },
    {
        if !check_alignment(layers, target.len(), feedforward) {
            return Err(Error::Misaligned);
        }
        let ghost weights = weights_of(layers@);
        let ghost results = feedforward.activations();
        let target_matrix = Matrix::from_vec(target);
        let actual = &feedforward.results[feedforward.results.len() - 1];
        proof {
            assert forall|k: int| 0 <= k < layers@.len() implies (
            #[trigger] layers@[k]).0.is_rectangular() by {
                lemma_aligned_layer(weights, target@.len(), results, k);
            }
            lemma_aligned_chains_backwards(weights, target@.len(), results);
        }
        let error_rate_per_layer = match calculate_error_rate_per_layer(
            &target_matrix,
            actual,
            layers,
        ) {
            Ok(errors) => errors,
            Err(e) => {
                return Err(e);
            },
        };
        let ghost errors = error_rate_per_layer.errors();
        proof {
            lemma_aligned_errors(weights, target_matrix@, results, errors, 0);
        }
        let new_layers = match new_weights_based_on_error_rate_and_gradient_descent(
            learning_rate,
            feedforward,
            layers,
            &error_rate_per_layer,
        ) {
            Ok(new_layers) => new_layers,
            Err(e) => {
                return Err(e);
            },
        };
        Ok(Backpropagation { new_layers })
    }
}

/// Whether the matrix has `rows` rows, each of length `cols`.
fn check_shape<T>(matrix: &Matrix<T>, rows: usize, cols: usize) -> (r: bool)
    ensures
        r == has_shape(matrix@, rows as nat, cols as nat),
{
    if matrix.0.len() != rows {
        return false;
    }
    let mut i: usize = 0;
    while i < matrix.0.len()
        invariant
            i <= matrix.0.len(),
            matrix.0.len() == rows,
            forall|k: int| 0 <= k < i ==> (#[trigger] matrix@[k]).len() == cols,
        decreases matrix.0.len() - i,
    {
        if matrix.0[i].len() != cols {
            assert(matrix@[i as int].len() != cols);
            return false;
        }
        i += 1;
    }
    true
}

/// Whether the layers, a target of `target_len` values and the activations
/// belong together.
fn check_alignment<T>(layers: &Vec<Layer<T>>, target_len: usize, feedforward: &Feedforward<T>) -> (r:
    bool)
    ensures
        r == aligned(weights_of(layers@), target_len as nat, feedforward.activations()),
{
    let ghost weights = weights_of(layers@);
    let ghost results = feedforward.activations();
    let n = layers.len();
    if n == 0 || feedforward.results.len() == 0 || feedforward.results.len() - 1 != n {
        return false;
    }
    let mut k: usize = 0;
    while k < feedforward.results.len()
        invariant
            k <= feedforward.results@.len(),
            results == feedforward.activations(),
            forall|i: int|
                0 <= i < k ==> (#[trigger] results[i]).len() >= 1 && has_shape(
                    results[i],
                    results[i].len(),
                    1,
                ),
        decreases feedforward.results@.len() - k,
    {
        let activation = &feedforward.results[k];
        assert(results[k as int] == activation@);
        if activation.0.len() == 0 || !check_shape(activation, activation.0.len(), 1) {
            return false;
        }
        k += 1;
    }
    let mut k: usize = 0;
    while k < n
        invariant
            k <= n,
            n == layers@.len(),
            feedforward.results@.len() == n + 1,
            weights == weights_of(layers@),
            results == feedforward.activations(),
            forall|i: int|
                0 <= i < k ==> has_shape(
                    #[trigger] weights[i],
                    results[i + 1].len(),
                    results[i].len(),
                ),
        decreases n - k,
    {
        assert(weights[k as int] == layers@[k as int]@);
        if !check_shape(
            &layers[k].0,
            feedforward.results[k + 1].0.len(),
            feedforward.results[k].0.len(),
        ) {
            return false;
        }
        k += 1;
    }
    target_len == feedforward.results[n].0.len()
}

/// Where the layers, the target and the activations belong together, the
/// layers are chained backwards.
pub proof fn lemma_aligned_chains_backwards<T>(
    weights: Seq<Seq<Seq<T>>>,
    target_len: nat,
    results: Seq<Seq<Seq<T>>>,
)
    requires
        aligned(weights, target_len, results),
    ensures
        chained_backwards(weights, target_len),
{
}

/// Where the layers, the target and the activations belong together, layer
/// `k` has at least one row and one column, as many columns as its input
/// has rows, and as many rows as its output.
pub proof fn lemma_aligned_layer<T>(
    weights: Seq<Seq<Seq<T>>>,
    target_len: nat,
    results: Seq<Seq<Seq<T>>>,
    k: int,
)
    requires
        aligned(weights, target_len, results),
        0 <= k < weights.len(),
    ensures
        weights[k].len() == results[k + 1].len(),
        weights[k].len() >= 1,
        width(weights[k]) == results[k].len(),
        width(weights[k]) >= 1,
        rectangular(weights[k]),
        width(transposed(weights[k])) == weights[k].len(),
        transposed(weights[k]).len() == width(weights[k]),
        width(results[k]) == 1,
        width(results[k + 1]) == 1,
        width(transposed(results[k])) == results[k].len(),
{
    assert(has_shape(weights[k], results[k + 1].len(), results[k].len()));
}

/// Where the layers, the target and the activations belong together, the
/// error of each layer from `k` on is a column with a row for each row of
/// the layer's output.
pub proof fn lemma_aligned_errors<T: Scalar>(
    weights: Seq<Seq<Seq<T>>>,
    target: Seq<Seq<T>>,
    results: Seq<Seq<Seq<T>>>,
    errors: Seq<Seq<Seq<T>>>,
    k: int,
)
    requires
        aligned(weights, target.len(), results),
        is_error_chain(weights, target, results.last(), errors),
        0 <= k < weights.len(),
    ensures
        forall|i: int|
            k <= i < weights.len() ==> has_shape(#[trigger] errors[i], results[i + 1].len(), 1),
    decreases weights.len() - k,
{
    let last = weights.len() - 1;
    if k == last {
        assert forall|i: int| 0 <= i < errors[last].len() implies (#[trigger] errors[last][i]).len()
            == 1 by {
            assert(target[i].len() == errors.last()[i].len());
        }
    } else {
        lemma_aligned_errors(weights, target, results, errors, k + 1);
        lemma_aligned_layer(weights, target.len(), results, k + 1);
    }
}

/// The values of `v` in the opposite order.
fn reversed<T>(v: Vec<T>) -> (r: Vec<T>)
    ensures
        r@.len() == v@.len(),
        forall|i: int| 0 <= i < r@.len() ==> #[trigger] r@[i] == v@[v@.len() - 1 - i],
{
    let mut rest = v;
    let mut out: Vec<T> = Vec::new();
    while rest.len() > 0
        invariant
            rest@.len() + out@.len() == v@.len(),
            forall|i: int| 0 <= i < rest@.len() ==> #[trigger] rest@[i] == v@[i],
            forall|i: int| 0 <= i < out@.len() ==> #[trigger] out@[i] == v@[v@.len() - 1 - i],
        decreases rest.len(),
    {
        match rest.pop() {
            Some(x) => out.push(x),
            None => {},
        }
    }
    out
}

/// The errors of the layers, from the error at the output backwards.
///
/// Fails where the target and the actual output differ in shape, as their
/// difference does; and with `DimensionMismatch` where they do not, and a
/// layer but the first has, transposed, not as many columns as the error
/// behind it has rows.
pub fn calculate_error_rate_per_layer<T: Scalar>(
    target: &Matrix<T>,
    actual: &Matrix<T>,
    layers: &Vec<Layer<T>>,
) -> (r: Result<ErrorRatePerLayer<T>, Error>)
    requires
        target.is_rectangular(),
        forall|k: int| 0 <= k < layers@.len() ==> (#[trigger] layers@[k]).0.is_rectangular(),
    ensures
        match r {
            Ok(errors) => {
                &&& same_shape(target@, actual@)
                &&& chained_backwards(weights_of(layers@), target@.len())
                &&& is_error_chain(weights_of(layers@), target@, actual@, errors.errors())
                &&& forall|k: int|
                    0 <= k < errors.errors().len() ==> rectangular(#[trigger] errors.errors()[k])
            },
            Err(e) => if target@.len() != actual@.len() {
                e == Error::RowCountMismatch(Operator::SUB)
            } else if !same_shape(target@, actual@) {
                e == Error::ColumnCountMismatch(Operator::SUB)
            } else {
                e == Error::DimensionMismatch && !chained_backwards(
                    weights_of(layers@),
                    target@.len(),
                )
            },
        },
{
    let ghost weights = weights_of(layers@);
    let n = layers.len();
    let last_error = match error_rate_from_last_layer(target, actual) {
        Ok(m) => m,
        Err(e) => {
            return Err(e);
        },
    };
    proof {
        assert forall|i: int| 0 <= i < last_error@.len() implies (#[trigger] last_error@[i]).len()
            == width(last_error@) by {
            assert(target@[i].len() == last_error@[i].len());
        }
    }
    let mut back: Vec<Matrix<T>> = Vec::new();
    back.push(last_error);
    let mut k: usize = if n == 0 {
        0
    } else {
        n - 1
    };
    while k > 0
        invariant
            n == layers@.len(),
            weights == weights_of(layers@),
            n == 0 ==> k == 0,
            k < n || n == 0,
            forall|i: int| 0 <= i < layers@.len() ==> (#[trigger] layers@[i]).0.is_rectangular(),
            back@.len() == if n == 0 {
                1
            } else {
                n - k
            },
            is_elementwise(Operator::SUB, target@, actual@, back@[0]@),
            forall|m: int| 0 <= m < back@.len() ==> (#[trigger] back@[m]).is_rectangular(),
            n > 0 ==> back@[back@.len() - 1]@.len() == rows_behind(weights, target@.len(), k as int),
            forall|j: int|
                k < j < n ==> width(transposed(#[trigger] weights[j])) == rows_behind(
                    weights,
                    target@.len(),
                    j,
                ),
            forall|j: int|
                k < j < n ==> is_matrix_product(
                    transposed(#[trigger] weights[j]),
                    back@[n - 1 - j]@,
                    back@[n - j]@,
                ),
        decreases k,
    {
        assert(weights[k as int] == layers@[k as int]@);
        let propagated = match propagate_error(&layers[k], &back[back.len() - 1]) {
            Ok(m) => m,
            Err(e) => {
                return Err(e);
            },
        };
        back.push(propagated);
        k -= 1;
    }
    let errors = ErrorRatePerLayer(reversed(back));
    Ok(errors)
}

/// The error of the layer before `layer`, from the error of `layer`: the
/// matrix product of the transposed weights and the error.
fn propagate_error<T: Scalar>(layer: &Layer<T>, error: &Matrix<T>) -> (r: Result<Matrix<T>, Error>)
    requires
        layer.0.is_rectangular(),
        error.is_rectangular(),
    ensures
        match r {
            Ok(m) => {
                &&& is_matrix_product(transposed(layer@), error@, m@)
                &&& m.is_rectangular()
                &&& m@.len() == width(layer@)
            },
            Err(e) => e == Error::DimensionMismatch && width(transposed(layer@)) != error@.len(),
        },
{
    let current_matrix = layer.0.transpose();
    match matrix_multiplication(&current_matrix, error) {
        Ok(m) => {
            Ok(m)
        },
        Err(e) => Err(e),
    }
}

/// The new weights of every layer, from the errors of the layers and the
/// activations of the forward pass.
///
/// Fails at the first layer whose weights cannot be updated, with the
/// reason that `update_failure` names for it.
pub fn new_weights_based_on_error_rate_and_gradient_descent<T: Scalar>(
    learning_rate: &T,
    feedforward: &Feedforward<T>,
    layers: &Vec<Layer<T>>,
    error_rate_per_layer: &ErrorRatePerLayer<T>,
) -> (r: Result<Vec<Layer<T>>, Error>)
    requires
        layers@.len() <= error_rate_per_layer.0@.len(),
        layers@.len() < feedforward.results@.len(),
        forall|k: int|
            0 <= k < layers@.len() ==> rectangular(#[trigger] error_rate_per_layer.errors()[k]),
        forall|k: int|
            0 <= k < layers@.len() ==> rectangular(#[trigger] feedforward.activations()[k]),
    ensures
        match r {
            Ok(new_layers) => {
                &&& forall|i: int|
                    0 <= i < layers@.len() ==> update_failure(
                        #[trigger] weights_of(layers@)[i],
                        error_rate_per_layer.errors()[i],
                        feedforward.activations()[i + 1],
                        feedforward.activations()[i],
                    ) is None
                &&& is_all_updated(
                    *learning_rate,
                    weights_of(layers@),
                    error_rate_per_layer.errors(),
                    feedforward.activations(),
                    weights_of(new_layers@),
                )
            },
            Err(e) => exists|i: int|
                {
                    &&& 0 <= i < layers@.len()
                    &&& update_failure(
                        #[trigger] weights_of(layers@)[i],
                        error_rate_per_layer.errors()[i],
                        feedforward.activations()[i + 1],
                        feedforward.activations()[i],
                    ) == Some(e)
                    &&& forall|j: int|
                        0 <= j < i ==> update_failure(
                            #[trigger] weights_of(layers@)[j],
                            error_rate_per_layer.errors()[j],
                            feedforward.activations()[j + 1],
                            feedforward.activations()[j],
                        ) is None
                },
        },
{
    let ghost weights = weights_of(layers@);
    let ghost errors = error_rate_per_layer.errors();
    let ghost results = feedforward.activations();
    let mut new_layers: Vec<Layer<T>> = Vec::new();
    let mut i: usize = 0;
    while i < layers.len()
        invariant
            i <= layers@.len(),
            weights == weights_of(layers@),
            errors == error_rate_per_layer.errors(),
            results == feedforward.activations(),
            layers@.len() <= error_rate_per_layer.0@.len(),
            layers@.len() < feedforward.results@.len(),
            forall|k: int| 0 <= k < layers@.len() ==> rectangular(#[trigger] errors[k]),
            forall|k: int| 0 <= k < layers@.len() ==> rectangular(#[trigger] results[k]),
            new_layers@.len() == i,
            forall|j: int|
                0 <= j < i ==> update_failure(
                    #[trigger] weights[j],
                    errors[j],
                    results[j + 1],
                    results[j],
                ) is None,
            forall|j: int|
                0 <= j < i ==> is_weight_update(
                    *learning_rate,
                    #[trigger] weights[j],
                    errors[j],
                    results[j + 1],
                    results[j],
                    new_layers@[j]@,
                ),
        decreases layers@.len() - i,
    {
        let error = &error_rate_per_layer.0[i];
        let output = &feedforward.results[i + 1];
        let input = &feedforward.results[i];
        let old = &layers[i].0;
        proof {
            assert(weights[i as int] == old@);
        }
        let new_matrix = match update_weights(learning_rate, old, error, output, input) {
            Ok(m) => m,
            Err(e) => {
                return Err(e);
            },
        };
        new_layers.push(Layer(new_matrix));
        i += 1;
    }
    Ok(new_layers)
}

/// The weights of one layer after one step of gradient descent.
fn update_weights<T: Scalar>(
    learning_rate: &T,
    old: &Matrix<T>,
    error: &Matrix<T>,
    output: &Matrix<T>,
    input: &Matrix<T>,
) -> (r: Result<Matrix<T>, Error>)
    requires
        error.is_rectangular(),
        input.is_rectangular(),
    ensures
        match r {
            Ok(new) => {
                &&& update_failure(old@, error@, output@, input@) is None
                &&& is_weight_update(*learning_rate, old@, error@, output@, input@, new@)
            },
            Err(e) => update_failure(old@, error@, output@, input@) == Some(e),
        },
{
    let slope = output.derivative_of_sigmoid();
    let credit = match error.hadamard(&slope) {
        Ok(m) => m,
        Err(e) => {
            proof {
                lemma_same_shape_through(error@, output@, slope@);
            }
            return Err(e);
        },
    };
    proof {
        lemma_same_shape_through(error@, slope@, output@);
        lemma_same_shape_keeps(error@, credit@);
    }
    let input_transposed = input.transpose();
    let gradient = match matrix_multiplication(&credit, &input_transposed) {
        Ok(m) => m,
        Err(e) => {
            return Err(e);
        },
    };
    let delta = gradient.scale(*learning_rate);
    proof {
        assert(has_shape(delta@, error@.len(), width(transposed(input@)))) by {
            assert forall|i: int| 0 <= i < delta@.len() implies (#[trigger] delta@[i]).len()
                == width(transposed(input@)) by {
                assert(gradient@[i].len() == delta@[i].len());
            }
        }
    }
    match old.add(&delta) {
        Ok(new) => {
            Ok(new)
        },
        Err(e) => {
            Err(e)
        },
    }
}

/// Grids of the shape of a third have the same shape.
pub proof fn lemma_same_shape_through<T>(a: Seq<Seq<T>>, b: Seq<Seq<T>>, c: Seq<Seq<T>>)
    requires
        same_shape(b, c),
    ensures
        a.len() == b.len() <==> a.len() == c.len(),
        same_shape(a, b) <==> same_shape(a, c),
{
}

/// A grid of the shape of another has its width, and is rectangular where
/// the other is.
pub proof fn lemma_same_shape_keeps<T>(a: Seq<Seq<T>>, b: Seq<Seq<T>>)
    requires
        same_shape(a, b),
    ensures
        width(a) == width(b),
        rectangular(a) <==> rectangular(b),
{
    if rectangular(a) {
        assert forall|i: int| 0 <= i < b.len() implies (#[trigger] b[i]).len() == width(b) by {
            assert(a[i].len() == b[i].len());
        }
    }
}

/// The error at the output: the target minus the actual output, entry by
/// entry.
pub fn error_rate_from_last_layer<T: Scalar>(target: &Matrix<T>, actual: &Matrix<T>) -> (r: Result<
    Matrix<T>,
    Error,
>)
    ensures
        match r {
            Ok(m) => is_elementwise(Operator::SUB, target@, actual@, m@),
            Err(e) => {
                &&& !same_shape(target@, actual@)
                &&& e == if target@.len() != actual@.len() {
                    Error::RowCountMismatch(Operator::SUB)
                } else {
                    Error::ColumnCountMismatch(Operator::SUB)
                }
            },
        },
{
    target.sub(actual)
}

} // verus!
