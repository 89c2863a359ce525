//! The network: its layers and its declared neuron counts.
use vstd::prelude::*;
use crate::error::Error;
use crate::errorrate::{ErrorRateData, ErrorRateEntry};
use crate::feedforward::{
    is_forward_pass, lemma_columns, lemma_forward_pass_shapes, Feedforward,
};
use crate::layer::{weights_of, Layer};
use crate::matrix::{
    column_vector, flattened, has_shape, lemma_flattened_len, rectangular, Matrix,
};
use crate::query::{QueryData, QueryResult, QueryResults};
use crate::random::is_initial_weight;
use crate::scalar::{
    is_difference, is_running_sum, is_sum, is_total, is_zero, lemma_running_sum_start,
    lemma_running_sum_step, Scalar,
};

verus! {

/// A network: the weights between each two neighbouring layers of neurons,
/// from the input layer to the output layer, and the numbers of neurons
/// that it declares.
#[derive(Debug)]
pub struct NeuralNetwork<T> {
    pub layers: Vec<Layer<T>>,
    pub amount_of_input_neurons: u32,
    pub amount_of_hidden_neurons: u32,
    pub amount_of_output_neurons: u32,
    pub amount_of_hidden_layers: u32,
}

impl<T> NeuralNetwork<T> {
    /// The grids of the layers, in their order.
    pub open spec fn weights(&self) -> Seq<Seq<Seq<T>>> {
        weights_of(self.layers@)
    }

    /// Every layer keeps the invariant of a matrix.
    pub open spec fn has_rectangular_layers(&self) -> bool {
        forall|k: int| 0 <= k < self.layers@.len() ==> rectangular(#[trigger] self.weights()[k])
    }

    /// The layers are those of a freshly made network: one from the input
    /// neurons to the hidden neurons, one from hidden to hidden neurons for
    /// each hidden layer, and one from the hidden neurons to the output
    /// neurons.
    pub open spec fn has_topology(&self) -> bool {
        let weights = self.weights();
        let last = self.amount_of_hidden_layers + 1;
        &&& weights.len() == self.amount_of_hidden_layers + 2
        &&& has_shape(
            weights[0],
            self.amount_of_hidden_neurons as nat,
            self.amount_of_input_neurons as nat,
        )
        &&& forall|k: int|
            1 <= k < last ==> has_shape(
                #[trigger] weights[k],
                self.amount_of_hidden_neurons as nat,
                self.amount_of_hidden_neurons as nat,
            )
        &&& has_shape(
            weights[last],
            self.amount_of_output_neurons as nat,
            self.amount_of_hidden_neurons as nat,
        )
    }

    /// Every weight is one that a fresh network may start from.
    pub open spec fn has_initial_weights(&self) -> bool
        where T: Scalar
    {
        let weights = self.weights();
        forall|k: int, i: int, j: int|
            0 <= k < weights.len() && 0 <= i < weights[k].len() && 0 <= j < weights[k][i].len()
                ==> is_initial_weight(#[trigger] weights[k][i][j])
    }

    /// Whether every layer keeps the invariant of a matrix.
    pub fn check_layers(&self) -> (r: bool)
        ensures
            r == self.has_rectangular_layers(),
    {
        let mut k: usize = 0;
        while k < self.layers.len()
            invariant
                k <= self.layers.len(),
                forall|i: int| 0 <= i < k ==> rectangular(#[trigger] self.weights()[i]),
            decreases self.layers.len() - k,
        {
            if !self.layers[k].0.check_rectangular() {
                assert(!rectangular(self.weights()[k as int]));
                return false;
            }
            k += 1;
        }
        true
    }
}

impl<T: Scalar> NeuralNetwork<T> {
    /// A network with an initial weight of its own in every place: see
    /// `new_with_random_values`.
    pub fn new(
        amount_of_input_neurons: u32,
        amount_of_hidden_neurons: u32,
        amount_of_output_neurons: u32,
        amount_of_hidden_layers: u32,
    ) -> (r: NeuralNetwork<T>)
        ensures
            r.amount_of_input_neurons == amount_of_input_neurons,
            r.amount_of_hidden_neurons == amount_of_hidden_neurons,
            r.amount_of_output_neurons == amount_of_output_neurons,
            r.amount_of_hidden_layers == amount_of_hidden_layers,
            r.has_topology(),
            r.has_initial_weights(),
    {
        NeuralNetwork::new_with_random_values(
            amount_of_input_neurons,
            amount_of_hidden_neurons,
            amount_of_output_neurons,
            amount_of_hidden_layers,
        )
    }

    /// A network of the given numbers of neurons, with `amount_of_hidden_layers`
    /// layers between hidden neurons, and an initial weight of its own in
    /// every place.
    pub fn new_with_random_values(
        amount_of_input_neurons: u32,
        amount_of_hidden_neurons: u32,
        amount_of_output_neurons: u32,
        amount_of_hidden_layers: u32,
    ) -> (r: NeuralNetwork<T>)
        ensures
            r.amount_of_input_neurons == amount_of_input_neurons,
            r.amount_of_hidden_neurons == amount_of_hidden_neurons,
            r.amount_of_output_neurons == amount_of_output_neurons,
            r.amount_of_hidden_layers == amount_of_hidden_layers,
            r.has_topology(),
            r.has_initial_weights(),
    {
        let mut layers: Vec<Layer<T>> = Vec::new();
        layers.push(create_input_layer(amount_of_hidden_neurons, amount_of_input_neurons));
        let mut hidden = create_hidden_layers(amount_of_hidden_layers, amount_of_hidden_neurons);
        layers.append(&mut hidden);
        layers.push(create_output_layer(amount_of_output_neurons, amount_of_hidden_neurons));
        let r = NeuralNetwork {
            layers,
            amount_of_input_neurons,
            amount_of_hidden_neurons,
            amount_of_output_neurons,
            amount_of_hidden_layers,
        };
        r
    }
}

/// `output` is the answer of layers of the given weights to `input`: the
/// last activation of a forward pass of the input, its rows one behind the
/// other.
pub open spec fn is_answer<T: Scalar>(
    weights: Seq<Seq<Seq<T>>>,
    input: Seq<T>,
    output: Seq<T>,
) -> bool {
    exists|results: Seq<Seq<Seq<T>>>|
        {
            &&& #[trigger] is_forward_pass(weights, column_vector(input), results)
            &&& output == flattened(results.last())
        }
}

/// The answer of layers of at least one row each to an input of at least
/// one value has a value for each row of the last layer.
pub proof fn lemma_answer_len<T: Scalar>(weights: Seq<Seq<Seq<T>>>, input: Seq<T>, output: Seq<T>)
    requires
        is_answer(weights, input, output),
        input.len() >= 1,
        weights.len() >= 1,
        forall|k: int| 0 <= k < weights.len() ==> (#[trigger] weights[k]).len() >= 1,
    ensures
        output.len() == weights.last().len(),
{
    let results = choose|results: Seq<Seq<Seq<T>>>|
        {
            &&& #[trigger] is_forward_pass(weights, column_vector(input), results)
            &&& output == flattened(results.last())
        };
    lemma_columns(weights, column_vector(input), results, weights.len() as int);
    lemma_forward_pass_shapes(weights, column_vector(input), results);
    lemma_flattened_len(results.last(), 1);
}

impl<T: Scalar> NeuralNetwork<T> {
    /// The answer of the network to one input.
    ///
    /// Fails exactly where the forward pass of the input does, and as it
    /// does.
    pub fn answer(&self, input: &Vec<T>) -> (r: Result<Vec<T>, Error>)
        ensures
            match r {
                Ok(output) => {
                    &&& Feedforward::failure(self, input@.len()) is None
                    &&& is_answer(self.weights(), input@, output@)
                },
                Err(e) => Feedforward::failure(self, input@.len()) == Some(e),
            },
    {
        let feedforward = match Feedforward::run(self, input) {
            Ok(feedforward) => feedforward,
            Err(e) => {
                return Err(e);
            },
        };
        let last = &feedforward.results[feedforward.results.len() - 1];
        Ok(last.flatten())
    }

    /// The answers of the network to the entries, in their order.
    ///
    /// Fails at the first entry whose forward pass fails, and as it does:
    /// with `InputSizeMismatch` where the entry has not a value for each
    /// input neuron.
    pub fn query(&self, input_data: &QueryData<T>) -> (r: Result<QueryResults<T>, Error>)
        ensures
            match r {
                Ok(answers) => {
                    &&& answers.0@.len() == input_data.0@.len()
                    &&& forall|i: int|
                        0 <= i < input_data.0@.len() ==> {
                            &&& Feedforward::failure(self, (#[trigger] input_data.0@[i]).input@.len())
                                is None
                            &&& is_answer(self.weights(), input_data.0@[i].input@, answers.0@[i].0@)
                        }
                },
                Err(e) => exists|i: int|
                    {
                        &&& 0 <= i < input_data.0@.len()
                        &&& Feedforward::failure(self, (#[trigger] input_data.0@[i]).input@.len())
                            == Some(e)
                        &&& forall|j: int|
                            0 <= j < i ==> Feedforward::failure(
                                self,
                                (#[trigger] input_data.0@[j]).input@.len(),
                            ) is None
                    },
            },
            input_data.has_input_of_other_length(self.amount_of_input_neurons as nat) ==> r is Err,
            input_data.has_input_of_other_length(self.amount_of_input_neurons as nat)
                && Feedforward::failure(self, self.amount_of_input_neurons as nat) is None ==> r
                == Err::<QueryResults<T>, Error>(Error::InputSizeMismatch),
    {
        let entries = input_data.0;
        let mut queryresults: Vec<QueryResult<T>> = Vec::new();
        let mut i: usize = 0;
        while i < entries.len()
            invariant
                i <= entries@.len(),
                entries@ == input_data.0@,
                queryresults@.len() == i,
                forall|j: int|
                    0 <= j < i ==> {
                        &&& Feedforward::failure(self, (#[trigger] entries@[j]).input@.len()) is None
                        &&& is_answer(self.weights(), entries@[j].input@, queryresults@[j].0@)
                    },
            decreases entries@.len() - i,
        {
            let output = match self.answer(&entries[i].input) {
                Ok(output) => output,
                Err(e) => {
                    return Err(e);
                },
            };
            queryresults.push(QueryResult(output));
            i += 1;
        }
        Ok(QueryResults(queryresults))
    }
}

/// `r` is the signed error of `actual` against `expected`: the differences
/// `expected - actual` of the values at equal positions, as far as both
/// reach, added from zero in their order.
pub open spec fn is_signed_error<T: Scalar>(expected: Seq<T>, actual: Seq<T>, r: T) -> bool {
    exists|differences: Seq<T>|
        {
            &&& differences.len() == if expected.len() <= actual.len() {
                expected.len()
            } else {
                actual.len()
            }
            &&& forall|j: int|
                0 <= j < differences.len() ==> is_difference(
                    expected[j],
                    actual[j],
                    #[trigger] differences[j],
                )
            &&& #[trigger] is_total(differences, r)
        }
}

/// `r` is the signed error of the answer of layers of the given weights to
/// `input` against `expected`.
pub open spec fn is_entry_error<T: Scalar>(
    weights: Seq<Seq<Seq<T>>>,
    input: Seq<T>,
    expected: Seq<T>,
    r: T,
) -> bool {
    exists|output: Seq<T>|
        #[trigger] is_answer(weights, input, output) && is_signed_error(expected, output, r)
}

/// `r` is the error rate of layers of the given weights on the entries: the
/// signed errors of the entries, added from zero in their order.
pub open spec fn is_error_rate<T: Scalar>(
    weights: Seq<Seq<Seq<T>>>,
    entries: Seq<ErrorRateEntry<T>>,
    r: T,
) -> bool {
    exists|terms: Seq<T>|
        {
            &&& terms.len() == entries.len()
            &&& forall|i: int|
                0 <= i < entries.len() ==> is_entry_error(
                    weights,
                    entries[i].input@,
                    entries[i].expected_output@,
                    #[trigger] terms[i],
                )
            &&& #[trigger] is_total(terms, r)
        }
}

/// The signed error of values against themselves is zero, where the
/// difference of a value and itself is zero and the sum of zero and zero is
/// zero.
pub proof fn lemma_signed_error_of_equal_values<T: Scalar>(values: Seq<T>, r: T)
    requires
        forall|x: T, d: T| #[trigger] is_difference(x, x, d) ==> is_zero(d),
        forall|a: T, b: T, s: T| is_zero(a) && is_zero(b) && #[trigger] is_sum(a, b, s) ==> is_zero(s),
        is_signed_error(values, values, r),
    ensures
        is_zero(r),
{
    let differences = choose|differences: Seq<T>|
        {
            &&& differences.len() == values.len()
            &&& forall|j: int|
                0 <= j < differences.len() ==> is_difference(
                    values[j],
                    values[j],
                    #[trigger] differences[j],
                )
            &&& #[trigger] is_total(differences, r)
        };
    lemma_total_of_zeros(differences, r);
}

/// The sum of zeros is zero, where the sum of zero and zero is zero.
pub proof fn lemma_total_of_zeros<T: Scalar>(terms: Seq<T>, r: T)
    requires
        forall|a: T, b: T, s: T| is_zero(a) && is_zero(b) && #[trigger] is_sum(a, b, s) ==> is_zero(s),
        forall|j: int| 0 <= j < terms.len() ==> is_zero(#[trigger] terms[j]),
        is_total(terms, r),
    ensures
        is_zero(r),
{
    let sums = choose|sums: Seq<T>| is_running_sum(terms, sums, r);
    lemma_running_sum_of_zeros(terms, sums, r, terms.len() as int);
}

/// In a running sum of zeros every sum up to the one at `k` is zero, where
/// the sum of zero and zero is zero.
proof fn lemma_running_sum_of_zeros<T: Scalar>(terms: Seq<T>, sums: Seq<T>, r: T, k: int)
    requires
        forall|a: T, b: T, s: T| is_zero(a) && is_zero(b) && #[trigger] is_sum(a, b, s) ==> is_zero(s),
        forall|j: int| 0 <= j < terms.len() ==> is_zero(#[trigger] terms[j]),
        is_running_sum(terms, sums, r),
        0 <= k <= terms.len(),
    ensures
        is_zero(sums[k]),
    decreases k,
{
    if k > 0 {
        lemma_running_sum_of_zeros(terms, sums, r, k - 1);
        assert(is_sum(sums[k - 1], terms[k - 1], sums[k - 1 + 1]));
    }
}

/// The error rate of a network on entries that expect its own answers is
/// zero, where the difference of a value and itself is zero and the sum of
/// zero and zero is zero.
pub proof fn lemma_error_rate_of_own_answers<T: Scalar>(
    weights: Seq<Seq<Seq<T>>>,
    entries: Seq<ErrorRateEntry<T>>,
    r: T,
)
    requires
        forall|x: T, d: T| #[trigger] is_difference(x, x, d) ==> is_zero(d),
        forall|a: T, b: T, s: T| is_zero(a) && is_zero(b) && #[trigger] is_sum(a, b, s) ==> is_zero(s),
        forall|i: int, output: Seq<T>|
            0 <= i < entries.len() && #[trigger] is_answer(weights, entries[i].input@, output)
                ==> output == entries[i].expected_output@,
        is_error_rate(weights, entries, r),
    ensures
        is_zero(r),
{
    let terms = choose|terms: Seq<T>|
        {
            &&& terms.len() == entries.len()
            &&& forall|i: int|
                0 <= i < entries.len() ==> is_entry_error(
                    weights,
                    entries[i].input@,
                    entries[i].expected_output@,
                    #[trigger] terms[i],
                )
            &&& #[trigger] is_total(terms, r)
        };
    assert forall|i: int| 0 <= i < terms.len() implies is_zero(#[trigger] terms[i]) by {
        let expected = entries[i].expected_output@;
        lemma_signed_error_of_equal_values(expected, terms[i]);
    }
    lemma_total_of_zeros(terms, r);
}

/// The signed error of `actual` against `expected`.
pub fn signed_error<T: Scalar>(expected: &Vec<T>, actual: &Vec<T>) -> (r: T)
    ensures
        is_signed_error(expected@, actual@, r),
{
    let reach = if expected.len() <= actual.len() {
        expected.len()
    } else {
        actual.len()
    };
    let mut acc = T::zero();
    let ghost mut differences: Seq<T> = Seq::empty();
    let ghost mut sums: Seq<T> = seq![acc];
    proof {
        lemma_running_sum_start(acc);
    }
    let mut j: usize = 0;
    while j < reach
        invariant
            j <= reach,
            reach <= expected@.len(),
            reach <= actual@.len(),
            differences.len() == j,
            forall|k: int|
                0 <= k < j ==> is_difference(expected@[k], actual@[k], #[trigger] differences[k]),
            is_running_sum(differences, sums, acc),
        decreases reach - j,
    {
        let difference = expected[j].minus(actual[j]);
        let next = acc.plus(difference);
        proof {
            lemma_running_sum_step(differences, sums, acc, difference, next);
            differences = differences.push(difference);
            sums = sums.push(next);
        }
        acc = next;
        j += 1;
    }
    proof {
        assert(is_total(differences, acc));
    }
    acc
}

impl<T: Scalar> NeuralNetwork<T> {
    /// The error rate of the network on the entries: for each entry the
    /// differences between the expected output and the network's answer,
    /// with their signs, all added up. Errors of opposite signs cancel: the
    /// rate is no measure of how far the answers are off.
    ///
    /// Fails at the first entry whose forward pass fails, and as it does.
    /// An expected output that is longer or shorter than the answer is
    /// compared as far as both reach.
    pub fn error_rate_of_network(&self, input_data: &ErrorRateData<T>) -> (r: Result<T, Error>)
        ensures
            match r {
                Ok(rate) => {
                    &&& forall|i: int|
                        0 <= i < input_data.0@.len() ==> Feedforward::failure(
                            self,
                            (#[trigger] input_data.0@[i]).input@.len(),
                        ) is None
                    &&& is_error_rate(self.weights(), input_data.0@, rate)
                },
                Err(e) => exists|i: int|
                    {
                        &&& 0 <= i < input_data.0@.len()
                        &&& Feedforward::failure(self, (#[trigger] input_data.0@[i]).input@.len())
                            == Some(e)
                        &&& forall|j: int|
                            0 <= j < i ==> Feedforward::failure(
                                self,
                                (#[trigger] input_data.0@[j]).input@.len(),
                            ) is None
                    },
            },
    {
        let entries = input_data.0;
        let mut error_rate = T::zero();
        let ghost mut terms: Seq<T> = Seq::empty();
        let ghost mut sums: Seq<T> = seq![error_rate];
        proof {
            lemma_running_sum_start(error_rate);
        }
        let mut i: usize = 0;
        while i < entries.len()
            invariant
                i <= entries@.len(),
                entries@ == input_data.0@,
                terms.len() == i,
                forall|j: int|
                    0 <= j < i ==> Feedforward::failure(self, (#[trigger] entries@[j]).input@.len())
                        is None,
                forall|j: int|
                    0 <= j < i ==> is_entry_error(
                        self.weights(),
                        entries@[j].input@,
                        entries@[j].expected_output@,
                        #[trigger] terms[j],
                    ),
                is_running_sum(terms, sums, error_rate),
            decreases entries@.len() - i,
        {
            let entry = &entries[i];
            let actual_result = match self.answer(&entry.input) {
                Ok(output) => output,
                Err(e) => {
                    return Err(e);
                },
            };
            let term = signed_error(&entry.expected_output, &actual_result);
            let next = error_rate.plus(term);
            proof {
                lemma_running_sum_step(terms, sums, error_rate, term, next);
                terms = terms.push(term);
                sums = sums.push(next);
            }
            error_rate = next;
            i += 1;
        }
        proof {
            assert(is_total(terms, error_rate));
        }
        Ok(error_rate)
    }
}

/// The layer from the input neurons to the hidden neurons.
fn create_input_layer<T: Scalar>(amount_of_hidden_neurons: u32, amount_of_input_neurons: u32) -> (r:
    Layer<T>)
    ensures
        has_shape(r@, amount_of_hidden_neurons as nat, amount_of_input_neurons as nat),
        forall|i: int, j: int|
            0 <= i < r@.len() && 0 <= j < r@[i].len() ==> is_initial_weight(#[trigger] r@[i][j]),
{
    Layer(Matrix::new_with_random_values(amount_of_hidden_neurons, amount_of_input_neurons))
}

/// The layers from hidden neurons to hidden neurons.
fn create_hidden_layers<T: Scalar>(amount_of_hidden_layers: u32, amount_of_hidden_neurons: u32) -> (r:
    Vec<Layer<T>>)
    ensures
        r@.len() == amount_of_hidden_layers,
        forall|k: int|
            0 <= k < r@.len() ==> has_shape(
                (#[trigger] r@[k])@,
                amount_of_hidden_neurons as nat,
                amount_of_hidden_neurons as nat,
            ),
        forall|k: int, i: int, j: int|
            0 <= k < r@.len() && 0 <= i < r@[k]@.len() && 0 <= j < r@[k]@[i].len()
                ==> is_initial_weight(#[trigger] r@[k]@[i][j]),
{
    let mut layers: Vec<Layer<T>> = Vec::new();
    let mut n: u32 = 0;
    while n < amount_of_hidden_layers
        invariant
            n <= amount_of_hidden_layers,
            layers.len() == n,
            forall|k: int|
                0 <= k < n ==> has_shape(
                    (#[trigger] layers@[k])@,
                    amount_of_hidden_neurons as nat,
                    amount_of_hidden_neurons as nat,
                ),
            forall|k: int, i: int, j: int|
                0 <= k < layers@.len() && 0 <= i < layers@[k]@.len() && 0 <= j
                    < layers@[k]@[i].len() ==> is_initial_weight(#[trigger] layers@[k]@[i][j]),
        decreases amount_of_hidden_layers - n,
    {
        layers.push(Layer(Matrix::new_with_random_values(
            amount_of_hidden_neurons,
            amount_of_hidden_neurons,
        )));
        n += 1;
    }
    layers
}

/// The layer from the hidden neurons to the output neurons.
fn create_output_layer<T: Scalar>(amount_of_output_neurons: u32, amount_of_hidden_neurons: u32) -> (r:
    Layer<T>)
    ensures
        has_shape(r@, amount_of_output_neurons as nat, amount_of_hidden_neurons as nat),
        forall|i: int, j: int|
            0 <= i < r@.len() && 0 <= j < r@[i].len() ==> is_initial_weight(#[trigger] r@[i][j]),
{
    Layer(Matrix::new_with_random_values(amount_of_output_neurons, amount_of_hidden_neurons))
}

} // verus!
