//! Training: one step of gradient descent for each entry, in the order of
//! the entries, round after round.
use vstd::prelude::*;
use crate::backpropagation::{
    aligned, is_backward_pass, lemma_same_shape_keeps, Backpropagation,
};
use crate::error::{Error, ErrorKind};
use crate::feedforward::{
    chained, is_forward_pass, lemma_columns, lemma_forward_pass_shapes, rows_before, Feedforward,
};
use crate::matrix::{column_vector, rectangular, same_shape, width};
use crate::neuralnetwork::NeuralNetwork;
use crate::scalar::Scalar;

verus! {

/// The values of the input neurons, and the values that the output neurons
/// should have for them.
#[derive(Debug)]
pub struct TrainingEntry<T> {
    pub input: Vec<T>,
    pub expected_output: Vec<T>,
}

/// The entries of a data set, in the order in which a network is trained
/// on them.
#[derive(Debug)]
pub struct TrainingData<T>(pub Vec<TrainingEntry<T>>);

impl<T> TrainingData<T> {
    /// An entry has not `input_len` values of input, or not `output_len`
    /// values of expected output.
    pub open spec fn has_entry_of_other_length(&self, input_len: nat, output_len: nat) -> bool {
        exists|i: int|
            0 <= i < self.0@.len() && ((#[trigger] self.0@[i]).input@.len() != input_len
                || self.0@[i].expected_output@.len() != output_len)
    }
}

/// `after` are the weights that one step of training makes of `before`: the
/// new weights of a backward pass towards `expected`, from the activations
/// of a forward pass of `input`.
pub open spec fn is_training_step<T: Scalar>(
    learning_rate: T,
    before: Seq<Seq<Seq<T>>>,
    input: Seq<T>,
    expected: Seq<T>,
    after: Seq<Seq<Seq<T>>>,
) -> bool {
    exists|results: Seq<Seq<Seq<T>>>|
        {
            &&& #[trigger] is_forward_pass(before, column_vector(input), results)
            &&& is_backward_pass(learning_rate, before, column_vector(expected), results, after)
        }
}

/// `trail` holds the weights before and after each step of one round: one
/// step for each entry, in the order of the entries, each from the weights
/// that the step before it left.
pub open spec fn is_round_trail<T: Scalar>(
    learning_rate: T,
    entries: Seq<TrainingEntry<T>>,
    trail: Seq<Seq<Seq<Seq<T>>>>,
) -> bool {
    &&& trail.len() == entries.len() + 1
    &&& forall|i: int|
        0 <= i < entries.len() ==> is_training_step(
            learning_rate,
            trail[i],
            (#[trigger] entries[i]).input@,
            entries[i].expected_output@,
            trail[i + 1],
        )
}

/// `after` are the weights that one round of training on the entries makes
/// of `before`.
pub open spec fn is_round<T: Scalar>(
    learning_rate: T,
    entries: Seq<TrainingEntry<T>>,
    before: Seq<Seq<Seq<T>>>,
    after: Seq<Seq<Seq<T>>>,
) -> bool {
    exists|trail: Seq<Seq<Seq<Seq<T>>>>|
        {
            &&& #[trigger] is_round_trail(learning_rate, entries, trail)
            &&& trail[0] == before
            &&& trail.last() == after
        }
}

/// `rounds` holds the weights before and after each of `count` rounds of
/// training on the entries, each round from the weights that the round
/// before it left.
pub open spec fn is_training_trail<T: Scalar>(
    learning_rate: T,
    entries: Seq<TrainingEntry<T>>,
    count: nat,
    rounds: Seq<Seq<Seq<Seq<T>>>>,
) -> bool {
    &&& rounds.len() == count + 1
    &&& forall|r: int| 0 <= r < count ==> #[trigger] is_round_at(learning_rate, entries, rounds, r)
}

/// Round `r` of training makes the weights at `r + 1` of those at `r`.
pub open spec fn is_round_at<T: Scalar>(
    learning_rate: T,
    entries: Seq<TrainingEntry<T>>,
    rounds: Seq<Seq<Seq<Seq<T>>>>,
    r: int,
) -> bool {
    is_round(learning_rate, entries, rounds[r], rounds[r + 1])
}

/// `after` are the weights that `count` rounds of training on the entries
/// make of `before`.
pub open spec fn is_training<T: Scalar>(
    learning_rate: T,
    entries: Seq<TrainingEntry<T>>,
    count: nat,
    before: Seq<Seq<Seq<T>>>,
    after: Seq<Seq<Seq<T>>>,
) -> bool {
    exists|rounds: Seq<Seq<Seq<Seq<T>>>>|
        {
            &&& #[trigger] is_training_trail(learning_rate, entries, count, rounds)
            &&& rounds[0] == before
            &&& rounds.last() == after
        }
}

impl<T: Scalar> NeuralNetwork<T> {
    /// The network has an input neuron, and every layer has a row.
    pub open spec fn has_neurons(&self) -> bool {
        &&& self.amount_of_input_neurons >= 1
        &&& forall|k: int| 0 <= k < self.weights().len() ==> (#[trigger] self.weights()[k]).len() >= 1
    }

    /// The network declares the neuron counts of `other`, and has as many
    /// layers, each of the shape of the layer of `other` at its place.
    pub open spec fn has_architecture_of(&self, other: &NeuralNetwork<T>) -> bool {
        &&& self.amount_of_input_neurons == other.amount_of_input_neurons
        &&& self.amount_of_hidden_neurons == other.amount_of_hidden_neurons
        &&& self.amount_of_output_neurons == other.amount_of_output_neurons
        &&& self.amount_of_hidden_layers == other.amount_of_hidden_layers
        &&& self.weights().len() == other.weights().len()
        &&& forall|k: int|
            0 <= k < self.weights().len() ==> same_shape(
                #[trigger] self.weights()[k],
                other.weights()[k],
            )
    }

    /// Why the network cannot be trained on an entry, if it cannot. The
    /// reasons are looked for in this order: the length of the input; the
    /// length of the expected output; what makes the forward pass fail; a
    /// layer without neurons.
    pub open spec fn training_failure(&self, entry: TrainingEntry<T>) -> Option<Error> {
        if entry.input@.len() != self.amount_of_input_neurons {
            Some(Error::TrainingInputSizeMismatch)
        } else if entry.expected_output@.len() != self.amount_of_output_neurons {
            Some(Error::TrainingOutputSizeMismatch)
        } else if Feedforward::failure(self, entry.input@.len()) is Some {
            Feedforward::failure(self, entry.input@.len())
        } else if !self.has_neurons() {
            Some(Error::Misaligned)
        } else {
            None
        }
    }

    /// The first of the entries that the network cannot be trained on is
    /// refused for the reason `e`.
    pub open spec fn fails_first_with(&self, entries: Seq<TrainingEntry<T>>, e: Error) -> bool {
        exists|i: int|
            {
                &&& 0 <= i < entries.len()
                &&& self.training_failure(#[trigger] entries[i]) == Some(e)
                &&& forall|j: int| 0 <= j < i ==> self.training_failure(#[trigger] entries[j]) is None
            }
    }

    /// Nothing but the length of an entry keeps the network from being
    /// trained on it.
    pub open spec fn is_sound(&self) -> bool {
        &&& Feedforward::failure(self, self.amount_of_input_neurons as nat) is None
        &&& self.has_neurons()
    }

    /// The network after `rounds` rounds of training on the entries: in each
    /// round one step of gradient descent for each entry, in the order of
    /// the entries, each step from the weights that the step before it left.
    ///
    /// Without a round nothing is looked at, and the network is returned as
    /// it is. Else training fails at the first entry that the network cannot
    /// be trained on, with the reason that `training_failure` names for it:
    /// with `TrainingInputSizeMismatch` or `TrainingOutputSizeMismatch`
    /// where the entry has not a value for each input neuron, or not one for
    /// each output neuron.
    pub fn train(self, training_data: &TrainingData<T>, rounds: u32, learning_rate: T) -> (r: Result<
        NeuralNetwork<T>,
        Error,
    >)
        ensures
            match r {
                Ok(trained) => {
                    &&& rounds > 0 ==> forall|i: int|
                        0 <= i < training_data.0@.len() ==> self.training_failure(
                            #[trigger] training_data.0@[i],
                        ) is None
                    &&& trained.has_architecture_of(&self)
                    &&& is_training(
                        learning_rate,
                        training_data.0@,
                        rounds as nat,
                        self.weights(),
                        trained.weights(),
                    )
                },
                Err(e) => rounds > 0 && self.fails_first_with(training_data.0@, e),
            },
            rounds > 0 && self.is_sound() && training_data.has_entry_of_other_length(
                self.amount_of_input_neurons as nat,
                self.amount_of_output_neurons as nat,
            ) ==> r is Err && r->Err_0.spec_kind() == ErrorKind::SizeMismatch,
    {
        let ghost origin = self;
        let ghost entries = training_data.0@;
        let mut nn = self;
        let ghost mut epochs: Seq<Seq<Seq<Seq<T>>>> = seq![nn.weights()];
        let mut round: u32 = 0;
        while round < rounds
            invariant
                round <= rounds,
                origin == self,
                entries == training_data.0@,
                nn.has_architecture_of(&origin),
                round > 0 ==> forall|i: int|
                    0 <= i < entries.len() ==> origin.training_failure(#[trigger] entries[i])
                        is None,
                is_training_trail(learning_rate, entries, round as nat, epochs),
                epochs[0] == origin.weights(),
                epochs.last() == nn.weights(),
            decreases rounds - round,
        {
            let ghost before = nn;
            proof {
                lemma_architecture_decides_all(&before, &origin, entries);
            }
            nn = match nn.train_round(&training_data.0, &learning_rate) {
                Ok(next) => next,
                Err(e) => {
                    proof {
                        lemma_sound_fits(&origin, entries);
                    }
                    return Err(e);
                },
            };
            proof {
                lemma_architecture_follows(&nn, &before, &origin);
                let longer = epochs.push(nn.weights());
                assert forall|r: int| 0 <= r < round + 1 implies #[trigger] is_round_at(
                    learning_rate,
                    entries,
                    longer,
                    r,
                ) by {
                    if r < round {
                        assert(is_round_at(learning_rate, entries, epochs, r));
                    }
                }
                epochs = longer;
            }
            round += 1;
        }
        proof {
            if rounds > 0 {
                lemma_sound_fits(&origin, entries);
            }
        }
        Ok(nn)
    }

    /// The network after one round of training on the entries.
    fn train_round(self, entries: &Vec<TrainingEntry<T>>, learning_rate: &T) -> (r: Result<
        NeuralNetwork<T>,
        Error,
    >)
        ensures
            match r {
                Ok(trained) => {
                    &&& forall|i: int|
                        0 <= i < entries@.len() ==> self.training_failure(#[trigger] entries@[i])
                            is None
                    &&& trained.has_architecture_of(&self)
                    &&& is_round(*learning_rate, entries@, self.weights(), trained.weights())
                },
                Err(e) => self.fails_first_with(entries@, e),
            },
    {
        let ghost origin = self;
        let mut nn = self;
        let ghost mut trail: Seq<Seq<Seq<Seq<T>>>> = seq![nn.weights()];
        let mut i: usize = 0;
        while i < entries.len()
            invariant
                i <= entries@.len(),
                origin == self,
                nn.has_architecture_of(&origin),
                forall|j: int|
                    0 <= j < i ==> origin.training_failure(#[trigger] entries@[j]) is None,
                trail.len() == i + 1,
                trail[0] == origin.weights(),
                trail.last() == nn.weights(),
                forall|j: int|
                    0 <= j < i ==> is_training_step(
                        *learning_rate,
                        trail[j],
                        (#[trigger] entries@[j]).input@,
                        entries@[j].expected_output@,
                        trail[j + 1],
                    ),
            decreases entries@.len() - i,
        {
            let ghost before = nn;
            proof {
                lemma_architecture_decides(&before, &origin, entries@[i as int]);
            }
            nn = match nn.train_on(&entries[i], learning_rate) {
                Ok(next) => next,
                Err(e) => {
                    return Err(e);
                },
            };
            proof {
                lemma_architecture_follows(&nn, &before, &origin);
                let longer = trail.push(nn.weights());
                trail = longer;
            }
            i += 1;
        }
        proof {
            assert(is_round_trail(*learning_rate, entries@, trail));
        }
        Ok(nn)
    }

    /// The network after one step of training, on one entry.
    fn train_on(self, entry: &TrainingEntry<T>, learning_rate: &T) -> (r: Result<
        NeuralNetwork<T>,
        Error,
    >)
        ensures
            match r {
                Ok(trained) => {
                    &&& self.training_failure(*entry) is None
                    &&& trained.amount_of_input_neurons == self.amount_of_input_neurons
                    &&& trained.amount_of_hidden_neurons == self.amount_of_hidden_neurons
                    &&& trained.amount_of_output_neurons == self.amount_of_output_neurons
                    &&& trained.amount_of_hidden_layers == self.amount_of_hidden_layers
                    &&& trained.weights().len() == self.weights().len()
                    &&& forall|k: int|
                        0 <= k < self.weights().len() ==> same_shape(
                            #[trigger] self.weights()[k],
                            trained.weights()[k],
                        )
                    &&& is_training_step(
                        *learning_rate,
                        self.weights(),
                        entry.input@,
                        entry.expected_output@,
                        trained.weights(),
                    )
                },
                Err(e) => self.training_failure(*entry) == Some(e),
            },
    {
        let mut nn = self;
        if entry.input.len() != nn.amount_of_input_neurons as usize {
            return Err(Error::TrainingInputSizeMismatch);
        }
        if entry.expected_output.len() != nn.amount_of_output_neurons as usize {
            return Err(Error::TrainingOutputSizeMismatch);
        }
        let feedforward = match Feedforward::run(&nn, &entry.input) {
            Ok(feedforward) => feedforward,
            Err(e) => {
                return Err(e);
            },
        };
        proof {
            lemma_neurons_align(
                &nn,
                entry.input@,
                entry.expected_output@.len(),
                feedforward.activations(),
            );
        }
        let backpropagation = match Backpropagation::run(
            learning_rate,
            &nn.layers,
            &entry.expected_output,
            &feedforward,
        ) {
            Ok(backpropagation) => backpropagation,
            Err(e) => {
                return Err(e);
            },
        };
        nn.layers = backpropagation.new_layers;
        proof {
            lemma_backward_pass_keeps_shapes(
                *learning_rate,
                self.weights(),
                column_vector(entry.expected_output@),
                feedforward.activations(),
                nn.weights(),
            );
        }
        Ok(nn)
    }
}

/// A network with the layers of a freshly made one, and at least one
/// neuron in each of its layers of neurons, is sound.
pub proof fn lemma_topology_is_sound<T: Scalar>(nn: &NeuralNetwork<T>)
    requires
        nn.has_topology(),
        nn.amount_of_input_neurons >= 1,
        nn.amount_of_hidden_neurons >= 1,
        nn.amount_of_output_neurons >= 1,
    ensures
        nn.is_sound(),
{
}

/// Networks of one architecture cannot be trained on the same entries, and
/// for the same reasons.
pub proof fn lemma_architecture_decides_all<T: Scalar>(
    a: &NeuralNetwork<T>,
    b: &NeuralNetwork<T>,
    entries: Seq<TrainingEntry<T>>,
)
    requires
        a.has_architecture_of(b),
    ensures
        forall|i: int|
            0 <= i < entries.len() ==> a.training_failure(#[trigger] entries[i])
                == b.training_failure(entries[i]),
{
    assert forall|i: int| 0 <= i < entries.len() implies a.training_failure(#[trigger] entries[i])
        == b.training_failure(entries[i]) by {
        lemma_architecture_decides(a, b, entries[i]);
    }
}

/// A sound network can be trained on an entry exactly where the entry has
/// a value for each input neuron and one for each output neuron, and what
/// else keeps it from being trained is a length.
pub proof fn lemma_sound_fits<T: Scalar>(nn: &NeuralNetwork<T>, entries: Seq<TrainingEntry<T>>)
    ensures
        nn.is_sound() ==> forall|i: int|
            0 <= i < entries.len() ==> (nn.training_failure(#[trigger] entries[i]) matches Some(e)
                ==> e.spec_kind() == ErrorKind::SizeMismatch),
        forall|i: int|
            0 <= i < entries.len() && nn.training_failure(#[trigger] entries[i]) is None
                ==> entries[i].input@.len() == nn.amount_of_input_neurons
                && entries[i].expected_output@.len() == nn.amount_of_output_neurons,
{
}

/// Networks of one architecture cannot be trained on the same entries, and
/// for the same reasons.
pub proof fn lemma_architecture_decides<T: Scalar>(
    a: &NeuralNetwork<T>,
    b: &NeuralNetwork<T>,
    entry: TrainingEntry<T>,
)
    requires
        a.has_architecture_of(b),
    ensures
        a.training_failure(entry) == b.training_failure(entry),
        Feedforward::failure(a, entry.input@.len()) == Feedforward::failure(b, entry.input@.len()),
        a.has_neurons() == b.has_neurons(),
{
    let wa = a.weights();
    let wb = b.weights();
    let n = entry.input@.len();
    assert forall|k: int| 0 <= k < wa.len() implies width(#[trigger] wa[k]) == width(wb[k])
        && wa[k].len() == wb[k].len() && rectangular(wa[k]) == rectangular(wb[k]) by {
        lemma_same_shape_keeps(wa[k], wb[k]);
    }
    assert(a.has_rectangular_layers() == b.has_rectangular_layers()) by {
        if a.has_rectangular_layers() {
            assert forall|k: int| 0 <= k < wb.len() implies rectangular(#[trigger] wb[k]) by {
                assert(rectangular(wa[k]));
            }
        }
    }
    assert(chained(wa, n) == chained(wb, n)) by {
        if chained(wa, n) {
            assert forall|k: int| 0 <= k < wb.len() implies width(#[trigger] wb[k]) == rows_before(
                wb,
                n,
                k,
            ) by {
                assert(width(wa[k]) == rows_before(wa, n, k));
            }
        }
    }
    assert(a.has_neurons() == b.has_neurons()) by {
        if a.has_neurons() {
            assert forall|k: int| 0 <= k < wb.len() implies (#[trigger] wb[k]).len() >= 1 by {
                assert(wa[k].len() >= 1);
            }
        }
    }
}

/// A network of the architecture of a freshly made one has its layers.
pub proof fn lemma_architecture_keeps_topology<T: Scalar>(
    a: &NeuralNetwork<T>,
    b: &NeuralNetwork<T>,
)
    requires
        a.has_architecture_of(b),
        b.has_topology(),
    ensures
        a.has_topology(),
{
}

/// A network of the architecture of a second, which has that of a third,
/// has the architecture of the third.
pub proof fn lemma_architecture_follows<T: Scalar>(
    a: &NeuralNetwork<T>,
    b: &NeuralNetwork<T>,
    c: &NeuralNetwork<T>,
)
    requires
        a.amount_of_input_neurons == b.amount_of_input_neurons,
        a.amount_of_hidden_neurons == b.amount_of_hidden_neurons,
        a.amount_of_output_neurons == b.amount_of_output_neurons,
        a.amount_of_hidden_layers == b.amount_of_hidden_layers,
        a.weights().len() == b.weights().len(),
        forall|k: int|
            0 <= k < b.weights().len() ==> same_shape(#[trigger] b.weights()[k], a.weights()[k]),
        b.has_architecture_of(c),
    ensures
        a.has_architecture_of(c),
{
    assert forall|k: int| 0 <= k < a.weights().len() implies same_shape(
        #[trigger] a.weights()[k],
        c.weights()[k],
    ) by {
        let x = a.weights()[k];
        let y = b.weights()[k];
        let z = c.weights()[k];
        assert forall|i: int| 0 <= i < x.len() implies (#[trigger] x[i]).len() == z[i].len() by {
            assert(y[i].len() == z[i].len());
        }
    }
}

/// A backward pass leaves as many layers as it found, each of the shape
/// that it had.
pub proof fn lemma_backward_pass_keeps_shapes<T: Scalar>(
    learning_rate: T,
    weights: Seq<Seq<Seq<T>>>,
    target: Seq<Seq<T>>,
    results: Seq<Seq<Seq<T>>>,
    new: Seq<Seq<Seq<T>>>,
)
    requires
        is_backward_pass(learning_rate, weights, target, results, new),
    ensures
        new.len() == weights.len(),
        forall|k: int| 0 <= k < weights.len() ==> same_shape(#[trigger] weights[k], new[k]),
{
}

/// After a forward pass of an input through a network, a target of the
/// length of the output belongs to the layers and the activations exactly
/// where the network has an input neuron and a row in every layer.
pub proof fn lemma_neurons_align<T: Scalar>(
    nn: &NeuralNetwork<T>,
    input: Seq<T>,
    target_len: nat,
    results: Seq<Seq<Seq<T>>>,
)
    requires
        Feedforward::failure(nn, input.len()) is None,
        is_forward_pass(nn.weights(), column_vector(input), results),
        target_len == nn.amount_of_output_neurons,
    ensures
        aligned(nn.weights(), target_len, results) <==> nn.has_neurons(),
{
    let weights = nn.weights();
    lemma_forward_pass_shapes(weights, column_vector(input), results);
    if nn.has_neurons() {
        lemma_columns(weights, column_vector(input), results, weights.len() as int);
    }
}

} // verus!
