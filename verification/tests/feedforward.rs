use neuralnet::error::{Error, ErrorKind};
use neuralnet::feedforward::{
    calculate_results_per_layer, transform_input_data_to_matrix, Feedforward,
};
use neuralnet::layer::Layer;
use neuralnet::matrix::Matrix;
use neuralnet::neuralnetwork::NeuralNetwork;
use neuralnet::scalar::Scalar;

#[derive(Debug, Clone, Copy, PartialEq)]
struct Real(f64);

impl Scalar for Real {
    fn zero() -> Self {
        Real(0.0)
    }

    fn one() -> Self {
        Real(1.0)
    }

    fn plus(self, rhs: Self) -> Self {
        Real(self.0 + rhs.0)
    }

    fn minus(self, rhs: Self) -> Self {
        Real(self.0 - rhs.0)
    }

    fn times(self, rhs: Self) -> Self {
        Real(self.0 * rhs.0)
    }

    fn divided_by(self, rhs: Self) -> Self {
        Real(self.0 / rhs.0)
    }

    fn negated(self) -> Self {
        Real(-self.0)
    }

    fn exp(self) -> Self {
        Real(std::f64::consts::E.powf(self.0))
    }

    fn sample() -> Self {
        Real(rand::Rng::gen::<f64>(&mut rand::thread_rng()))
    }
}

fn reals(values: Vec<f64>) -> Vec<Real> {
    values.into_iter().map(Real).collect()
}

fn matrix(rows: Vec<Vec<f64>>) -> Matrix<Real> {
    Matrix(rows.into_iter().map(reals).collect())
}

fn network(layers: Vec<Vec<Vec<f64>>>, input: u32, hidden: u32, output: u32) -> NeuralNetwork<Real> {
    NeuralNetwork {
        layers: layers.into_iter().map(|rows| Layer(matrix(rows))).collect(),
        amount_of_input_neurons: input,
        amount_of_hidden_neurons: hidden,
        amount_of_output_neurons: output,
        amount_of_hidden_layers: 1,
    }
}

#[test]
fn feedforward_example_from_the_book() {
    let input = reals(vec![0.9, 0.1, 0.8]);
    let actual_result = calculate_results_per_layer(
        &vec![
            // input to hidden weights
            Layer(matrix(vec![
                vec![0.9, 0.3, 0.4],
                vec![0.2, 0.8, 0.2],
                vec![0.1, 0.5, 0.6],
            ])),
            // hidden to output weights
            Layer(matrix(vec![
                vec![0.3, 0.7, 0.5],
                vec![0.6, 0.5, 0.2],
                vec![0.8, 0.1, 0.9],
            ])),
        ],
        transform_input_data_to_matrix(&input),
    )
    .unwrap();
    let expected_result = vec![
        matrix(vec![vec![0.9], vec![0.1], vec![0.8]]),
        matrix(vec![
            vec![0.7613327148429104],
            vec![0.6034832498647263],
            vec![0.6502185485738271],
        ]),
        matrix(vec![
            vec![0.7263033450139793],
            vec![0.7085980724248232],
            vec![0.778097059561142],
        ]),
    ];
    assert_eq!(actual_result.results, expected_result);
}

#[test]
fn feedforward_my_own_example_with_multiple_hidden_layers_and_with_different_sizes() {
    let input = reals(vec![0.1, 0.2, 0.3]);
    let actual_result = calculate_results_per_layer(
        &vec![
            // input to hidden weights
            Layer(matrix(vec![
                vec![1.1, 2.1, 3.1],
                vec![1.2, 2.2, 3.2],
                vec![1.3, 2.3, 3.3],
                vec![1.4, 2.4, 3.4],
            ])),
            // hidden to hidden weights
            Layer(matrix(vec![
                vec![1.1, 2.1, 3.1, 4.1],
                vec![1.2, 2.2, 3.2, 4.2],
                vec![1.3, 2.3, 3.3, 4.3],
                vec![1.4, 2.4, 3.4, 4.4],
            ])),
            // hidden to output weights
            Layer(matrix(vec![
                vec![1.1, 2.1, 3.1, 4.1],
                vec![1.2, 2.2, 3.2, 4.2],
                vec![1.3, 2.3, 3.3, 4.3],
            ])),
        ],
        transform_input_data_to_matrix(&input),
    )
    .unwrap();
    let expected_result = vec![
        matrix(vec![vec![0.1], vec![0.2], vec![0.3]]),
        matrix(vec![
            vec![0.8115326747861805],
            vec![0.8205384805926733],
            vec![0.8292045179776254],
            vec![0.8375349374193038],
        ]),
        matrix(vec![
            vec![0.9998196163164922],
            vec![0.9998702958894329],
            vec![0.9999067381461998],
            vec![0.9999329421074687],
        ]),
        matrix(vec![
            vec![0.9999695369356685],
            vec![0.9999795788316486],
            vec![0.9999863105453931],
        ]),
    ];
    assert_eq!(actual_result.results, expected_result);
}

#[test]
fn test_input_ensure() {
    let result = Feedforward::run(&NeuralNetwork::<Real>::new(3, 3, 3, 1), &reals(vec![0.0]));
    assert_eq!(result.is_err(), true);
    let error = result.unwrap_err();
    assert_eq!(
        error.message(),
        "Feedforward: The input data should have the same size as the amount of input neurons"
            .to_owned()
    );
    assert_eq!(error, Error::InputSizeMismatch);
    assert_eq!(error.kind(), ErrorKind::SizeMismatch);
}

#[test]
fn a_forward_pass_keeps_the_input_and_one_activation_for_each_layer() {
    let nn = NeuralNetwork::<Real>::new_with_random_values(3, 4, 2, 2);
    let feedforward = Feedforward::run(&nn, &reals(vec![0.1, 0.2, 0.3])).unwrap();
    assert_eq!(feedforward.results.len(), 5);
    assert_eq!(feedforward.results[0], matrix(vec![vec![0.1], vec![0.2], vec![0.3]]));
    assert_eq!(feedforward.results[1].0.len(), 4);
    assert_eq!(feedforward.results[2].0.len(), 4);
    assert_eq!(feedforward.results[3].0.len(), 4);
    assert_eq!(feedforward.results[4].0.len(), 2);
    for activation in feedforward.results.iter() {
        for row in activation.0.iter() {
            assert_eq!(row.len(), 1);
        }
    }
}

#[test]
fn a_forward_pass_is_the_same_each_time() {
    let nn = network(
        vec![
            vec![vec![0.9, 0.3, 0.4], vec![0.2, 0.8, 0.2], vec![0.1, 0.5, 0.6]],
            vec![vec![0.3, 0.7, 0.5], vec![0.6, 0.5, 0.2], vec![0.8, 0.1, 0.9]],
        ],
        3,
        3,
        3,
    );
    let input = reals(vec![0.9, 0.1, 0.8]);
    let first = Feedforward::run(&nn, &input).unwrap();
    let second = Feedforward::run(&nn, &input).unwrap();
    assert_eq!(first, second);
    assert_eq!(
        first.results[2],
        matrix(vec![
            vec![0.7263033450139793],
            vec![0.7085980724248232],
            vec![0.778097059561142],
        ])
    );
}

#[test]
fn a_layer_with_rows_of_different_lengths_is_found() {
    let nn = network(
        vec![vec![vec![0.9, 0.3], vec![0.2]], vec![vec![0.3, 0.7]]],
        2,
        2,
        1,
    );
    let error = Feedforward::run(&nn, &reals(vec![0.5, 0.5])).unwrap_err();
    assert_eq!(error, Error::RaggedLayer);
    assert_eq!(error.kind(), ErrorKind::InternalInvariantViolation);
    assert_eq!(
        error.message(),
        "Feedforward: The rows of a layer should all be of the same size"
    );
    assert_eq!(
        Feedforward::run(&nn, &reals(vec![0.5])).unwrap_err(),
        Error::InputSizeMismatch
    );
}

#[test]
fn layers_that_do_not_follow_each_other_are_found() {
    let nn = network(
        vec![vec![vec![0.9, 0.3], vec![0.2, 0.1]], vec![vec![0.3, 0.7, 0.5]]],
        2,
        2,
        1,
    );
    let error = Feedforward::run(&nn, &reals(vec![0.5, 0.5])).unwrap_err();
    assert_eq!(error, Error::DimensionMismatch);
    assert_eq!(error.kind(), ErrorKind::DimensionMismatch);
    let unfit_for_input = network(vec![vec![vec![0.9, 0.3, 0.1]]], 2, 1, 1);
    assert_eq!(
        Feedforward::run(&unfit_for_input, &reals(vec![0.5, 0.5])).unwrap_err(),
        Error::DimensionMismatch
    );
    assert_eq!(
        calculate_results_per_layer(
            &vec![Layer(matrix(vec![vec![0.9, 0.3, 0.1]]))],
            transform_input_data_to_matrix(&reals(vec![0.5, 0.5])),
        )
        .unwrap_err(),
        Error::DimensionMismatch
    );
}

#[test]
fn a_network_without_layers_has_no_hidden_result() {
    let nn = network(vec![], 2, 2, 1);
    let error = Feedforward::run(&nn, &reals(vec![0.5, 0.5])).unwrap_err();
    assert_eq!(error, Error::MissingHiddenResult);
    assert_eq!(error.kind(), ErrorKind::InternalInvariantViolation);
    assert_eq!(error.message(), "Feedforward: No data in hidden layer");
    let results = calculate_results_per_layer(
        &Vec::<Layer<Real>>::new(),
        transform_input_data_to_matrix(&reals(vec![0.5, 0.5])),
    )
    .unwrap();
    assert_eq!(results.results, vec![matrix(vec![vec![0.5], vec![0.5]])]);
}

#[test]
fn declared_neuron_counts_are_held_against_the_layers() {
    let layers = vec![
        vec![vec![0.9, 0.3], vec![0.2, 0.1], vec![0.5, 0.5]],
        vec![vec![0.3, 0.7, 0.5]],
    ];
    let wrong_hidden = network(layers.clone(), 2, 2, 1);
    let error = Feedforward::run(&wrong_hidden, &reals(vec![0.5, 0.5])).unwrap_err();
    assert_eq!(error, Error::HiddenSizeMismatch);
    assert_eq!(error.kind(), ErrorKind::InternalInvariantViolation);
    assert_eq!(
        error.message(),
        "Feedforward: Result of hidden layer should be of same size as amount of hidden neurons"
    );
    let wrong_output = network(layers.clone(), 2, 3, 2);
    let error = Feedforward::run(&wrong_output, &reals(vec![0.5, 0.5])).unwrap_err();
    assert_eq!(error, Error::OutputSizeMismatch);
    assert_eq!(error.kind(), ErrorKind::InternalInvariantViolation);
    assert_eq!(
        error.message(),
        "Feedforward: Result of output layer should be of same size as amount of output neurons"
    );
    assert!(Feedforward::run(&network(layers, 2, 3, 1), &reals(vec![0.5, 0.5])).is_ok());
}
