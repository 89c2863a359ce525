use neuralnet::backpropagation::{
    calculate_error_rate_per_layer, error_rate_from_last_layer,
    new_weights_based_on_error_rate_and_gradient_descent, Backpropagation, ErrorRatePerLayer,
};
use neuralnet::error::{Error, ErrorKind, Operator};
use neuralnet::feedforward::Feedforward;
use neuralnet::layer::Layer;
use neuralnet::matrix::Matrix;
use neuralnet::neuralnetwork::NeuralNetwork;
use neuralnet::scalar::Scalar;

#[derive(Debug, Clone, Copy, PartialEq)]
struct Real(f64);

impl Scalar for Real {
    fn zero() -> Self {
        Real(0.0)
    }

    fn one() -> Self {
        Real(1.0)
    }

    fn plus(self, rhs: Self) -> Self {
        Real(self.0 + rhs.0)
    }

    fn minus(self, rhs: Self) -> Self {
        Real(self.0 - rhs.0)
    }

    fn times(self, rhs: Self) -> Self {
        Real(self.0 * rhs.0)
    }

    fn divided_by(self, rhs: Self) -> Self {
        Real(self.0 / rhs.0)
    }

    fn negated(self) -> Self {
        Real(-self.0)
    }

    fn exp(self) -> Self {
        Real(std::f64::consts::E.powf(self.0))
    }

    fn sample() -> Self {
        Real(rand::Rng::gen::<f64>(&mut rand::thread_rng()))
    }
}

fn reals(values: Vec<f64>) -> Vec<Real> {
    values.into_iter().map(Real).collect()
}

fn matrix(rows: Vec<Vec<f64>>) -> Matrix<Real> {
    Matrix(rows.into_iter().map(reals).collect())
}

fn three_layers() -> Vec<Layer<Real>> {
    vec![
        // input to hidden weights
        Layer(matrix(vec![
            vec![1.1, 2.1, 3.1],
            vec![1.2, 2.2, 3.2],
            vec![1.3, 2.3, 3.3],
            vec![1.4, 2.4, 3.4],
        ])),
        // hidden to hidden weights
        Layer(matrix(vec![
            vec![1.1, 2.1, 3.1, 4.1],
            vec![1.2, 2.2, 3.2, 4.2],
            vec![1.3, 2.3, 3.3, 4.3],
            vec![1.4, 2.4, 3.4, 4.4],
        ])),
        // hidden to output weights
        Layer(matrix(vec![
            vec![1.1, 2.1, 3.1, 4.1],
            vec![1.2, 2.2, 3.2, 4.2],
            vec![1.3, 2.3, 3.3, 4.3],
        ])),
    ]
}

fn updated_three_layers() -> Vec<Layer<Real>> {
    vec![
        // input to hidden weights
        Layer(matrix(vec![
            vec![1.6230841920849253, 3.1461683841698505, 4.669252576254776],
            vec![2.0923728075635353, 3.9847456151270704, 5.8771184226906055],
            vec![2.5321418269215714, 4.764283653843143, 6.9964254807647155],
            vec![2.9430477971611615, 5.4860955943223235, 8.029143391483483],
        ])),
        // hidden to hidden weights
        Layer(matrix(vec![
            vec![
                1.1004390858706103,
                2.100443958529723,
                3.1004486473545705,
                4.1004531545908,
            ],
            vec![
                1.2005683299771444,
                2.2005746368943733,
                3.2005807058660634,
                4.200586539798865,
            ],
            vec![
                1.3005902929217656,
                2.3005968435679534,
                3.300603147073267,
                4.300609206456684,
            ],
            vec![
                1.400555047820614,
                2.4005612073420246,
                3.4005671344788033,
                4.40057283206967,
            ],
        ])),
        // hidden to output weights
        Layer(matrix(vec![
            vec![
                1.1000091372707792,
                2.100009137733936,
                3.1000091380669783,
                4.100009138306454,
            ],
            vec![
                1.2000122503657362,
                2.200012250986692,
                3.2000122514332032,
                4.200012251754269,
            ],
            vec![
                1.3000205302530374,
                2.3000205312936894,
                3.300020532041993,
                4.3000205325800644,
            ],
        ])),
    ]
}

#[test]
fn calculate_error_rate_example_from_the_book() {
    let layers = vec![
        // input to hidden weights
        Layer(matrix(vec![vec![0.42, 0.28], vec![0.16, 1.1375]])),
        Layer(matrix(vec![
            vec![0.4333333333333333, 0.7333333333333334],
            vec![0.1, 0.4],
        ])),
    ];
    let actual = calculate_error_rate_per_layer(
        &matrix(vec![vec![3.0], vec![3.0]]),
        &matrix(vec![vec![1.5], vec![2.5]]),
        &layers,
    )
    .unwrap()
    .0;
    let expected = vec![
        matrix(vec![vec![0.7], vec![1.3]]),
        matrix(vec![vec![1.5], vec![0.5]]),
    ];
    assert_eq!(actual, expected);
}

#[test]
fn calculate_error_rate_example_with_one_hidden_layers_and_with_different_sizes() {
    let layers = vec![
        // input to hidden weights
        Layer(matrix(vec![
            vec![-0.62091563, -1.25154723, -0.14334102],
            vec![0.07702094, -0.04681276, 0.62532329],
            vec![0.64765397, -0.13824144, 0.04829786],
            vec![0.58148507, -0.63079071, -0.38690071],
        ])),
        // hidden to output weights
        Layer(matrix(vec![
            vec![-0.12369625, 0.16732224, -0.02174357, -0.06230827],
            vec![0.32413962, 0.2632736, -0.01882388, 0.12343084],
            vec![0.23642887, -0.44747458, 0.14426986, -0.11192151],
        ])),
    ];
    let actual = calculate_error_rate_per_layer(
        &matrix(vec![vec![1.0], vec![0.0], vec![0.0]]),
        &matrix(vec![vec![0.50024943], vec![0.58025132], vec![0.46906931]]),
        &layers,
    )
    .unwrap()
    .0;
    let expected = vec![
        matrix(vec![
            vec![-0.3608012407286406],
            vec![0.14075112337566462],
            vec![-0.0676163439678099],
            vec![-0.05026055581706461],
        ]),
        matrix(vec![vec![0.49975057], vec![-0.58025132], vec![-0.46906931]]),
    ];
    assert_eq!(actual, expected);
}

#[test]
fn calculate_error_rate_example_with_multiple_hidden_layers_and_with_different_sizes() {
    let layers = &three_layers();
    let actual = calculate_error_rate_per_layer(
        &matrix(vec![vec![2.0], vec![3.0], vec![6.0]]),
        &matrix(vec![
            vec![0.9999695369356685],
            vec![0.9999795788316486],
            vec![0.9999863105453931],
        ]),
        &layers,
    )
    .unwrap()
    .0;
    let expected = vec![
        matrix(vec![
            vec![114.0008956448172],
            vec![202.00158633119605],
            vec![290.0022770175749],
            vec![378.0029677039537],
        ]),
        matrix(vec![
            vec![10.000075811063777],
            vec![18.000140384751067],
            vec![26.000204958438356],
            vec![34.00026953212564],
        ]),
        matrix(vec![
            vec![1.0000304630643315],
            vec![2.0000204211683514],
            vec![5.000013689454607],
        ]),
    ];
    assert_eq!(actual, expected);
}

#[test]
fn new_weights_based_on_error_rate_and_gradient_descent_with_multiple_hidden_layers_and_with_different_sizes(
) {
    let layers = three_layers();
    let error_rate_per_layer = calculate_error_rate_per_layer(
        &matrix(vec![vec![2.0], vec![3.0], vec![6.0]]),
        &matrix(vec![
            vec![0.9999695369356685],
            vec![0.9999795788316486],
            vec![0.9999863105453931],
        ]),
        &layers,
    )
    .unwrap();
    let feedforward = Feedforward::run(
        &NeuralNetwork {
            layers: three_layers(),
            amount_of_input_neurons: 3,
            amount_of_hidden_neurons: 4,
            amount_of_output_neurons: 3,
            amount_of_hidden_layers: 2,
        },
        &reals(vec![0.1, 0.2, 0.3]),
    )
    .unwrap();
    let expected = updated_three_layers();
    let actual = new_weights_based_on_error_rate_and_gradient_descent(
        &Real(0.3),
        &feedforward,
        &layers,
        &error_rate_per_layer,
    )
    .unwrap();
    assert_eq!(actual, expected);
}

#[test]
fn a_backward_pass_puts_both_halves_together() {
    let layers = three_layers();
    let feedforward = Feedforward::run(
        &NeuralNetwork {
            layers: three_layers(),
            amount_of_input_neurons: 3,
            amount_of_hidden_neurons: 4,
            amount_of_output_neurons: 3,
            amount_of_hidden_layers: 2,
        },
        &reals(vec![0.1, 0.2, 0.3]),
    )
    .unwrap();
    let backpropagation =
        Backpropagation::run(&Real(0.3), &layers, &reals(vec![2.0, 3.0, 6.0]), &feedforward)
            .unwrap();
    assert_eq!(backpropagation.new_layers, updated_three_layers());
}

#[test]
fn a_backward_pass_refuses_what_does_not_belong_together() {
    let layers = three_layers();
    let nn = NeuralNetwork {
        layers: three_layers(),
        amount_of_input_neurons: 3,
        amount_of_hidden_neurons: 4,
        amount_of_output_neurons: 3,
        amount_of_hidden_layers: 2,
    };
    let feedforward = Feedforward::run(&nn, &reals(vec![0.1, 0.2, 0.3])).unwrap();
    let short_target = Backpropagation::run(&Real(0.3), &layers, &reals(vec![2.0, 3.0]), &feedforward);
    let error = short_target.unwrap_err();
    assert_eq!(error, Error::Misaligned);
    assert_eq!(error.kind(), ErrorKind::InternalInvariantViolation);
    assert_eq!(
        error.message(),
        "Backpropagation: The layers, the target and the feedforward result should fit each other"
    );
    let fewer_layers = vec![three_layers().remove(0), three_layers().remove(2)];
    assert_eq!(
        Backpropagation::run(&Real(0.3), &fewer_layers, &reals(vec![2.0, 3.0, 6.0]), &feedforward)
            .unwrap_err(),
        Error::Misaligned
    );
    let no_layers: Vec<Layer<Real>> = vec![];
    let only_input = Feedforward { results: vec![matrix(vec![vec![0.1]])] };
    assert_eq!(
        Backpropagation::run(&Real(0.3), &no_layers, &reals(vec![0.1]), &only_input).unwrap_err(),
        Error::Misaligned
    );
    let wide = Feedforward {
        results: vec![matrix(vec![vec![0.1, 0.2]]), matrix(vec![vec![0.5, 0.5]])],
    };
    let one_layer = vec![Layer(matrix(vec![vec![1.0]]))];
    assert_eq!(
        Backpropagation::run(&Real(0.3), &one_layer, &reals(vec![0.1]), &wide).unwrap_err(),
        Error::Misaligned
    );
}

#[test]
fn the_error_at_the_output_is_target_minus_actual() {
    assert_eq!(
        error_rate_from_last_layer(
            &matrix(vec![vec![3.0], vec![3.0]]),
            &matrix(vec![vec![1.5], vec![2.5]])
        )
        .unwrap(),
        matrix(vec![vec![1.5], vec![0.5]])
    );
    assert_eq!(
        error_rate_from_last_layer(&matrix(vec![vec![3.0], vec![3.0]]), &matrix(vec![vec![1.5]]))
            .unwrap_err(),
        Error::RowCountMismatch(Operator::SUB)
    );
}

#[test]
fn errors_are_not_handed_back_through_layers_that_do_not_fit() {
    let layers = vec![
        Layer(matrix(vec![vec![0.42, 0.28], vec![0.16, 1.1375]])),
        Layer(matrix(vec![vec![0.4, 0.7], vec![0.1, 0.4], vec![0.1, 0.4]])),
    ];
    assert_eq!(
        calculate_error_rate_per_layer(
            &matrix(vec![vec![3.0], vec![3.0]]),
            &matrix(vec![vec![1.5], vec![2.5]]),
            &layers,
        )
        .unwrap_err(),
        Error::DimensionMismatch
    );
    assert_eq!(
        calculate_error_rate_per_layer(
            &matrix(vec![vec![3.0], vec![3.0]]),
            &matrix(vec![vec![1.5, 2.5], vec![1.0, 1.0]]),
            &layers,
        )
        .unwrap_err(),
        Error::ColumnCountMismatch(Operator::SUB)
    );
}

#[test]
fn weights_are_not_updated_by_errors_of_another_shape() {
    let layers = vec![Layer(matrix(vec![vec![1.0, 2.0]]))];
    let feedforward = Feedforward {
        results: vec![matrix(vec![vec![0.1], vec![0.2]]), matrix(vec![vec![0.5]])],
    };
    let too_long = ErrorRatePerLayer(vec![matrix(vec![vec![0.3], vec![0.3]])]);
    assert_eq!(
        new_weights_based_on_error_rate_and_gradient_descent(
            &Real(0.3),
            &feedforward,
            &layers,
            &too_long
        )
        .unwrap_err(),
        Error::RowCountMismatch(Operator::MUL)
    );
    let too_wide = ErrorRatePerLayer(vec![matrix(vec![vec![0.3, 0.3]])]);
    assert_eq!(
        new_weights_based_on_error_rate_and_gradient_descent(
            &Real(0.3),
            &feedforward,
            &layers,
            &too_wide
        )
        .unwrap_err(),
        Error::ColumnCountMismatch(Operator::MUL)
    );
    let other_layers = vec![Layer(matrix(vec![vec![1.0, 2.0, 3.0]]))];
    let fitting = ErrorRatePerLayer(vec![matrix(vec![vec![0.3]])]);
    assert_eq!(
        new_weights_based_on_error_rate_and_gradient_descent(
            &Real(0.3),
            &feedforward,
            &other_layers,
            &fitting
        )
        .unwrap_err(),
        Error::ColumnCountMismatch(Operator::ADD)
    );
    let more_rows = vec![Layer(matrix(vec![vec![1.0, 2.0], vec![1.0, 2.0]]))];
    assert_eq!(
        new_weights_based_on_error_rate_and_gradient_descent(
            &Real(0.3),
            &feedforward,
            &more_rows,
            &fitting
        )
        .unwrap_err(),
        Error::RowCountMismatch(Operator::ADD)
    );
    let updated = new_weights_based_on_error_rate_and_gradient_descent(
        &Real(0.5),
        &feedforward,
        &layers,
        &fitting,
    )
    .unwrap();
    // 0.3 * (0.5 * (1 - 0.5)) = 0.075; times the input, times the rate
    assert_eq!(
        updated,
        vec![Layer(matrix(vec![vec![
            1.0 + (0.0 + 0.3 * 0.25 * 0.1) * 0.5,
            2.0 + (0.0 + 0.3 * 0.25 * 0.2) * 0.5
        ]]))]
    );
}
