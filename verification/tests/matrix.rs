use neuralnet::matrix::{matrix_rows_and_cols, Matrix};
use neuralnet::scalar::{sigmoid, sigmoid_slope, Scalar};

#[derive(Debug, Clone, Copy, PartialEq)]
struct Real(f64);

impl Scalar for Real {
    fn zero() -> Self {
        Real(0.0)
    }

    fn one() -> Self {
        Real(1.0)
    }

    fn plus(self, rhs: Self) -> Self {
        Real(self.0 + rhs.0)
    }

    fn minus(self, rhs: Self) -> Self {
        Real(self.0 - rhs.0)
    }

    fn times(self, rhs: Self) -> Self {
        Real(self.0 * rhs.0)
    }

    fn divided_by(self, rhs: Self) -> Self {
        Real(self.0 / rhs.0)
    }

    fn negated(self) -> Self {
        Real(-self.0)
    }

    fn exp(self) -> Self {
        Real(std::f64::consts::E.powf(self.0))
    }

    fn sample() -> Self {
        Real(rand::Rng::gen::<f64>(&mut rand::thread_rng()))
    }
}

fn reals(values: Vec<f64>) -> Vec<Real> {
    values.into_iter().map(Real).collect()
}

fn matrix(rows: Vec<Vec<f64>>) -> Matrix<Real> {
    Matrix(rows.into_iter().map(reals).collect())
}

#[test]
fn create_matrix() {
    let matrix: Matrix<Real> = Matrix::new_with_random_values(3, 3);
    assert_eq!(matrix.0.len(), 3);
    assert_eq!(matrix.0[0].len(), 3);
}

#[test]
fn random_values_fill_every_row_and_stay_inside_the_unit_interval_on_either_side() {
    let matrix: Matrix<Real> = Matrix::new_with_random_values(5, 7);
    assert_eq!(matrix.0.len(), 5);
    for row in matrix.0.iter() {
        assert_eq!(row.len(), 7);
        for value in row.iter() {
            assert!(value.0 > -1.0 && value.0 < 1.0);
        }
    }
    assert!(matrix.check_rectangular());
}

#[test]
fn random_values_without_rows_or_columns() {
    let no_rows: Matrix<Real> = Matrix::new_with_random_values(0, 4);
    assert_eq!(no_rows.0.len(), 0);
    assert_eq!(matrix_rows_and_cols(&no_rows), (0, 0));
    let no_cols: Matrix<Real> = Matrix::new_with_random_values(4, 0);
    assert_eq!(matrix_rows_and_cols(&no_cols), (4, 0));
}

#[test]
fn testing_transpose() {
    let matrix_one = matrix(vec![vec![1.0, 2.0], vec![3.0, 4.0], vec![5.0, 6.0]]);
    assert_eq!(
        matrix_one.transpose(),
        matrix(vec![vec![1.0, 3.0, 5.0], vec![2.0, 4.0, 6.0]])
    );
}

#[test]
fn transposing_twice_gives_the_matrix_back() {
    let matrix_one = matrix(vec![vec![1.0, 2.0], vec![3.0, 4.0], vec![5.0, 6.0]]);
    assert_eq!(matrix_one.transpose().transpose(), matrix_one);
    let empty = matrix(vec![]);
    assert_eq!(empty.transpose().transpose(), empty);
    let single = matrix(vec![vec![7.5]]);
    assert_eq!(single.transpose().transpose(), single);
}

#[test]
fn transposing_rows_without_columns_loses_the_rows() {
    let hollow = matrix(vec![vec![], vec![]]);
    assert_eq!(hollow.transpose(), matrix(vec![]));
    assert_eq!(hollow.transpose().transpose(), matrix(vec![]));
}

#[test]
fn testing_sigmoid() {
    assert_eq!(sigmoid(Real(3.0)), Real(0.9525741268224331));
}

#[test]
fn sigmoid_of_zero_is_a_half() {
    assert_eq!(sigmoid(Real(0.0)), Real(0.5));
}

#[test]
fn sigmoid_stays_between_zero_and_one_and_rises() {
    let points = [-30.0, -5.0, -1.0, -0.25, 0.0, 0.25, 1.0, 5.0, 30.0];
    let mut before = 0.0;
    for x in points.iter() {
        let y = sigmoid(Real(*x)).0;
        assert!(0.0 < y && y < 1.0);
        assert!(before < y);
        before = y;
    }
}

#[test]
fn slope_of_sigmoid_is_taken_from_the_activation() {
    let a = sigmoid(Real(3.0));
    assert_eq!(sigmoid_slope(a), Real(a.0 * (1.0 - a.0)));
    assert_eq!(sigmoid_slope(Real(0.5)), Real(0.25));
    let activations = matrix(vec![vec![0.5, 0.25], vec![1.0, 0.0]]);
    assert_eq!(
        activations.derivative_of_sigmoid(),
        matrix(vec![vec![0.25, 0.1875], vec![0.0, 0.0]])
    );
}

#[test]
fn sigmoid_of_every_entry() {
    let m = matrix(vec![vec![0.0, 3.0], vec![3.0, 0.0]]);
    assert_eq!(
        m.apply_sigmoid(),
        matrix(vec![vec![0.5, 0.9525741268224331], vec![0.9525741268224331, 0.5]])
    );
}

#[test]
fn one_minus_every_entry() {
    let m = matrix(vec![vec![0.25, 1.0], vec![0.0, -2.0]]);
    assert_eq!(m.one_minus_all_values(), matrix(vec![vec![0.75, 0.0], vec![1.0, 3.0]]));
}

#[test]
fn every_entry_times_a_factor() {
    let m = matrix(vec![vec![1.0, -2.0, 0.5]]);
    assert_eq!(m.scale(Real(4.0)), matrix(vec![vec![4.0, -8.0, 2.0]]));
}

#[test]
fn testing_matrix_rows_and_cols() {
    let (rows, cols) =
        matrix_rows_and_cols(&matrix(vec![vec![1.0, 3.0, 5.0], vec![2.0, 4.0, 6.0]]));
    assert_eq!(rows, 2);
    assert_eq!(cols, 3);
}

#[test]
fn a_matrix_without_rows_has_no_columns() {
    assert_eq!(matrix_rows_and_cols(&matrix(vec![])), (0, 0));
}

#[test]
fn testing_same_size_1() {
    assert_eq!(
        true,
        matrix(vec![vec![1.0, 2.0], vec![3.0, 4.0], vec![5.0, 6.0]]).same_size(&matrix(vec![
            vec![7.0, 8.0],
            vec![9.0, 10.0],
            vec![11.0, 12.0]
        ]))
    );
}

#[test]
fn testing_same_size_2() {
    assert_eq!(
        false,
        matrix(vec![vec![1.0, 2.0], vec![4.0], vec![5.0, 6.0]]).same_size(&matrix(vec![
            vec![7.0, 8.0],
            vec![9.0, 10.0],
            vec![11.0, 12.0]
        ]))
    );

    assert_eq!(
        false,
        matrix(vec![vec![1.0, 2.0], vec![3.0, 4.0], vec![5.0, 6.0]]).same_size(&matrix(vec![
            vec![7.0, 8.0],
            vec![9.0],
            vec![11.0, 12.0]
        ]))
    );

    assert_eq!(
        false,
        matrix(vec![vec![1.0, 2.0], vec![5.0, 6.0]]).same_size(&matrix(vec![
            vec![7.0, 8.0],
            vec![9.0, 10.0],
            vec![11.0, 12.0]
        ]))
    );

    assert_eq!(
        false,
        matrix(vec![vec![1.0, 2.0], vec![3.0, 4.0], vec![5.0, 6.0]])
            .same_size(&matrix(vec![vec![7.0, 8.0], vec![9.0, 10.0]]))
    );

    assert_eq!(
        false,
        matrix(vec![vec![1.0, 2.0], vec![3.0, 4.0], vec![5.0, 6.0, 7.0]]).same_size(&matrix(
            vec![vec![7.0, 8.0], vec![9.0, 10.0], vec![11.0, 12.0]]
        ))
    );

    assert_eq!(
        false,
        matrix(vec![vec![1.0, 2.0], vec![3.0, 4.0], vec![5.0, 6.0]]).same_size(&matrix(
            vec![vec![7.0, 8.0], vec![9.0, 10.0], vec![11.0, 12.0, 13.0]]
        ))
    );
}

#[test]
fn rows_of_different_lengths_are_not_rectangular() {
    assert!(matrix(vec![vec![1.0, 2.0], vec![3.0, 4.0]]).check_rectangular());
    assert!(matrix(vec![]).check_rectangular());
    assert!(!matrix(vec![vec![1.0, 2.0], vec![3.0]]).check_rectangular());
    assert!(!matrix(vec![vec![1.0], vec![3.0, 4.0]]).check_rectangular());
}

#[test]
fn a_vector_becomes_a_column() {
    assert_eq!(
        Matrix::from_vec(&reals(vec![0.9, 0.1, 0.8])),
        matrix(vec![vec![0.9], vec![0.1], vec![0.8]])
    );
    assert_eq!(Matrix::from_vec(&reals(vec![])), matrix(vec![]));
}

#[test]
fn a_matrix_is_flattened_row_by_row() {
    assert_eq!(
        matrix(vec![vec![1.0, 2.0], vec![], vec![3.0]]).flatten(),
        reals(vec![1.0, 2.0, 3.0])
    );
    assert_eq!(matrix(vec![vec![4.0], vec![5.0]]).flatten(), reals(vec![4.0, 5.0]));
}
