//! Arithmetic on matrices: entry by entry, and the matrix product.
use vstd::prelude::*;
use crate::error::{Error, Operator};
use crate::matrix::{column, has_shape, matrix_rows_and_cols, same_shape, width, Matrix};
use crate::scalar::{
    is_difference, is_dot_product, is_one, is_product, is_running_sum, is_sigmoid,
    is_sigmoid_slope, is_sum, is_total, lemma_running_sum_start, lemma_running_sum_step,
    sigmoid, sigmoid_slope, Scalar,
};

verus! {

/// `r` is a value that `operation` may give on `a` and `b`.
pub open spec fn combines<T: Scalar>(operation: Operator, a: T, b: T, r: T) -> bool {
    match operation {
        Operator::ADD => is_sum(a, b, r),
        Operator::SUB => is_difference(a, b, r),
        Operator::MUL => is_product(a, b, r),
    }
}

/// `r` has the shape of `a` and of `b`, and each of its entries is what
/// `operation` gives on the entries of `a` and `b` at its position.
pub open spec fn is_elementwise<T: Scalar>(
    operation: Operator,
    a: Seq<Seq<T>>,
    b: Seq<Seq<T>>,
    r: Seq<Seq<T>>,
) -> bool {
    &&& same_shape(a, b)
    &&& same_shape(a, r)
    &&& forall|i: int, j: int|
        0 <= i < r.len() && 0 <= j < r[i].len() ==> combines(
            operation,
            a[i][j],
            b[i][j],
            #[trigger] r[i][j],
        )
}

/// `r` is the matrix product of `a` and `b`: as many rows as `a`, as many
/// columns as `b`, and at row `i` and column `j` the dot product of row `i`
/// of `a` and column `j` of `b`.
pub open spec fn is_matrix_product<T: Scalar>(
    a: Seq<Seq<T>>,
    b: Seq<Seq<T>>,
    r: Seq<Seq<T>>,
) -> bool {
    &&& width(a) == b.len()
    &&& has_shape(r, a.len(), width(b))
    &&& forall|i: int, j: int|
        0 <= i < r.len() && 0 <= j < r[i].len() ==> is_dot_product(
            a[i],
            column(b, j),
            #[trigger] r[i][j],
        )
}

/// The operations on a single matrix, entry by entry.
pub enum EntryMap<T> {
    /// The logistic function of the entry.
    Sigmoid,
    /// The slope of the logistic function, from the entry as its activation.
    SigmoidSlope,
    /// One minus the entry.
    Complement,
    /// The entry times the factor.
    Scale(T),
}

/// `r` is a value that `map` may give on `a`.
pub open spec fn maps<T: Scalar>(map: EntryMap<T>, a: T, r: T) -> bool {
    match map {
        EntryMap::Sigmoid => is_sigmoid(a, r),
        EntryMap::SigmoidSlope => is_sigmoid_slope(a, r),
        EntryMap::Complement => exists|one: T| is_one(one) && #[trigger] is_difference(one, a, r),
        EntryMap::Scale(factor) => is_product(a, factor, r),
    }
}

/// `r` has the shape of `a`, and each of its entries is what `map` gives on
/// the entry of `a` at its position.
pub open spec fn is_entrywise<T: Scalar>(map: EntryMap<T>, a: Seq<Seq<T>>, r: Seq<Seq<T>>) -> bool {
    &&& same_shape(a, r)
    &&& forall|i: int, j: int|
        0 <= i < r.len() && 0 <= j < r[i].len() ==> maps(map, a[i][j], #[trigger] r[i][j])
}

/// Applies `operation` to the entries of the two matrices at each position.
///
/// Fails where the matrices differ in shape: with `RowCountMismatch` where
/// they differ in their number of rows, with `ColumnCountMismatch` where they
/// have equally many rows and differ in the length of one.
pub fn apply_operation_on_matrices_of_same_size<T: Scalar>(
    matrix_one: &Matrix<T>,
    matrix_two: &Matrix<T>,
    operation: Operator,
) -> (r: Result<Matrix<T>, Error>)
    ensures
        match r {
            Ok(m) => is_elementwise(operation, matrix_one@, matrix_two@, m@),
            Err(e) => {
                &&& !same_shape(matrix_one@, matrix_two@)
                &&& e == if matrix_one@.len() != matrix_two@.len() {
                    Error::RowCountMismatch(operation)
                } else {
                    Error::ColumnCountMismatch(operation)
                }
            },
        },
{
    if matrix_one.0.len() != matrix_two.0.len() {
        return Err(Error::RowCountMismatch(operation));
    }
    let mut rows: Vec<Vec<T>> = Vec::new();
    let mut i: usize = 0;
    while i < matrix_one.0.len()
        invariant
            i <= matrix_one.0.len(),
            matrix_one.0.len() == matrix_two.0.len(),
            rows.len() == i,
            forall|k: int|
                0 <= k < i ==> (#[trigger] rows@[k]).len() == matrix_one@[k].len()
                    && matrix_one@[k].len() == matrix_two@[k].len(),
            forall|k: int, j: int|
                0 <= k < i && 0 <= j < rows@[k].len() ==> combines(
                    operation,
                    matrix_one@[k][j],
                    matrix_two@[k][j],
                    #[trigger] rows@[k]@[j],
                ),
        decreases matrix_one.0.len() - i,
    {
        let row = &matrix_one.0[i];
        let other = &matrix_two.0[i];
        if row.len() != other.len() {
            assert(matrix_one@[i as int].len() != matrix_two@[i as int].len());
            return Err(Error::ColumnCountMismatch(operation));
        }
        let mut cols: Vec<T> = Vec::new();
        let mut j: usize = 0;
        while j < row.len()
            invariant
                j <= row.len(),
                row.len() == other.len(),
                cols.len() == j,
                forall|k: int|
                    0 <= k < j ==> combines(operation, row@[k], other@[k], #[trigger] cols@[k]),
            decreases row.len() - j,
        {
            let value = match operation {
                Operator::ADD => row[j].plus(other[j]),
                Operator::SUB => row[j].minus(other[j]),
                Operator::MUL => row[j].times(other[j]),
            };
            cols.push(value);
            j += 1;
        }
        rows.push(cols);
        i += 1;
    }
    let m = Matrix(rows);
    assert(is_elementwise(operation, matrix_one@, matrix_two@, m@)) by {
        assert forall|k: int| 0 <= k < m@.len() implies (#[trigger] matrix_one@[k]).len()
            == matrix_two@[k].len() && matrix_one@[k].len() == m@[k].len() by {
            assert(m@[k] == rows@[k]@);
        }
    }
    Ok(m)
}

/// The dot product of a row and column `j` of `matrix`.
fn row_times_column<T: Scalar>(row: &Vec<T>, matrix: &Matrix<T>, j: usize) -> (r: T)
    requires
        matrix.is_rectangular(),
        row@.len() == matrix@.len(),
        j < width(matrix@),
    ensures
        is_dot_product(row@, column(matrix@, j as int), r),
{
    let ghost col = column(matrix@, j as int);
    let mut acc = T::zero();
    let ghost mut terms: Seq<T> = Seq::empty();
    let ghost mut sums: Seq<T> = seq![acc];
    let mut k: usize = 0;
    proof {
        lemma_running_sum_start(acc);
    }
    while k < row.len()
        invariant
            k <= row.len(),
            matrix.is_rectangular(),
            row@.len() == matrix@.len(),
            j < width(matrix@),
            col == column(matrix@, j as int),
            terms.len() == k,
            forall|i: int| 0 <= i < k ==> is_product(row@[i], col[i], #[trigger] terms[i]),
            is_running_sum(terms, sums, acc),
        decreases row.len() - k,
    {
        assert(matrix@[k as int].len() == width(matrix@));
        let term = row[k].times(matrix.0[k][j]);
        let next = acc.plus(term);
        proof {
            lemma_running_sum_step(terms, sums, acc, term, next);
            terms = terms.push(term);
            sums = sums.push(next);
        }
        acc = next;
        k += 1;
    }
    proof {
        assert(is_total(terms, acc));
    }
    acc
}

/// The matrix product of `matrix_one` and `matrix_two`.
///
/// Fails with `DimensionMismatch` exactly where the first matrix has not as
/// many columns as the second has rows.
pub fn matrix_multiplication<T: Scalar>(matrix_one: &Matrix<T>, matrix_two: &Matrix<T>) -> (r:
    Result<Matrix<T>, Error>)
    requires
        matrix_one.is_rectangular(),
        matrix_two.is_rectangular(),
    ensures
        match r {
            Ok(m) => is_matrix_product(matrix_one@, matrix_two@, m@),
            Err(e) => e == Error::DimensionMismatch && width(matrix_one@) != matrix_two@.len(),
        },
{
    let (matrix_one_rows, matrix_one_cols) = matrix_rows_and_cols(matrix_one);
    let (matrix_two_rows, matrix_two_cols) = matrix_rows_and_cols(matrix_two);
    if matrix_one_cols != matrix_two_rows {
        return Err(Error::DimensionMismatch);
    }
    let mut rows: Vec<Vec<T>> = Vec::new();
    let mut i: usize = 0;
    while i < matrix_one_rows
        invariant
            i <= matrix_one_rows,
            matrix_one_rows == matrix_one@.len(),
            matrix_two_cols == width(matrix_two@),
            width(matrix_one@) == matrix_two@.len(),
            matrix_one.is_rectangular(),
            matrix_two.is_rectangular(),
            rows.len() == i,
            forall|k: int| 0 <= k < i ==> (#[trigger] rows@[k]).len() == matrix_two_cols,
            forall|k: int, j: int|
                0 <= k < i && 0 <= j < matrix_two_cols ==> is_dot_product(
                    matrix_one@[k],
                    column(matrix_two@, j),
                    #[trigger] rows@[k]@[j],
                ),
        decreases matrix_one_rows - i,
    {
        let row = &matrix_one.0[i];
        assert(row@ == matrix_one@[i as int]);
        let mut cols: Vec<T> = Vec::new();
        let mut j: usize = 0;
        while j < matrix_two_cols
            invariant
                j <= matrix_two_cols,
                matrix_two_cols == width(matrix_two@),
                row@.len() == matrix_two@.len(),
                matrix_two.is_rectangular(),
                cols.len() == j,
                forall|k: int|
                    0 <= k < j ==> is_dot_product(row@, column(matrix_two@, k), #[trigger] cols@[k]),
            decreases matrix_two_cols - j,
        {
            cols.push(row_times_column(row, matrix_two, j));
            j += 1;
        }
        rows.push(cols);
        i += 1;
    }
    let m = Matrix(rows);
    Ok(m)
}

/// Applies `map` to every entry of the matrix.
pub fn map_entries<T: Scalar>(matrix: &Matrix<T>, map: EntryMap<T>) -> (r: Matrix<T>)
    ensures
        is_entrywise(map, matrix@, r@),
{
    let mut rows: Vec<Vec<T>> = Vec::new();
    let mut i: usize = 0;
    while i < matrix.0.len()
        invariant
            i <= matrix.0.len(),
            rows.len() == i,
            forall|k: int| 0 <= k < i ==> (#[trigger] rows@[k]).len() == matrix@[k].len(),
            forall|k: int, j: int|
                0 <= k < i && 0 <= j < rows@[k].len() ==> maps(
                    map,
                    matrix@[k][j],
                    #[trigger] rows@[k]@[j],
                ),
        decreases matrix.0.len() - i,
    {
        let row = &matrix.0[i];
        let mut cols: Vec<T> = Vec::new();
        let mut j: usize = 0;
        while j < row.len()
            invariant
                j <= row.len(),
                cols.len() == j,
                forall|k: int| 0 <= k < j ==> maps(map, row@[k], #[trigger] cols@[k]),
            decreases row.len() - j,
        {
            let value = match map {
                EntryMap::Sigmoid => sigmoid(row[j]),
                EntryMap::SigmoidSlope => sigmoid_slope(row[j]),
                EntryMap::Complement => {
                    let one = T::one();
                    let c = one.minus(row[j]);
                    assert(is_one(one) && is_difference(one, row@[j as int], c));
                    c
                },
                EntryMap::Scale(factor) => row[j].times(factor),
            };
            cols.push(value);
            j += 1;
        }
        rows.push(cols);
        i += 1;
    }
    let m = Matrix(rows);
    m
}

impl<T: Scalar> Matrix<T> {
    /// The sum of the two matrices, entry by entry.
    pub fn add(&self, rhs: &Matrix<T>) -> (r: Result<Matrix<T>, Error>)
        ensures
            match r {
                Ok(m) => is_elementwise(Operator::ADD, self@, rhs@, m@),
                Err(e) => {
                    &&& !same_shape(self@, rhs@)
                    &&& e == if self@.len() != rhs@.len() {
                        Error::RowCountMismatch(Operator::ADD)
                    } else {
                        Error::ColumnCountMismatch(Operator::ADD)
                    }
                },
            },
    {
        apply_operation_on_matrices_of_same_size(self, rhs, Operator::ADD)
    }

    /// The difference of the two matrices, entry by entry.
    pub fn sub(&self, rhs: &Matrix<T>) -> (r: Result<Matrix<T>, Error>)
        ensures
            match r {
                Ok(m) => is_elementwise(Operator::SUB, self@, rhs@, m@),
                Err(e) => {
                    &&& !same_shape(self@, rhs@)
                    &&& e == if self@.len() != rhs@.len() {
                        Error::RowCountMismatch(Operator::SUB)
                    } else {
                        Error::ColumnCountMismatch(Operator::SUB)
                    }
                },
            },
    {
        apply_operation_on_matrices_of_same_size(self, rhs, Operator::SUB)
    }

    /// The Hadamard product of the two matrices: entry by entry.
    pub fn hadamard(&self, rhs: &Matrix<T>) -> (r: Result<Matrix<T>, Error>)
        ensures
            match r {
                Ok(m) => is_elementwise(Operator::MUL, self@, rhs@, m@),
                Err(e) => {
                    &&& !same_shape(self@, rhs@)
                    &&& e == if self@.len() != rhs@.len() {
                        Error::RowCountMismatch(Operator::MUL)
                    } else {
                        Error::ColumnCountMismatch(Operator::MUL)
                    }
                },
            },
    {
        apply_operation_on_matrices_of_same_size(self, rhs, Operator::MUL)
    }

    /// The product that the operator `*` stands for: the Hadamard product
    /// where the two matrices have the same dimensions, the matrix product
    /// elsewhere.
    pub fn mul(&self, rhs: &Matrix<T>) -> (r: Result<Matrix<T>, Error>)
        requires
            self.is_rectangular(),
            rhs.is_rectangular(),
        ensures
            self@.len() == rhs@.len() && width(self@) == width(rhs@) ==> r is Ok
                && is_elementwise(Operator::MUL, self@, rhs@, r->Ok_0@),
            !(self@.len() == rhs@.len() && width(self@) == width(rhs@)) ==> match r {
                Ok(m) => is_matrix_product(self@, rhs@, m@),
                Err(e) => e == Error::DimensionMismatch && width(self@) != rhs@.len(),
            },
    {
        let (rows, cols) = matrix_rows_and_cols(self);
        let (rhs_rows, rhs_cols) = matrix_rows_and_cols(rhs);
        if rows == rhs_rows && cols == rhs_cols {
            apply_operation_on_matrices_of_same_size(self, rhs, Operator::MUL)
        } else {
            matrix_multiplication(self, rhs)
        }
    }

    /// Every entry times `factor`.
    pub fn scale(&self, factor: T) -> (r: Matrix<T>)
        ensures
            is_entrywise(EntryMap::Scale(factor), self@, r@),
    {
        map_entries(self, EntryMap::Scale(factor))
    }

    /// The logistic function `1 / (1 + e^(-x))` of every entry.
    pub fn apply_sigmoid(self) -> (r: Matrix<T>)
        ensures
            is_entrywise(EntryMap::Sigmoid, self@, r@),
    {
        map_entries(&self, EntryMap::Sigmoid)
    }

    /// The slope of the logistic function at every entry, computed from the
    /// entry as an activation `a`, that is a value that the logistic function
    /// has already been applied to: `a * (1 - a)`.
    pub fn derivative_of_sigmoid(&self) -> (r: Matrix<T>)
        ensures
            is_entrywise(EntryMap::SigmoidSlope, self@, r@),
    {
        map_entries(self, EntryMap::SigmoidSlope)
    }

    /// One minus every entry.
    pub fn one_minus_all_values(self) -> (r: Matrix<T>)
        ensures
            is_entrywise(EntryMap::Complement, self@, r@),
    {
        map_entries(&self, EntryMap::Complement)
    }
}

} // verus!
