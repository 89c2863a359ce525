//! Dense matrices: a vector of rows.
//!
//! The model of a matrix is its *grid*, a `Seq<Seq<T>>` of rows. A grid
//! has as many rows as its length and as many columns as its first row is
//! long; a grid without rows has no columns either. Nothing forces the
//! rows of a `Matrix` to be equally long: `is_rectangular` says that they
//! are, and the operations that read whole columns ask for it.
use vstd::prelude::*;

verus! {

/// The number of columns of a grid: the length of its first row, and zero
/// where it has no row.
pub open spec fn width<T>(grid: Seq<Seq<T>>) -> nat {
    if grid.len() == 0 {
        0
    } else {
        grid[0].len()
    }
}

/// Every row of the grid is as long as the first.
pub open spec fn rectangular<T>(grid: Seq<Seq<T>>) -> bool {
    forall|i: int| 0 <= i < grid.len() ==> (#[trigger] grid[i]).len() == width(grid)
}

/// The grid has `rows` rows, each of length `cols`.
pub open spec fn has_shape<T>(grid: Seq<Seq<T>>, rows: nat, cols: nat) -> bool {
    &&& grid.len() == rows
    &&& forall|i: int| 0 <= i < grid.len() ==> (#[trigger] grid[i]).len() == cols
}

/// The two grids have equally many rows, and rows of equal length at equal
/// positions.
pub open spec fn same_shape<T>(a: Seq<Seq<T>>, b: Seq<Seq<T>>) -> bool {
    &&& a.len() == b.len()
    &&& forall|i: int| 0 <= i < a.len() ==> (#[trigger] a[i]).len() == b[i].len()
}

/// Column `j` of a grid, top to bottom.
pub open spec fn column<T>(grid: Seq<Seq<T>>, j: int) -> Seq<T> {
    Seq::new(grid.len(), |i: int| grid[i][j])
}

/// The grid reflected across its diagonal: row `j` of the result is column
/// `j` of the grid.
pub open spec fn transposed<T>(grid: Seq<Seq<T>>) -> Seq<Seq<T>> {
    Seq::new(width(grid), |j: int| column(grid, j))
}

/// The values as a column: one row of length one for each.
pub open spec fn column_vector<T>(values: Seq<T>) -> Seq<Seq<T>> {
    Seq::new(values.len(), |i: int| seq![values[i]])
}

/// The rows of a grid, one behind the other.
pub open spec fn flattened<T>(grid: Seq<Seq<T>>) -> Seq<T>
    decreases grid.len(),
{
    if grid.len() == 0 {
        Seq::empty()
    } else {
        flattened(grid.drop_last()) + grid.last()
    }
}

/// A dense matrix, held row by row.
#[derive(Debug, PartialEq, Clone)]
pub struct Matrix<T>(pub Vec<Vec<T>>);

impl<T> View for Matrix<T> {
    type V = Seq<Seq<T>>;

    /// The grid of the matrix: its rows, each as a sequence.
    open spec fn view(&self) -> Seq<Seq<T>> {
        Seq::new(self.0@.len(), |i: int| self.0@[i]@)
    }
}

impl<T> Matrix<T> {
    /// The matrix keeps the invariant of its type: all rows equally long.
    pub open spec fn is_rectangular(&self) -> bool {
        rectangular(self@)
    }

    /// Whether all rows are equally long.
    pub fn check_rectangular(&self) -> (r: bool)
        ensures
            r == self.is_rectangular(),
    {
        let (_, cols) = matrix_rows_and_cols(self);
        let mut i: usize = 0;
        while i < self.0.len()
            invariant
                i <= self.0.len(),
                cols == width(self@),
                forall|k: int| 0 <= k < i ==> (#[trigger] self@[k]).len() == cols,
            decreases self.0.len() - i,
        {
            if self.0[i].len() != cols {
                assert(self@[i as int].len() != width(self@));
                return false;
            }
            i += 1;
        }
        true
    }

    /// Whether `self` and `matrix` have equally many rows, and rows of
    /// equal length at equal positions.
    pub fn same_size(&self, matrix: &Matrix<T>) -> (r: bool)
        ensures
            r == same_shape(self@, matrix@),
    {
        if self.0.len() != matrix.0.len() {
            return false;
        }
        let mut i: usize = 0;
        while i < self.0.len()
            invariant
                i <= self.0.len(),
                self.0.len() == matrix.0.len(),
                forall|k: int| 0 <= k < i ==> (#[trigger] self@[k]).len() == matrix@[k].len(),
            decreases self.0.len() - i,
        {
            if self.0[i].len() != matrix.0[i].len() {
                assert(self@[i as int].len() != matrix@[i as int].len());
                return false;
            }
            i += 1;
        }
        true
    }
}

impl<T: Copy> Matrix<T> {
    /// The values as a column matrix: one row of length one for each.
    pub fn from_vec(data: &Vec<T>) -> (r: Matrix<T>)
        ensures
            r@ == column_vector(data@),
    {
        let mut rows: Vec<Vec<T>> = Vec::new();
        let mut i: usize = 0;
        while i < data.len()
            invariant
                i <= data.len(),
                rows.len() == i,
                forall|k: int| 0 <= k < i ==> (#[trigger] rows@[k])@ == seq![data@[k]],
            decreases data.len() - i,
        {
            let mut row: Vec<T> = Vec::new();
            row.push(data[i]);
            rows.push(row);
            i += 1;
        }
        let r = Matrix(rows);
        r
    }

    /// The matrix reflected across its diagonal: as many rows as `self`
    /// has columns, row `j` holding column `j` of `self`.
    pub fn transpose(&self) -> (r: Matrix<T>)
        requires
            self.is_rectangular(),
        ensures
            r@ == transposed(self@),
            has_shape(r@, width(self@), self@.len()),
    {
        let (self_rows, self_cols) = matrix_rows_and_cols(self);
        let mut rows: Vec<Vec<T>> = Vec::new();
        let mut x: usize = 0;
        while x < self_cols
            invariant
                x <= self_cols,
                self_rows == self@.len(),
                self_cols == width(self@),
                self.is_rectangular(),
                rows.len() == x,
                forall|j: int| 0 <= j < x ==> (#[trigger] rows@[j])@ == column(self@, j),
            decreases self_cols - x,
        {
            let mut row: Vec<T> = Vec::new();
            let mut y: usize = 0;
            while y < self_rows
                invariant
                    y <= self_rows,
                    x < self_cols,
                    self_rows == self@.len(),
                    self_cols == width(self@),
                    self.is_rectangular(),
                    row.len() == y,
                    forall|i: int| 0 <= i < y ==> #[trigger] row@[i] == self@[i][x as int],
                decreases self_rows - y,
            {
                assert(self@[y as int].len() == self_cols);
                row.push(self.0[y][x]);
                y += 1;
            }
            rows.push(row);
            x += 1;
        }
        let r = Matrix(rows);
        r
    }

    /// The rows of the matrix, one behind the other.
    pub fn flatten(&self) -> (r: Vec<T>)
        ensures
            r@ == flattened(self@),
    {
        let mut out: Vec<T> = Vec::new();
        let mut i: usize = 0;
        while i < self.0.len()
            invariant
                i <= self.0.len(),
                out@ == flattened(self@.take(i as int)),
            decreases self.0.len() - i,
        {
            let row = &self.0[i];
            let ghost before = out@;
            let mut j: usize = 0;
            while j < row.len()
                invariant
                    j <= row.len(),
                    out@ == before + row@.take(j as int),
                decreases row.len() - j,
            {
                out.push(row[j]);
                j += 1;
            }
            proof {
                let next = self@.take(i + 1);
                assert(next.drop_last() == self@.take(i as int));
            }
            i += 1;
        }
        assert(self@.take(i as int) == self@);
        out
    }
}

/// The dimensions of a matrix: its number of rows, and the length of its
/// first row, or zero where it has no row.
pub fn matrix_rows_and_cols<T>(matrix: &Matrix<T>) -> (r: (usize, usize))
    ensures
        r.0 == matrix@.len(),
        r.1 == width(matrix@),
{
    let rows = matrix.0.len();
    let cols = if matrix.0.len() == 0 {
        0
    } else {
        matrix.0[0].len()
    };
    (rows, cols)
}

/// Transposing a grid twice gives the grid back, where it is rectangular
/// and has a column whenever it has a row.
pub proof fn lemma_transpose_involution<T>(grid: Seq<Seq<T>>)
    requires
        rectangular(grid),
        grid.len() == 0 || width(grid) > 0,
    ensures
        transposed(transposed(grid)) == grid,
{
    let twice = transposed(transposed(grid));
    if grid.len() > 0 {
        assert forall|i: int| 0 <= i < grid.len() implies #[trigger] twice[i] =~= grid[i] by {}
    }
}

/// The rows of a grid of rows of one length each, one behind the other,
/// are as many values as the grid has rows, times that length.
pub proof fn lemma_flattened_len<T>(grid: Seq<Seq<T>>, cols: nat)
    requires
        has_shape(grid, grid.len(), cols),
    ensures
        flattened(grid).len() == grid.len() * cols,
    decreases grid.len(),
{
    if grid.len() > 0 {
        let front = grid.drop_last();
        lemma_flattened_len(front, cols);
        assert(grid.len() * cols == front.len() * cols + cols) by (nonlinear_arith)
            requires
                grid.len() == front.len() + 1,
        ;
    }
}

} // verus!
