//! Two-dimensional matrices, stored row by row.

use vstd::prelude::*;

verus! {

/// The mathematical content of a matrix: its shape and its cells, row by row.
pub ghost struct Grid<T> {
    pub rows: nat,
    pub cols: nat,
    pub cells: Seq<T>,
}

impl<T> Grid<T> {
    /// The number of cells is the product of the two dimensions.
    pub open spec fn wf(self) -> bool {
        self.cells.len() == self.rows * self.cols
    }

    /// The cell in row `r` and column `c`.
    pub open spec fn at(self, r: int, c: int) -> T {
        self.cells[r * self.cols + c]
    }

    pub open spec fn has_shape(self, rows: int, cols: int) -> bool {
        self.rows == rows && self.cols == cols
    }
}

/// The grid of the given shape with `value` in every cell.
pub open spec fn filled_spec<T>(rows: nat, cols: nat, value: T) -> Grid<T> {
    Grid { rows, cols, cells: Seq::new(rows * cols, |k: int| value) }
}

/// Row `r`, column `c` of a shape with `cols` columns is cell number `r * cols + c`,
/// and no other pair of a row and a column in range shares that number.
pub proof fn lemma_cell_number(rows: int, cols: int, r: int, c: int)
    requires
        0 <= r < rows,
        0 <= c < cols,
    ensures
        0 <= r * cols + c < rows * cols,
        (r * cols + c) / cols == r,
        (r * cols + c) % cols == c,
{
    vstd::arithmetic::div_mod::lemma_fundamental_div_mod_converse(r * cols + c, cols, r, c);
    assert(r * cols + c < rows * cols) by (nonlinear_arith)
        requires
            0 <= r < rows,
            0 <= c < cols,
    ;
    assert(0 <= r * cols) by (nonlinear_arith)
        requires
            0 <= r,
            0 <= cols,
    ;
}

/// Cell number `k` of a shape with `cols` columns lies in row `k / cols`, column `k % cols`.
pub proof fn lemma_cell_position(rows: int, cols: int, k: int)
    requires
        0 <= k < rows * cols,
        0 <= rows,
        0 <= cols,
    ensures
        cols > 0,
        0 <= k / cols < rows,
        0 <= k % cols < cols,
        (k / cols) * cols + k % cols == k,
{
    assert(cols > 0) by (nonlinear_arith)
        requires
            0 <= k < rows * cols,
            0 <= rows,
            0 <= cols,
    ;
    vstd::arithmetic::div_mod::lemma_fundamental_div_mod(k, cols);
    vstd::arithmetic::div_mod::lemma_div_pos_is_pos(k, cols);
    vstd::arithmetic::div_mod::lemma_mod_bound(k, cols);
    let q = k / cols;
    assert(q < rows) by (nonlinear_arith)
        requires
            cols * q + (k % cols) == k,
            0 <= k % cols,
            k < rows * cols,
            cols > 0,
    ;
    assert(cols * q == q * cols) by (nonlinear_arith);
}

/// Two well-formed grids of one shape with the same cell in every row and column are equal.
pub proof fn lemma_grid_ext<T>(a: Grid<T>, b: Grid<T>)
    requires
        a.wf(),
        b.wf(),
        a.rows == b.rows,
        a.cols == b.cols,
        forall|r: int, c: int| 0 <= r < a.rows && 0 <= c < a.cols ==> a.at(r, c) == b.at(r, c),
    ensures
        a == b,
{
    assert forall|k: int| 0 <= k < a.cells.len() implies a.cells[k] == b.cells[k] by {
        lemma_cell_position(a.rows as int, a.cols as int, k);
        assert(a.at(k / a.cols as int, k % a.cols as int) == b.at(k / a.cols as int, k % a.cols as int));
    }
    assert(a.cells =~= b.cells);
}

/// A matrix of `rows` rows and `cols` columns, stored row by row.
pub struct Matrix<T> {
    rows: usize,
    cols: usize,
    data: Vec<T>,
}

impl<T> View for Matrix<T> {
    type V = Grid<T>;

    closed spec fn view(&self) -> Grid<T> {
        Grid { rows: self.rows as nat, cols: self.cols as nat, cells: self.data@ }
    }
}

impl<T> DeepView for Matrix<T> {
    type V = Grid<T>;

    open spec fn deep_view(&self) -> Grid<T> {
        self@
    }
}

impl<T> Matrix<T> {
    #[verifier::type_invariant]
    closed spec fn inv(&self) -> bool {
        self.data@.len() == self.rows * self.cols
    }

    /// The matrix of the given shape that holds `data` row by row, if `data` has one
    /// item for each cell.
    pub fn from_shape_vec(rows: usize, cols: usize, data: Vec<T>) -> (made: Option<Matrix<T>>)
        ensures
            made is Some <==> data@.len() == rows * cols,
            made matches Some(m) ==> m@ == (Grid { rows: rows as nat, cols: cols as nat, cells: data@ }),
    {
        let given: usize = data.len();
        match rows.checked_mul(cols) {
            Some(cells) => {
                if given == cells {
                    Some(Matrix { rows, cols, data })
                } else {
                    None
                }
            },
            None => None,
        }
    }

    /// The matrix of the given shape that holds `data` row by row.
    pub fn from_cells(rows: usize, cols: usize, data: Vec<T>) -> (made: Matrix<T>)
        requires
            data@.len() == rows * cols,
        ensures
            made@ == (Grid { rows: rows as nat, cols: cols as nat, cells: data@ }),
    {
        Matrix { rows, cols, data }
    }

    /// The same cells, row by row, under another shape with as many cells.
    pub fn reshaped(self, rows: usize, cols: usize) -> (made: Matrix<T>)
        requires
            self@.cells.len() == rows * cols,
        ensures
            made@ == (Grid { rows: rows as nat, cols: cols as nat, cells: self@.cells }),
    {
        Matrix { rows, cols, data: self.data }
    }

    /// The number of rows. The call also tells the caller that the matrix is well
    /// formed, as every matrix is that a program holds.
    pub fn rows(&self) -> (n: usize)
        ensures
            n == self@.rows,
            self@.wf(),
    {
        proof {
            use_type_invariant(self);
        }
        self.rows
    }

    /// The number of columns. The call also tells the caller that the matrix is well
    /// formed.
    pub fn cols(&self) -> (n: usize)
        ensures
            n == self@.cols,
            self@.wf(),
    {
        proof {
            use_type_invariant(self);
        }
        self.cols
    }

    /// The number of cells, which is the number of rows times the number of columns.
    pub fn len(&self) -> (n: usize)
        ensures
            n == self@.cells.len(),
            n == self@.rows * self@.cols,
    {
        proof {
            use_type_invariant(self);
        }
        self.data.len()
    }

    /// The cells, row by row.
    pub fn into_vec(self) -> (cells: Vec<T>)
        ensures
            cells@ == self@.cells,
    {
        self.data
    }
}

impl<T: Copy> Matrix<T> {
    /// The matrix of the given shape with `value` in every cell.
    pub fn filled(rows: usize, cols: usize, value: T) -> (made: Matrix<T>)
        requires
            rows * cols <= usize::MAX,
        ensures
            made@ == filled_spec(rows as nat, cols as nat, value),
    {
        let total: usize = rows * cols;
        let mut data: Vec<T> = Vec::new();
        let mut k: usize = 0;
        while k < total
            invariant
                k <= total,
                data@.len() == k,
                forall|i: int| 0 <= i < k ==> data@[i] == value,
            decreases total - k,
        {
            data.push(value);
            k = k + 1;
        }
        assert(data@ =~= filled_spec(rows as nat, cols as nat, value).cells);
        Matrix { rows, cols, data }
    }

    /// A copy of the matrix.
    pub fn copied(&self) -> (made: Matrix<T>)
        ensures
            made@ == self@,
    {
        proof {
            use_type_invariant(self);
        }
        let total: usize = self.data.len();
        let mut data: Vec<T> = Vec::new();
        let mut k: usize = 0;
        while k < total
            invariant
                total == self.data@.len(),
                k <= total,
                data@.len() == k,
                forall|i: int| 0 <= i < k ==> data@[i] == self.data@[i],
            decreases total - k,
        {
            data.push(self.data[k]);
            k = k + 1;
        }
        assert(data@ =~= self.data@);
        Matrix { rows: self.rows, cols: self.cols, data }
    }

    /// The cell in row `r` and column `c`.
    pub fn get(&self, r: usize, c: usize) -> (cell: T)
        requires
            r < self@.rows,
            c < self@.cols,
        ensures
            cell == self@.at(r as int, c as int),
    {
        proof {
            use_type_invariant(self);
            lemma_cell_number(self.rows as int, self.cols as int, r as int, c as int);
            assert(0 <= r * self.cols) by (nonlinear_arith)
                requires
                    0 <= r,
                    0 <= self.cols,
            ;
        }
        let cells: usize = self.data.len();
        self.data[r * self.cols + c]
    }

    /// Cell number `k`, counting row by row.
    pub fn cell(&self, k: usize) -> (cell: T)
        requires
            k < self@.cells.len(),
        ensures
            cell == self@.cells[k as int],
    {
        self.data[k]
    }
}

} // verus!
