//! Arithmetic on whole matrices.

use crate::matrix::{lemma_cell_number, lemma_cell_position, Grid, Matrix};
use crate::scalar::Scalar;
use vstd::prelude::*;

verus! {

/// One of the four arithmetic operations.
#[derive(Clone, Copy, PartialEq, Eq, Debug)]
pub enum Binary {
    Plus,
    Minus,
    Times,
    Over,
}

/// What the operation gives for the operands `x` and `y`, in this order.
pub open spec fn apply_spec<T: Scalar>(op: Binary, x: T, y: T) -> T {
    match op {
        Binary::Plus => x.plus_spec(y),
        Binary::Minus => x.minus_spec(y),
        Binary::Times => x.times_spec(y),
        Binary::Over => x.over_spec(y),
    }
}

pub fn apply<T: Scalar>(op: Binary, x: T, y: T) -> (r: T)
    ensures
        r == apply_spec(op, x, y),
{
    match op {
        Binary::Plus => x.plus(y),
        Binary::Minus => x.minus(y),
        Binary::Times => x.times(y),
        Binary::Over => x.over(y),
    }
}

/// Cell by cell, `a op b`; the shape is that of `a`.
pub open spec fn combine_spec<T: Scalar>(op: Binary, a: Grid<T>, b: Grid<T>) -> Grid<T> {
    Grid {
        rows: a.rows,
        cols: a.cols,
        cells: Seq::new(a.cells.len(), |k: int| apply_spec(op, a.cells[k], b.cells[k])),
    }
}

/// Cell by cell, `a op s`.
pub open spec fn with_scalar_spec<T: Scalar>(op: Binary, a: Grid<T>, s: T) -> Grid<T> {
    Grid {
        rows: a.rows,
        cols: a.cols,
        cells: Seq::new(a.cells.len(), |k: int| apply_spec(op, a.cells[k], s)),
    }
}

/// Cell by cell, `s op a`.
pub open spec fn scalar_with_spec<T: Scalar>(op: Binary, s: T, a: Grid<T>) -> Grid<T> {
    Grid {
        rows: a.rows,
        cols: a.cols,
        cells: Seq::new(a.cells.len(), |k: int| apply_spec(op, s, a.cells[k])),
    }
}

/// The matrix of two matrices of one shape combined cell by cell.
pub fn combine<T: Scalar>(op: Binary, a: &Matrix<T>, b: &Matrix<T>) -> (out: Matrix<T>)
    requires
        a@.rows == b@.rows,
        a@.cols == b@.cols,
    ensures
        out@ == combine_spec(op, a@, b@),
{
    let total: usize = a.len();
    let other: usize = b.len();
    let mut data: Vec<T> = Vec::new();
    let mut k: usize = 0;
    while k < total
        invariant
            total == a@.cells.len(),
            total == b@.cells.len(),
            k <= total,
            data@.len() == k,
            forall|i: int| 0 <= i < k ==> data@[i] == apply_spec(op, a@.cells[i], b@.cells[i]),
        decreases total - k,
    {
        data.push(apply(op, a.cell(k), b.cell(k)));
        k = k + 1;
    }
    assert(data@ =~= combine_spec(op, a@, b@).cells);
    Matrix::from_cells(a.rows(), a.cols(), data)
}

/// The matrix with `s` applied to every cell from the right.
pub fn with_scalar<T: Scalar>(op: Binary, a: &Matrix<T>, s: T) -> (out: Matrix<T>)
    ensures
        out@ == with_scalar_spec(op, a@, s),
{
    let total: usize = a.len();
    let mut data: Vec<T> = Vec::new();
    let mut k: usize = 0;
    while k < total
        invariant
            total == a@.cells.len(),
            k <= total,
            data@.len() == k,
            forall|i: int| 0 <= i < k ==> data@[i] == apply_spec(op, a@.cells[i], s),
        decreases total - k,
    {
        data.push(apply(op, a.cell(k), s));
        k = k + 1;
    }
    assert(data@ =~= with_scalar_spec(op, a@, s).cells);
    Matrix::from_cells(a.rows(), a.cols(), data)
}

/// The matrix with `s` applied to every cell from the left.
pub fn scalar_with<T: Scalar>(op: Binary, s: T, a: &Matrix<T>) -> (out: Matrix<T>)
    ensures
        out@ == scalar_with_spec(op, s, a@),
{
    let total: usize = a.len();
    let mut data: Vec<T> = Vec::new();
    let mut k: usize = 0;
    while k < total
        invariant
            total == a@.cells.len(),
            k <= total,
            data@.len() == k,
            forall|i: int| 0 <= i < k ==> data@[i] == apply_spec(op, s, a@.cells[i]),
        decreases total - k,
    {
        data.push(apply(op, s, a.cell(k)));
        k = k + 1;
    }
    assert(data@ =~= scalar_with_spec(op, s, a@).cells);
    Matrix::from_cells(a.rows(), a.cols(), data)
}

/// The transposed grid: rows become columns.
pub open spec fn transposed_spec<T>(a: Grid<T>) -> Grid<T> {
    Grid {
        rows: a.cols,
        cols: a.rows,
        cells: Seq::new(a.cells.len(), |k: int| a.at(k % a.rows as int, k / a.rows as int)),
    }
}

pub fn transposed<T: Copy>(a: &Matrix<T>) -> (out: Matrix<T>)
    ensures
        out@ == transposed_spec(a@),
{
    let rows: usize = a.rows();
    let cols: usize = a.cols();
    let total: usize = a.len();
    assert(cols * rows == rows * cols) by (nonlinear_arith);
    let mut data: Vec<T> = Vec::new();
    let mut k: usize = 0;
    while k < total
        invariant
            rows == a@.rows,
            cols == a@.cols,
            total == cols * rows,
            k <= total,
            data@.len() == k,
            forall|i: int| 0 <= i < k ==> data@[i] == a@.at(i % rows as int, i / rows as int),
        decreases total - k,
    {
        proof {
            lemma_cell_position(cols as int, rows as int, k as int);
        }
        data.push(a.get(k % rows, k / rows));
        k = k + 1;
    }
    assert(data@ =~= transposed_spec(a@).cells);
    Matrix::from_cells(cols, rows, data)
}

/// The first `n` terms of the product of row `i` of `a` and column `j` of `b`, added
/// from the left, starting from zero.
pub open spec fn row_dot<T: Scalar>(a: Grid<T>, i: int, b: Grid<T>, j: int, n: nat) -> T
    decreases n,
{
    if n == 0 {
        T::zero_spec()
    } else {
        row_dot(a, i, b, j, (n - 1) as nat).plus_spec(a.at(i, n - 1).times_spec(b.at(n - 1, j)))
    }
}

/// The matrix product `a · b`.
pub open spec fn product_spec<T: Scalar>(a: Grid<T>, b: Grid<T>) -> Grid<T> {
    Grid {
        rows: a.rows,
        cols: b.cols,
        cells: Seq::new(
            a.rows * b.cols,
            |k: int| row_dot(a, k / b.cols as int, b, k % b.cols as int, a.cols),
        ),
    }
}

/// The matrix product `a · b` of an `m × k` and a `k × n` matrix.
pub fn product<T: Scalar>(a: &Matrix<T>, b: &Matrix<T>) -> (out: Matrix<T>)
    requires
        a@.cols == b@.rows,
        a@.rows * b@.cols <= usize::MAX,
    ensures
        out@ == product_spec(a@, b@),
{
    let rows: usize = a.rows();
    let inner: usize = a.cols();
    let cols: usize = b.cols();
    let held: usize = b.rows();
    let total: usize = rows * cols;
    let mut data: Vec<T> = Vec::new();
    let mut k: usize = 0;
    while k < total
        invariant
            rows == a@.rows,
            inner == a@.cols,
            inner == b@.rows,
            cols == b@.cols,
            total == rows * cols,
            k <= total,
            data@.len() == k,
            forall|i: int|
                0 <= i < k ==> data@[i] == row_dot(a@, i / cols as int, b@, i % cols as int, inner as nat),
        decreases total - k,
    {
        proof {
            lemma_cell_position(rows as int, cols as int, k as int);
        }
        let i: usize = k / cols;
        let j: usize = k % cols;
        let mut acc: T = T::zero();
        let mut t: usize = 0;
        while t < inner
            invariant
                inner == a@.cols,
                inner == b@.rows,
                i < a@.rows,
                j < b@.cols,
                t <= inner,
                acc == row_dot(a@, i as int, b@, j as int, t as nat),
            decreases inner - t,
        {
            acc = acc.plus(a.get(i, t).times(b.get(t, j)));
            t = t + 1;
        }
        data.push(acc);
        k = k + 1;
    }
    assert(data@ =~= product_spec(a@, b@).cells);
    Matrix::from_cells(rows, cols, data)
}

/// The sum of the first `n` cells of row `r`, added from the left, starting from zero.
pub open spec fn row_sum<T: Scalar>(a: Grid<T>, r: int, n: nat) -> T
    decreases n,
{
    if n == 0 {
        T::zero_spec()
    } else {
        row_sum(a, r, (n - 1) as nat).plus_spec(a.at(r, n - 1))
    }
}

/// The sum of the first `n` cells of column `c`, added from the top, starting from zero.
pub open spec fn column_sum<T: Scalar>(a: Grid<T>, c: int, n: nat) -> T
    decreases n,
{
    if n == 0 {
        T::zero_spec()
    } else {
        column_sum(a, c, (n - 1) as nat).plus_spec(a.at(n - 1, c))
    }
}

/// The column of the sums of the rows.
pub open spec fn row_sums_spec<T: Scalar>(a: Grid<T>) -> Grid<T> {
    Grid { rows: a.rows, cols: 1, cells: Seq::new(a.rows, |r: int| row_sum(a, r, a.cols)) }
}

/// The column of the sums of the columns: one row for each column of `a`.
pub open spec fn column_sums_spec<T: Scalar>(a: Grid<T>) -> Grid<T> {
    Grid { rows: a.cols, cols: 1, cells: Seq::new(a.cols, |c: int| column_sum(a, c, a.rows)) }
}

pub fn row_sums<T: Scalar>(a: &Matrix<T>) -> (out: Matrix<T>)
    ensures
        out@ == row_sums_spec(a@),
{
    let rows: usize = a.rows();
    let cols: usize = a.cols();
    let mut data: Vec<T> = Vec::new();
    let mut r: usize = 0;
    while r < rows
        invariant
            rows == a@.rows,
            cols == a@.cols,
            r <= rows,
            data@.len() == r,
            forall|i: int| 0 <= i < r ==> data@[i] == row_sum(a@, i, cols as nat),
        decreases rows - r,
    {
        let mut acc: T = T::zero();
        let mut c: usize = 0;
        while c < cols
            invariant
                cols == a@.cols,
                r < a@.rows,
                c <= cols,
                acc == row_sum(a@, r as int, c as nat),
            decreases cols - c,
        {
            acc = acc.plus(a.get(r, c));
            c = c + 1;
        }
        data.push(acc);
        r = r + 1;
    }
    assert(data@ =~= row_sums_spec(a@).cells);
    assert(rows * 1 == rows);
    Matrix::from_cells(rows, 1, data)
}

pub fn column_sums<T: Scalar>(a: &Matrix<T>) -> (out: Matrix<T>)
    ensures
        out@ == column_sums_spec(a@),
{
    let rows: usize = a.rows();
    let cols: usize = a.cols();
    let mut data: Vec<T> = Vec::new();
    let mut c: usize = 0;
    while c < cols
        invariant
            rows == a@.rows,
            cols == a@.cols,
            c <= cols,
            data@.len() == c,
            forall|i: int| 0 <= i < c ==> data@[i] == column_sum(a@, i, rows as nat),
        decreases cols - c,
    {
        let mut acc: T = T::zero();
        let mut r: usize = 0;
        while r < rows
            invariant
                rows == a@.rows,
                c < a@.cols,
                r <= rows,
                acc == column_sum(a@, c as int, r as nat),
            decreases rows - r,
        {
            acc = acc.plus(a.get(r, c));
            r = r + 1;
        }
        data.push(acc);
        c = c + 1;
    }
    assert(data@ =~= column_sums_spec(a@).cells);
    assert(cols * 1 == cols);
    Matrix::from_cells(cols, 1, data)
}

/// Every cell of `a` with the cell of the column `b` in its row added to it.
pub open spec fn plus_column_spec<T: Scalar>(a: Grid<T>, b: Grid<T>) -> Grid<T> {
    Grid {
        rows: a.rows,
        cols: a.cols,
        cells: Seq::new(a.cells.len(), |k: int| a.cells[k].plus_spec(b.cells[k / a.cols as int])),
    }
}

/// The matrix `a` with the column `b` added to each of its columns.
pub fn plus_column<T: Scalar>(a: &Matrix<T>, b: &Matrix<T>) -> (out: Matrix<T>)
    requires
        b@.rows == a@.rows,
        b@.cols == 1,
    ensures
        out@ == plus_column_spec(a@, b@),
{
    let rows: usize = a.rows();
    let cols: usize = a.cols();
    let total: usize = a.len();
    let held: usize = b.len();
    let mut data: Vec<T> = Vec::new();
    let mut k: usize = 0;
    while k < total
        invariant
            rows == a@.rows,
            cols == a@.cols,
            total == a@.cells.len(),
            total == rows * cols,
            b@.cells.len() == rows,
            k <= total,
            data@.len() == k,
            forall|i: int| 0 <= i < k ==> data@[i] == a@.cells[i].plus_spec(b@.cells[i / cols as int]),
        decreases total - k,
    {
        proof {
            lemma_cell_position(rows as int, cols as int, k as int);
        }
        data.push(a.cell(k).plus(b.cell(k / cols)));
        k = k + 1;
    }
    assert(data@ =~= plus_column_spec(a@, b@).cells);
    Matrix::from_cells(rows, cols, data)
}

} // verus!
