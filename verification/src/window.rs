//! Sliding windows over a zero-padded square matrix, and convolution as one matrix
//! product over the unrolled windows.

use crate::algebra::{product, product_spec, row_dot};
use crate::matrix::{lemma_cell_number, lemma_cell_position, Grid, Matrix};
use crate::scalar::Scalar;
use crate::shape::{cal_shape, cal_shape_spec};
use vstd::prelude::*;

verus! {

/// The cell in row `r`, column `c` of `m` with `pad` rows and columns of zeros on every
/// side; zero outside of `m`.
pub open spec fn padded_cell<T: Scalar>(m: Grid<T>, pad: int, r: int, c: int) -> T {
    if pad <= r < pad + m.rows && pad <= c < pad + m.cols {
        m.at(r - pad, c - pad)
    } else {
        T::zero_spec()
    }
}

/// The grid `m` with `pad` rows and columns of zeros on every side.
pub open spec fn padding_spec<T: Scalar>(m: Grid<T>, pad: nat) -> Grid<T> {
    Grid {
        rows: m.rows + 2 * pad,
        cols: m.cols + 2 * pad,
        cells: Seq::new(
            (m.rows + 2 * pad) * (m.cols + 2 * pad),
            |k: int| padded_cell(m, pad as int, k / (m.cols + 2 * pad) as int, k % (m.cols + 2 * pad) as int),
        ),
    }
}

/// Cell number `p` of window number `w`: the windows are `width` cells wide, start
/// `stride` cells apart, and are counted row by row, as are the cells of each.
pub open spec fn window_cell<T: Scalar>(m: Grid<T>, width: int, stride: int, pad: int, w: int, p: int) -> T {
    let across = cal_shape_spec(m.rows as int, width, stride, pad);
    padded_cell(m, pad, (w / across) * stride + p / width, (w % across) * stride + p % width)
}

/// The cells of window number `w`, row by row.
pub open spec fn window_spec<T: Scalar>(m: Grid<T>, width: int, stride: int, pad: int, w: int) -> Seq<T> {
    Seq::new((width * width) as nat, |p: int| window_cell(m, width, stride, pad, w, p))
}

/// All windows, row by row.
pub open spec fn flip_matrix_spec<T: Scalar>(m: Grid<T>, width: int, stride: int, pad: int) -> Seq<Seq<T>> {
    let across = cal_shape_spec(m.rows as int, width, stride, pad);
    Seq::new((across * across) as nat, |w: int| window_spec(m, width, stride, pad, w))
}

/// The windows as the rows of one grid: one row for each window, one column for each of
/// its cells.
pub open spec fn im2col_spec<T: Scalar>(m: Grid<T>, width: int, stride: int, pad: int) -> Grid<T> {
    let across = cal_shape_spec(m.rows as int, width, stride, pad);
    Grid {
        rows: (across * across) as nat,
        cols: (width * width) as nat,
        cells: Seq::new(
            (across * across * (width * width)) as nat,
            |k: int| window_cell(m, width, stride, pad, k / (width * width), k % (width * width)),
        ),
    }
}

/// The cells of the filter as one column.
pub open spec fn im2col_filter_spec<T>(filter: Grid<T>, width: int) -> Grid<T> {
    Grid { rows: (width * width) as nat, cols: 1, cells: filter.cells }
}

/// The cross-correlation of `filter` over the padded `input`: the product of the
/// unrolled windows and the filter column, under the shape of the output.
pub open spec fn convolution_spec<T: Scalar>(filter: Grid<T>, input: Grid<T>, stride: int, pad: int) -> Grid<T> {
    let width = filter.rows as int;
    let across = cal_shape_spec(input.rows as int, width, stride, pad);
    Grid {
        rows: across as nat,
        cols: across as nat,
        cells: product_spec(im2col_spec(input, width, stride, pad), im2col_filter_spec(filter, width)).cells,
    }
}

/// A window geometry that the functions of this module can work on: a square matrix, a
/// window that is not empty and fits into the padded matrix, a positive stride.
pub open spec fn slides<T>(m: Grid<T>, width: int, stride: int, pad: int) -> bool {
    &&& m.wf()
    &&& m.rows == m.cols
    &&& stride > 0
    &&& 0 < width <= m.rows + 2 * pad
    &&& pad >= 0
}

/// The number of windows along each axis is positive, and so is the room they take.
pub proof fn lemma_across(rows: int, width: int, stride: int, pad: int)
    requires
        stride > 0,
        0 < width <= rows + 2 * pad,
    ensures
        1 <= cal_shape_spec(rows, width, stride, pad) <= rows + 2 * pad,
        (cal_shape_spec(rows, width, stride, pad) - 1) * stride + width <= rows + 2 * pad,
{
    let travel = rows - width + 2 * pad;
    vstd::arithmetic::div_mod::lemma_div_pos_is_pos(travel, stride);
    vstd::arithmetic::div_mod::lemma_fundamental_div_mod(travel, stride);
    vstd::arithmetic::div_mod::lemma_mod_bound(travel, stride);
    let q = travel / stride;
    assert(q * stride <= travel) by (nonlinear_arith)
        requires
            stride * q + travel % stride == travel,
            0 <= travel % stride,
    ;
    assert(q <= q * stride) by (nonlinear_arith)
        requires
            q >= 0,
            stride >= 1,
    ;
}

/// Where cell `p` of window `w` lies in the padded matrix.
pub proof fn lemma_window_cell_in_range(rows: int, width: int, stride: int, pad: int, w: int, p: int)
    requires
        stride > 0,
        0 < width <= rows + 2 * pad,
        0 <= w < cal_shape_spec(rows, width, stride, pad) * cal_shape_spec(rows, width, stride, pad),
        0 <= p < width * width,
    ensures
        0 <= (w / cal_shape_spec(rows, width, stride, pad)) * stride + p / width < rows + 2 * pad,
        0 <= (w % cal_shape_spec(rows, width, stride, pad)) * stride + p % width < rows + 2 * pad,
{
    let across = cal_shape_spec(rows, width, stride, pad);
    lemma_across(rows, width, stride, pad);
    lemma_cell_position(across, across, w);
    lemma_cell_position(width, width, p);
    let wr = w / across;
    let wc = w % across;
    assert(0 <= wr * stride <= (across - 1) * stride) by (nonlinear_arith)
        requires
            0 <= wr <= across - 1,
            stride > 0,
    ;
    assert(0 <= wc * stride <= (across - 1) * stride) by (nonlinear_arith)
        requires
            0 <= wc <= across - 1,
            stride > 0,
    ;
}

/// The first `n` terms of the sum that the window at row `r`, column `c` of the output
/// contributes when the filter lies on it: each cell under the filter times the cell
/// of the filter above it, row by row, added from the left, starting from zero.
pub open spec fn direct_convolution<T: Scalar>(
    filter: Grid<T>,
    input: Grid<T>,
    stride: int,
    pad: int,
    r: int,
    c: int,
    n: nat,
) -> T
    decreases n,
{
    if n == 0 {
        T::zero_spec()
    } else {
        let width = filter.rows as int;
        let i = (n - 1) / width;
        let j = (n - 1) % width;
        direct_convolution(filter, input, stride, pad, r, c, (n - 1) as nat).plus_spec(
            padded_cell(input, pad, r * stride + i, c * stride + j).times_spec(filter.at(i, j)),
        )
    }
}

/// The product of a row of unrolled windows and the filter column is the sum that the
/// filter gives when it is laid on that window.
proof fn lemma_row_dot_is_direct<T: Scalar>(
    filter: Grid<T>,
    input: Grid<T>,
    stride: int,
    pad: int,
    r: int,
    c: int,
    n: nat,
)
    requires
        filter.wf(),
        filter.rows == filter.cols,
        slides(input, filter.rows as int, stride, pad),
        0 <= r < cal_shape_spec(input.rows as int, filter.rows as int, stride, pad),
        0 <= c < cal_shape_spec(input.rows as int, filter.rows as int, stride, pad),
        n <= filter.rows * filter.rows,
    ensures
        row_dot(
            im2col_spec(input, filter.rows as int, stride, pad),
            r * cal_shape_spec(input.rows as int, filter.rows as int, stride, pad) + c,
            im2col_filter_spec(filter, filter.rows as int),
            0,
            n,
        ) == direct_convolution(filter, input, stride, pad, r, c, n),
    decreases n,
{
    if n > 0 {
        let width = filter.rows as int;
        let across = cal_shape_spec(input.rows as int, width, stride, pad);
        let w = r * across + c;
        lemma_row_dot_is_direct(filter, input, stride, pad, r, c, (n - 1) as nat);
        lemma_cell_number(across, across, r, c);
        lemma_cell_number(across * across, width * width, w, n - 1);
        lemma_cell_position(width, width, n - 1);
        lemma_cell_number(width * width, 1, n - 1, 0);
    }
}

/// Convolution by unrolling the windows and multiplying once gives, in every cell of the
/// output, what laying the filter on the window of that cell gives.
pub proof fn lemma_convolution_is_direct<T: Scalar>(
    filter: Grid<T>,
    input: Grid<T>,
    stride: int,
    pad: int,
    r: int,
    c: int,
)
    requires
        filter.wf(),
        filter.rows == filter.cols,
        slides(input, filter.rows as int, stride, pad),
        0 <= r < cal_shape_spec(input.rows as int, filter.rows as int, stride, pad),
        0 <= c < cal_shape_spec(input.rows as int, filter.rows as int, stride, pad),
    ensures
        convolution_spec(filter, input, stride, pad).at(r, c) == direct_convolution(
            filter,
            input,
            stride,
            pad,
            r,
            c,
            filter.rows * filter.rows,
        ),
{
    let width = filter.rows as int;
    let across = cal_shape_spec(input.rows as int, width, stride, pad);
    let w = r * across + c;
    lemma_cell_number(across, across, r, c);
    lemma_row_dot_is_direct(filter, input, stride, pad, r, c, filter.rows * filter.rows);
    assert(w / 1 == w && w % 1 == 0);
    assert(across * across * 1 == across * across) by (nonlinear_arith);
}

/// The cell in row `r`, column `c` of the padded matrix, without building it.
pub fn padded_get<T: Scalar>(m: &Matrix<T>, pad: usize, r: usize, c: usize) -> (cell: T)
    ensures
        cell == padded_cell(m@, pad as int, r as int, c as int),
{
    let rows: usize = m.rows();
    let cols: usize = m.cols();
    if r >= pad && r - pad < rows && c >= pad && c - pad < cols {
        m.get(r - pad, c - pad)
    } else {
        T::zero()
    }
}

/// The matrix with `pad` rows and columns of zeros added on every side.
pub fn padding<T: Scalar>(matrix: &Matrix<T>, pad: usize) -> (out: Matrix<T>)
    requires
        (matrix@.rows + 2 * pad) * (matrix@.cols + 2 * pad) <= usize::MAX,
        matrix@.rows + 2 * pad <= usize::MAX,
        matrix@.cols + 2 * pad <= usize::MAX,
    ensures
        out@ == padding_spec(matrix@, pad as nat),
{
    let rows: usize = matrix.rows() + 2 * pad;
    let cols: usize = matrix.cols() + 2 * pad;
    let total: usize = rows * cols;
    let mut data: Vec<T> = Vec::new();
    let mut k: usize = 0;
    while k < total
        invariant
            rows == matrix@.rows + 2 * pad,
            cols == matrix@.cols + 2 * pad,
            total == rows * cols,
            k <= total,
            data@.len() == k,
            forall|i: int|
                0 <= i < k ==> data@[i] == padded_cell(matrix@, pad as int, i / cols as int, i % cols as int),
        decreases total - k,
    {
        proof {
            lemma_cell_position(rows as int, cols as int, k as int);
        }
        data.push(padded_get(matrix, pad, k / cols, k % cols));
        k = k + 1;
    }
    assert(data@ =~= padding_spec(matrix@, pad as nat).cells);
    Matrix::from_cells(rows, cols, data)
}

/// Cell `p` of window `w`, without building the padded matrix.
pub fn window_get<T: Scalar>(
    m: &Matrix<T>,
    width: usize,
    stride: usize,
    pad: usize,
    across: usize,
    w: usize,
    p: usize,
) -> (cell: T)
    requires
        slides(m@, width as int, stride as int, pad as int),
        m@.rows + 2 * pad <= usize::MAX,
        across == cal_shape_spec(m@.rows as int, width as int, stride as int, pad as int),
        w < across * across,
        p < width * width,
    ensures
        cell == window_cell(m@, width as int, stride as int, pad as int, w as int, p as int),
{
    proof {
        lemma_across(m@.rows as int, width as int, stride as int, pad as int);
        lemma_window_cell_in_range(m@.rows as int, width as int, stride as int, pad as int, w as int, p as int);
        lemma_cell_position(across as int, across as int, w as int);
        assert(0 <= (w / across) * stride) by (nonlinear_arith)
            requires
                0 <= w / across,
                0 <= stride,
        ;
        assert(0 <= (w % across) * stride) by (nonlinear_arith)
            requires
                0 <= w % across,
                0 <= stride,
        ;
    }
    let r: usize = (w / across) * stride + p / width;
    let c: usize = (w % across) * stride + p % width;
    padded_get(m, pad, r, c)
}

/// The views of the lines of a nested vector.
pub open spec fn lines_view<T>(lines: Seq<Vec<T>>) -> Seq<Seq<T>> {
    Seq::new(lines.len(), |i: int| lines[i]@)
}

/// All windows of `width` cells that start `stride` cells apart in the matrix padded
/// with `padding` zeros, each as the list of its cells.
pub fn flip_matrix<T: Scalar>(matrix: &Matrix<T>, width: usize, stride: usize, padding: usize) -> (windows: Vec<Vec<T>>)
    requires
        slides(matrix@, width as int, stride as int, padding as int),
        matrix@.rows + 2 * padding <= usize::MAX,
        width * width <= usize::MAX,
        cal_shape_spec(matrix@.rows as int, width as int, stride as int, padding as int) * cal_shape_spec(
            matrix@.rows as int,
            width as int,
            stride as int,
            padding as int,
        ) <= usize::MAX,
    ensures
        lines_view(windows@) == flip_matrix_spec(matrix@, width as int, stride as int, padding as int),
{
    proof {
        lemma_across(matrix@.rows as int, width as int, stride as int, padding as int);
    }
    let across: usize = cal_shape(matrix.rows(), width, stride, padding);
    assert(across <= across * across) by (nonlinear_arith)
        requires
            across >= 1,
    ;
    let count: usize = across * across;
    let cells: usize = width * width;
    let mut windows: Vec<Vec<T>> = Vec::new();
    let mut w: usize = 0;
    while w < count
        invariant
            slides(matrix@, width as int, stride as int, padding as int),
            matrix@.rows + 2 * padding <= usize::MAX,
            across == cal_shape_spec(matrix@.rows as int, width as int, stride as int, padding as int),
            count == across * across,
            cells == width * width,
            w <= count,
            windows@.len() == w,
            forall|i: int|
                0 <= i < w ==> (#[trigger] windows@[i])@ == window_spec(
                    matrix@,
                    width as int,
                    stride as int,
                    padding as int,
                    i,
                ),
        decreases count - w,
    {
        let mut window: Vec<T> = Vec::new();
        let mut p: usize = 0;
        while p < cells
            invariant
                slides(matrix@, width as int, stride as int, padding as int),
                matrix@.rows + 2 * padding <= usize::MAX,
                across == cal_shape_spec(matrix@.rows as int, width as int, stride as int, padding as int),
                w < across * across,
                cells == width * width,
                p <= cells,
                window@.len() == p,
                forall|i: int|
                    0 <= i < p ==> window@[i] == window_cell(
                        matrix@,
                        width as int,
                        stride as int,
                        padding as int,
                        w as int,
                        i,
                    ),
            decreases cells - p,
        {
            window.push(window_get(matrix, width, stride, padding, across, w, p));
            p = p + 1;
        }
        assert(window@ =~= window_spec(matrix@, width as int, stride as int, padding as int, w as int));
        windows.push(window);
        w = w + 1;
    }
    assert(lines_view(windows@) =~= flip_matrix_spec(matrix@, width as int, stride as int, padding as int));
    windows
}

/// The windows of the padded matrix as the rows of one matrix.
pub fn im2col<T: Scalar>(matrix: &Matrix<T>, width: usize, stride: usize, padding: usize) -> (out: Matrix<T>)
    requires
        slides(matrix@, width as int, stride as int, padding as int),
        matrix@.rows + 2 * padding <= usize::MAX,
        cal_shape_spec(matrix@.rows as int, width as int, stride as int, padding as int) * cal_shape_spec(
            matrix@.rows as int,
            width as int,
            stride as int,
            padding as int,
        ) * (width * width) <= usize::MAX,
    ensures
        out@ == im2col_spec(matrix@, width as int, stride as int, padding as int),
{
    proof {
        lemma_across(matrix@.rows as int, width as int, stride as int, padding as int);
    }
    let across: usize = cal_shape(matrix.rows(), width, stride, padding);
    proof {
        lemma_sizes(across as int, width as int);
    }
    let count: usize = across * across;
    let cells: usize = width * width;
    let total: usize = count * cells;
    let mut data: Vec<T> = Vec::new();
    let mut k: usize = 0;
    while k < total
        invariant
            slides(matrix@, width as int, stride as int, padding as int),
            matrix@.rows + 2 * padding <= usize::MAX,
            across == cal_shape_spec(matrix@.rows as int, width as int, stride as int, padding as int),
            count == across * across,
            cells == width * width,
            total == count * cells,
            k <= total,
            data@.len() == k,
            forall|i: int|
                0 <= i < k ==> data@[i] == window_cell(
                    matrix@,
                    width as int,
                    stride as int,
                    padding as int,
                    i / (width * width),
                    i % (width * width),
                ),
        decreases total - k,
    {
        proof {
            lemma_cell_position(count as int, cells as int, k as int);
        }
        data.push(window_get(matrix, width, stride, padding, across, k / cells, k % cells));
        k = k + 1;
    }
    assert(data@ =~= im2col_spec(matrix@, width as int, stride as int, padding as int).cells);
    Matrix::from_cells(count, cells, data)
}

/// Where the product of two squares fits into a machine word, so does each square.
pub proof fn lemma_sizes(across: int, width: int)
    requires
        across >= 1,
        width >= 1,
    ensures
        across * across >= 1,
        width * width >= 1,
        across * across <= across * across * (width * width),
        width * width <= across * across * (width * width),
        across <= across * across,
        width <= width * width,
{
    assert(across * across >= 1 && across <= across * across) by (nonlinear_arith)
        requires
            across >= 1,
    ;
    assert(width * width >= 1 && width <= width * width) by (nonlinear_arith)
        requires
            width >= 1,
    ;
    let a = across * across;
    let b = width * width;
    assert(a <= a * b && b <= a * b) by (nonlinear_arith)
        requires
            a >= 1,
            b >= 1,
    ;
}

/// The cells of a filter of `width` by `width` cells as one column.
pub fn im2col_filter<T: Copy>(filter: &Matrix<T>, width: usize) -> (out: Matrix<T>)
    requires
        filter@.cells.len() == width * width,
    ensures
        out@ == im2col_filter_spec(filter@, width as int),
{
    let cells: usize = filter.len();
    assert(cells * 1 == cells);
    filter.copied().reshaped(cells, 1)
}

/// The windows of `filter_width` cells that start one cell apart in the matrix without
/// padding, one after the other, under the shape of `filter_width²` rows and `width²`
/// columns.
pub fn im2col_input<T: Scalar>(input: &Matrix<T>, width: usize, filter_width: usize) -> (out: Matrix<T>)
    requires
        slides(input@, filter_width as int, 1, 0),
        width == cal_shape_spec(input@.rows as int, filter_width as int, 1, 0),
        width * width * (filter_width * filter_width) <= usize::MAX,
    ensures
        out@ == (Grid {
            rows: (filter_width * filter_width) as nat,
            cols: (width * width) as nat,
            cells: im2col_spec(input@, filter_width as int, 1, 0).cells,
        }),
{
    let rows: usize = input.rows();
    proof {
        lemma_across(input@.rows as int, filter_width as int, 1, 0);
        lemma_sizes(width as int, filter_width as int);
        assert((filter_width * filter_width) * (width * width) == (width * width) * (filter_width
            * filter_width)) by (nonlinear_arith);
    }
    let unrolled: Matrix<T> = im2col(input, filter_width, 1, 0);
    unrolled.reshaped(filter_width * filter_width, width * width)
}

/// The cross-correlation of `filter` over `input`, padded with `padding` zeros on every
/// side, at windows that start `stride` cells apart.
pub fn _convolution<T: Scalar>(filter: &Matrix<T>, input: &Matrix<T>, stride: usize, padding: usize) -> (out: Matrix<T>)
    requires
        filter@.rows == filter@.cols,
        slides(input@, filter@.rows as int, stride as int, padding as int),
        input@.rows + 2 * padding <= usize::MAX,
        cal_shape_spec(input@.rows as int, filter@.rows as int, stride as int, padding as int) * cal_shape_spec(
            input@.rows as int,
            filter@.rows as int,
            stride as int,
            padding as int,
        ) * (filter@.rows * filter@.rows) <= usize::MAX,
    ensures
        out@ == convolution_spec(filter@, input@, stride as int, padding as int),
        out@.wf(),
        out@.rows == (input@.rows - filter@.rows + 2 * padding) / (stride as int) + 1,
        out@.cols == out@.rows,
{
    let filter_width: usize = filter.rows();
    let filter_cols: usize = filter.cols();
    let filter_cells: usize = filter.len();
    let input_width: usize = input.rows();
    proof {
        lemma_across(input@.rows as int, filter_width as int, stride as int, padding as int);
    }
    let output_width: usize = cal_shape(input_width, filter_width, stride, padding);
    proof {
        lemma_sizes(output_width as int, filter_width as int);
    }
    let unrolled: Matrix<T> = im2col(input, filter_width, stride, padding);
    let column: Matrix<T> = im2col_filter(filter, filter_width);
    assert(output_width * output_width * 1 == output_width * output_width) by (nonlinear_arith);
    let flat: Matrix<T> = product(&unrolled, &column);
    let out: Matrix<T> = flat.reshaped(output_width, output_width);
    let rows: usize = out.rows();
    out
}

} // verus!
