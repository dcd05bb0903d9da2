//! Max pooling: the largest cell of every window, where it was found, and how a
//! gradient goes back to where the largest cells were.

use crate::batch::{batch_shaped, have_same_counts, is_batch_shaped, same_counts, sample_shaped};
use crate::error::NetError;
use crate::matrix::{filled_spec, lemma_cell_number, lemma_cell_position, lemma_grid_ext, Grid, Matrix};
use crate::scalar::{ExactSum, Scalar};
use crate::shape::{_restore_max_index, cal_shape, cal_shape_spec, data_check_spec, restore_max_index_spec, DATA_CHECK};
use crate::window::{
    lemma_across,
    lemma_sizes,
    lemma_window_cell_in_range,
    padded_cell,
    padding_spec,
    slides,
    window_cell,
    window_get,
};
use vstd::prelude::*;

verus! {

/// Among the first `n` cells of window `w`, the number of the first that none of them
/// exceeds.
pub open spec fn best_spec<T: Scalar>(m: Grid<T>, width: int, stride: int, pad: int, w: int, n: nat) -> int
    decreases n,
{
    if n <= 1 {
        0
    } else {
        let before = best_spec(m, width, stride, pad, w, (n - 1) as nat);
        if window_cell(m, width, stride, pad, w, n - 1).exceeds_spec(window_cell(m, width, stride, pad, w, before)) {
            n - 1
        } else {
            before
        }
    }
}

/// The largest cell of every window.
pub open spec fn max_pool_spec<T: Scalar>(m: Grid<T>, width: int, stride: int, pad: int) -> Grid<T> {
    let across = cal_shape_spec(m.rows as int, width, stride, pad);
    Grid {
        rows: across as nat,
        cols: across as nat,
        cells: Seq::new(
            (across * across) as nat,
            |w: int| window_cell(m, width, stride, pad, w, best_spec(m, width, stride, pad, w, (width * width) as nat)),
        ),
    }
}

/// For every window, the cell number in the padded matrix of its largest cell.
pub open spec fn max_positions_spec<T: Scalar>(m: Grid<T>, width: int, stride: int, pad: int) -> Seq<usize> {
    let across = cal_shape_spec(m.rows as int, width, stride, pad);
    Seq::new(
        (across * across) as nat,
        |w: int|
            restore_max_index_spec(
                across,
                w,
                best_spec(m, width, stride, pad, w, (width * width) as nat),
                stride,
                m.rows + 2 * pad,
                width,
            ) as usize,
    )
}

/// `base` after the first `n` of `values` were written to it, one after the other, each
/// at its position.
pub open spec fn scatter_spec<T>(base: Seq<T>, positions: Seq<usize>, values: Seq<T>, n: nat) -> Seq<T>
    decreases n,
{
    if n == 0 {
        base
    } else {
        scatter_spec(base, positions, values, (n - 1) as nat).update(positions[n - 1] as int, values[n - 1])
    }
}

/// The square grid of zeros with each cell of `delta` written at its position.
pub open spec fn upsample_spec<T: Scalar>(delta: Grid<T>, positions: Seq<usize>, input_width: nat) -> Grid<T> {
    Grid {
        rows: input_width,
        cols: input_width,
        cells: scatter_spec(
            filled_spec(input_width, input_width, T::zero_spec()).cells,
            positions,
            delta.cells,
            delta.cells.len(),
        ),
    }
}

/// The grid without its outer `pad` rows and columns on every side.
pub open spec fn crop_spec<T>(m: Grid<T>, pad: nat) -> Grid<T> {
    Grid {
        rows: (m.rows - 2 * pad) as nat,
        cols: (m.cols - 2 * pad) as nat,
        cells: Seq::new(
            ((m.rows - 2 * pad) * (m.cols - 2 * pad)) as nat,
            |k: int| m.at(k / (m.cols - 2 * pad) + pad, k % (m.cols - 2 * pad) + pad),
        ),
    }
}

/// The best cell so far is one of the cells seen.
pub proof fn lemma_best_in_range<T: Scalar>(m: Grid<T>, width: int, stride: int, pad: int, w: int, n: nat)
    requires
        n >= 1,
    ensures
        0 <= best_spec(m, width, stride, pad, w, n) < n,
    decreases n,
{
    if n > 1 {
        lemma_best_in_range(m, width, stride, pad, w, (n - 1) as nat);
    }
}

/// None of the cells seen exceeds the best cell so far.
pub proof fn lemma_best_is_not_exceeded<T: Scalar>(
    m: Grid<T>,
    width: int,
    stride: int,
    pad: int,
    w: int,
    n: nat,
    p: int,
)
    requires
        0 <= p < n,
    ensures
        !window_cell(m, width, stride, pad, w, p).exceeds_spec(
            window_cell(m, width, stride, pad, w, best_spec(m, width, stride, pad, w, n)),
        ),
    decreases n,
{
    let first = window_cell(m, width, stride, pad, w, 0);
    if n <= 1 {
        T::lemma_exceeds_irreflexive(first);
    } else {
        let before = best_spec(m, width, stride, pad, w, (n - 1) as nat);
        let held = window_cell(m, width, stride, pad, w, before);
        let last = window_cell(m, width, stride, pad, w, n - 1);
        let asked = window_cell(m, width, stride, pad, w, p);
        if last.exceeds_spec(held) {
            if p == n - 1 {
                T::lemma_exceeds_irreflexive(last);
            } else {
                lemma_best_is_not_exceeded(m, width, stride, pad, w, (n - 1) as nat, p);
                T::lemma_exceeds_chain(held, last, asked);
            }
        } else {
            if p < n - 1 {
                lemma_best_is_not_exceeded(m, width, stride, pad, w, (n - 1) as nat, p);
            }
        }
    }
}

/// What max pooling reports for a window is the cell of the padded matrix at the
/// position it reports, that position lies in the padded matrix, and no cell of the
/// window exceeds it.
pub proof fn lemma_max_pool_reports_maximum<T: Scalar>(
    m: Grid<T>,
    width: int,
    stride: int,
    pad: int,
    w: int,
    p: int,
)
    requires
        slides(m, width, stride, pad),
        0 <= w < cal_shape_spec(m.rows as int, width, stride, pad) * cal_shape_spec(
            m.rows as int,
            width,
            stride,
            pad,
        ),
        0 <= p < width * width,
        (m.rows + 2 * pad) * (m.rows + 2 * pad) <= usize::MAX,
    ensures
        0 <= max_positions_spec(m, width, stride, pad)[w] < (m.rows + 2 * pad) * (m.rows + 2 * pad),
        padding_spec(m, pad as nat).cells[max_positions_spec(m, width, stride, pad)[w] as int] == max_pool_spec(
            m,
            width,
            stride,
            pad,
        ).cells[w],
        !window_cell(m, width, stride, pad, w, p).exceeds_spec(max_pool_spec(m, width, stride, pad).cells[w]),
{
    let across = cal_shape_spec(m.rows as int, width, stride, pad);
    let side = m.rows + 2 * pad;
    let cells = (width * width) as nat;
    let best = best_spec(m, width, stride, pad, w, cells);
    lemma_best_in_range(m, width, stride, pad, w, cells);
    lemma_best_is_not_exceeded(m, width, stride, pad, w, cells, p);
    lemma_window_cell_in_range(m.rows as int, width, stride, pad, w, best);
    let row = w / across * stride + best / width;
    let col = w % across * stride + best % width;
    lemma_cell_number(side, side, row, col);
}

/// Cropping what was padded gives the grid back.
pub proof fn lemma_crop_undoes_padding<T: Scalar>(m: Grid<T>, pad: nat)
    requires
        m.wf(),
    ensures
        crop_spec(padding_spec(m, pad), pad) == m,
{
    let padded = padding_spec(m, pad);
    let back = crop_spec(padded, pad);
    assert(back.rows == m.rows && back.cols == m.cols);
    assert forall|r: int, c: int| 0 <= r < m.rows && 0 <= c < m.cols implies back.at(r, c) == m.at(r, c) by {
        lemma_cell_number(m.rows as int, m.cols as int, r, c);
        lemma_cell_number(padded.rows as int, padded.cols as int, r + pad, c + pad);
    }
    lemma_grid_ext(back, m);
}

/// No two of the first `n` positions are the same.
pub open spec fn distinct(positions: Seq<usize>, n: nat) -> bool {
    forall|i: int, j: int| 0 <= i < n && 0 <= j < n && i != j ==> positions[i] != positions[j]
}

/// The sum of the first `n` items, added from the left, starting from zero.
pub open spec fn cells_sum<T: Scalar>(cells: Seq<T>, n: nat) -> T
    decreases n,
{
    if n == 0 {
        T::zero_spec()
    } else {
        cells_sum(cells, (n - 1) as nat).plus_spec(cells[n - 1])
    }
}

/// Where no two positions are the same, scattering puts every value at its position and
/// leaves every other item as it was.
pub proof fn lemma_scatter_places<T>(base: Seq<T>, positions: Seq<usize>, values: Seq<T>, n: nat)
    requires
        n <= values.len(),
        n <= positions.len(),
        forall|i: int| 0 <= i < n ==> positions[i] < base.len(),
        distinct(positions, n),
    ensures
        scatter_spec(base, positions, values, n).len() == base.len(),
        forall|i: int| 0 <= i < n ==> scatter_spec(base, positions, values, n)[positions[i] as int] == values[i],
        forall|q: int|
            0 <= q < base.len() && (forall|i: int| 0 <= i < n ==> positions[i] != q) ==> scatter_spec(
                base,
                positions,
                values,
                n,
            )[q] == base[q],
    decreases n,
{
    if n > 0 {
        lemma_scatter_places(base, positions, values, (n - 1) as nat);
        let before = scatter_spec(base, positions, values, (n - 1) as nat);
        let after = scatter_spec(base, positions, values, n);
        assert forall|i: int| 0 <= i < n implies after[positions[i] as int] == values[i] by {
            if i < n - 1 {
                assert(positions[i] != positions[n - 1]);
            }
        }
        assert forall|q: int| 0 <= q < base.len() && (forall|i: int| 0 <= i < n ==> positions[i] != q) implies after[q]
            == base[q] by {
            assert(positions[n - 1] != q);
            assert(forall|i: int| 0 <= i < n - 1 ==> #[trigger] positions[i] != q);
        }
    }
}

/// The sum of a list of zeros is zero.
pub proof fn lemma_sum_of_zeros<T: ExactSum>(cells: Seq<T>, n: nat)
    requires
        n <= cells.len(),
        forall|i: int| 0 <= i < n ==> cells[i] == T::zero_spec(),
    ensures
        cells_sum(cells, n) == T::zero_spec(),
    decreases n,
{
    if n > 0 {
        lemma_sum_of_zeros(cells, (n - 1) as nat);
        T::lemma_plus_zero(T::zero_spec());
    }
}

/// Writing a value over a zero adds the value to the sum.
pub proof fn lemma_sum_after_update<T: ExactSum>(cells: Seq<T>, at: int, value: T, n: nat)
    requires
        n <= cells.len(),
        0 <= at < cells.len(),
        cells[at] == T::zero_spec(),
    ensures
        cells_sum(cells.update(at, value), n) == if at < n {
            cells_sum(cells, n).plus_spec(value)
        } else {
            cells_sum(cells, n)
        },
    decreases n,
{
    if n > 0 {
        lemma_sum_after_update(cells, at, value, (n - 1) as nat);
        let before = cells_sum(cells, (n - 1) as nat);
        if at == n - 1 {
            T::lemma_plus_zero(before);
        } else if at < n - 1 {
            T::lemma_plus_associates(before, value, cells[n - 1]);
            T::lemma_plus_commutes(value, cells[n - 1]);
            T::lemma_plus_associates(before, cells[n - 1], value);
        }
    }
}

/// Where no two positions are the same, the scattered values add up to the same sum in
/// a list of zeros as they do by themselves.
pub proof fn lemma_scatter_keeps_sum<T: ExactSum>(base: Seq<T>, positions: Seq<usize>, values: Seq<T>, n: nat)
    requires
        n <= values.len(),
        n <= positions.len(),
        forall|i: int| 0 <= i < n ==> positions[i] < base.len(),
        forall|q: int| 0 <= q < base.len() ==> base[q] == T::zero_spec(),
        distinct(positions, n),
    ensures
        cells_sum(scatter_spec(base, positions, values, n), base.len()) == cells_sum(values, n),
    decreases n,
{
    if n == 0 {
        lemma_sum_of_zeros(base, base.len());
    } else {
        lemma_scatter_keeps_sum(base, positions, values, (n - 1) as nat);
        lemma_scatter_places(base, positions, values, (n - 1) as nat);
        let before = scatter_spec(base, positions, values, (n - 1) as nat);
        assert(forall|i: int| 0 <= i < n - 1 ==> #[trigger] positions[i] != positions[n - 1]);
        assert(before[positions[n - 1] as int] == base[positions[n - 1] as int]);
        lemma_sum_after_update(before, positions[n - 1] as int, values[n - 1], base.len());
    }
}

/// Upsampling puts every cell of the gradient at its position and zero everywhere else,
/// where no two positions are the same.
pub proof fn lemma_upsample_places<T: Scalar>(delta: Grid<T>, positions: Seq<usize>, input_width: nat)
    requires
        delta.cells.len() <= positions.len(),
        forall|i: int| 0 <= i < delta.cells.len() ==> positions[i] < input_width * input_width,
        distinct(positions, delta.cells.len()),
    ensures
        upsample_spec(delta, positions, input_width).wf(),
        forall|i: int|
            0 <= i < delta.cells.len() ==> upsample_spec(delta, positions, input_width).cells[positions[i] as int]
                == delta.cells[i],
        forall|q: int|
            0 <= q < input_width * input_width && (forall|i: int| 0 <= i < delta.cells.len() ==> positions[i] != q)
                ==> upsample_spec(delta, positions, input_width).cells[q] == T::zero_spec(),
{
    let base = filled_spec(input_width, input_width, T::zero_spec()).cells;
    let up = upsample_spec(delta, positions, input_width);
    lemma_scatter_places(base, positions, delta.cells, delta.cells.len());
    assert forall|q: int|
        0 <= q < input_width * input_width && (forall|i: int|
            0 <= i < delta.cells.len() ==> positions[i] != q) implies up.cells[q] == T::zero_spec() by {
        assert(up.cells[q] == base[q]);
    }
}

/// Upsampling keeps the sum of the gradient, where no two positions are the same and
/// sums do not depend on the order of their terms.
pub proof fn lemma_upsample_keeps_sum<T: ExactSum>(delta: Grid<T>, positions: Seq<usize>, input_width: nat)
    requires
        delta.cells.len() <= positions.len(),
        forall|i: int| 0 <= i < delta.cells.len() ==> positions[i] < input_width * input_width,
        distinct(positions, delta.cells.len()),
    ensures
        cells_sum(upsample_spec(delta, positions, input_width).cells, input_width * input_width) == cells_sum(
            delta.cells,
            delta.cells.len(),
        ),
{
    let base = filled_spec(input_width, input_width, T::zero_spec()).cells;
    lemma_scatter_keeps_sum(base, positions, delta.cells, delta.cells.len());
}

/// Windows that do not overlap have their largest cells at different positions.
pub proof fn lemma_max_positions_distinct<T: Scalar>(m: Grid<T>, width: int, stride: int, pad: int)
    requires
        slides(m, width, stride, pad),
        stride >= width,
        (m.rows + 2 * pad) * (m.rows + 2 * pad) <= usize::MAX,
    ensures
        distinct(max_positions_spec(m, width, stride, pad), max_positions_spec(m, width, stride, pad).len()),
{
    let across = cal_shape_spec(m.rows as int, width, stride, pad);
    let side = m.rows + 2 * pad;
    let cells = (width * width) as nat;
    let positions = max_positions_spec(m, width, stride, pad);
    lemma_across(m.rows as int, width, stride, pad);
    lemma_sizes(across, width);
    assert forall|i: int, j: int| 0 <= i < positions.len() && 0 <= j < positions.len() && i != j implies positions[i]
        != positions[j] by {
        let bi = best_spec(m, width, stride, pad, i, cells);
        let bj = best_spec(m, width, stride, pad, j, cells);
        lemma_best_in_range(m, width, stride, pad, i, cells);
        lemma_best_in_range(m, width, stride, pad, j, cells);
        lemma_window_cell_in_range(m.rows as int, width, stride, pad, i, bi);
        lemma_window_cell_in_range(m.rows as int, width, stride, pad, j, bj);
        lemma_cell_position(across, across, i);
        lemma_cell_position(across, across, j);
        lemma_cell_position(width, width, bi);
        lemma_cell_position(width, width, bj);
        let ri = i / across * stride + bi / width;
        let ci = i % across * stride + bi % width;
        let rj = j / across * stride + bj / width;
        let cj = j % across * stride + bj % width;
        lemma_cell_number(side, side, ri, ci);
        lemma_cell_number(side, side, rj, cj);
        if positions[i] == positions[j] {
            assert(ri == rj && ci == cj);
            vstd::arithmetic::div_mod::lemma_fundamental_div_mod_converse(ri, stride, i / across, bi / width);
            vstd::arithmetic::div_mod::lemma_fundamental_div_mod_converse(rj, stride, j / across, bj / width);
            vstd::arithmetic::div_mod::lemma_fundamental_div_mod_converse(ci, stride, i % across, bi % width);
            vstd::arithmetic::div_mod::lemma_fundamental_div_mod_converse(cj, stride, j % across, bj % width);
            assert(i / across == j / across);
            assert(i % across == j % across);
            assert(false);
        }
    }
}

/// Upsampling after max pooling, where the windows do not overlap: every cell of the
/// gradient comes to lie at the position that max pooling reported for its window, every
/// other cell of the upsampled matrix is zero, and, where sums do not depend on the
/// order of their terms, the upsampled matrix has the sum of the gradient.
pub proof fn lemma_upsample_after_max_pool<T: ExactSum>(m: Grid<T>, delta: Grid<T>, width: int, stride: int, pad: int)
    requires
        slides(m, width, stride, pad),
        stride >= width,
        (m.rows + 2 * pad) * (m.rows + 2 * pad) <= usize::MAX,
        delta.cells.len() == max_positions_spec(m, width, stride, pad).len(),
    ensures
        forall|w: int|
            0 <= w < delta.cells.len() ==> upsample_spec(
                delta,
                max_positions_spec(m, width, stride, pad),
                (m.rows + 2 * pad) as nat,
            ).cells[max_positions_spec(m, width, stride, pad)[w] as int] == delta.cells[w],
        forall|q: int|
            0 <= q < (m.rows + 2 * pad) * (m.rows + 2 * pad) && (forall|w: int|
                0 <= w < delta.cells.len() ==> max_positions_spec(m, width, stride, pad)[w] != q) ==> #[trigger] upsample_spec(
                delta,
                max_positions_spec(m, width, stride, pad),
                (m.rows + 2 * pad) as nat,
            ).cells[q] == T::zero_spec(),
        cells_sum(
            upsample_spec(delta, max_positions_spec(m, width, stride, pad), (m.rows + 2 * pad) as nat).cells,
            ((m.rows + 2 * pad) * (m.rows + 2 * pad)) as nat,
        ) == cells_sum(delta.cells, delta.cells.len()),
{
    let positions = max_positions_spec(m, width, stride, pad);
    let side = (m.rows + 2 * pad) as nat;
    lemma_across(m.rows as int, width, stride, pad);
    lemma_sizes(cal_shape_spec(m.rows as int, width, stride, pad), width);
    lemma_max_positions_distinct(m, width, stride, pad);
    assert forall|i: int| 0 <= i < delta.cells.len() implies positions[i] < side * side by {
        lemma_max_pool_reports_maximum(m, width, stride, pad, i, 0);
    }
    lemma_upsample_places(delta, positions, side);
    lemma_upsample_keeps_sum(delta, positions, side);
}

/// The largest cell of every window of the padded matrix, and for each window the cell
/// number of that cell in the padded matrix. Of several largest cells of a window the
/// first one, row by row, is reported.
pub fn _max_pool<T: Scalar>(
    input: &Matrix<T>,
    width: usize,
    stride: usize,
    padding: usize,
    input_width: usize,
) -> (pooled: (Matrix<T>, Vec<usize>))
    requires
        slides(input@, width as int, stride as int, padding as int),
        input_width == input@.rows,
        (input_width + 2 * padding) * (input_width + 2 * padding) <= usize::MAX,
    ensures
        pooled.0@ == max_pool_spec(input@, width as int, stride as int, padding as int),
        pooled.1@ == max_positions_spec(input@, width as int, stride as int, padding as int),
{
    let ghost side = input_width + 2 * padding;
    proof {
        lemma_across(input@.rows as int, width as int, stride as int, padding as int);
        assert(side <= side * side) by (nonlinear_arith)
            requires
                side >= 1,
        ;
    }
    let length: usize = input_width + 2 * padding;
    let output_width: usize = cal_shape(input_width, width, stride, padding);
    proof {
        lemma_sizes(output_width as int, width as int);
        assert(output_width * output_width <= side * side) by (nonlinear_arith)
            requires
                0 <= output_width <= side,
        ;
        assert(width * width <= side * side) by (nonlinear_arith)
            requires
                0 <= width <= side,
        ;
    }
    let count: usize = output_width * output_width;
    let cells: usize = width * width;
    let mut values: Vec<T> = Vec::new();
    let mut indices: Vec<usize> = Vec::new();
    let mut w: usize = 0;
    while w < count
        invariant
            slides(input@, width as int, stride as int, padding as int),
            input_width == input@.rows,
            length == input_width + 2 * padding,
            length * length <= usize::MAX,
            output_width == cal_shape_spec(input@.rows as int, width as int, stride as int, padding as int),
            count == output_width * output_width,
            cells == width * width,
            cells >= 1,
            w <= count,
            values@.len() == w,
            indices@.len() == w,
            forall|i: int|
                0 <= i < w ==> values@[i] == window_cell(
                    input@,
                    width as int,
                    stride as int,
                    padding as int,
                    i,
                    best_spec(input@, width as int, stride as int, padding as int, i, cells as nat),
                ),
            forall|i: int|
                0 <= i < w ==> indices@[i] == restore_max_index_spec(
                    output_width as int,
                    i,
                    best_spec(input@, width as int, stride as int, padding as int, i, cells as nat),
                    stride as int,
                    length as int,
                    width as int,
                ) as usize,
        decreases count - w,
    {
        let mut best: usize = 0;
        let mut held: T = window_get(input, width, stride, padding, output_width, w, 0);
        let mut p: usize = 1;
        while p < cells
            invariant
                slides(input@, width as int, stride as int, padding as int),
                input@.rows + 2 * padding <= usize::MAX,
                output_width == cal_shape_spec(input@.rows as int, width as int, stride as int, padding as int),
                w < output_width * output_width,
                cells == width * width,
                1 <= p <= cells,
                best == best_spec(input@, width as int, stride as int, padding as int, w as int, p as nat),
                held == window_cell(input@, width as int, stride as int, padding as int, w as int, best as int),
            decreases cells - p,
        {
            let cell: T = window_get(input, width, stride, padding, output_width, w, p);
            if cell.exceeds(held) {
                best = p;
                held = cell;
            }
            p = p + 1;
        }
        proof {
            lemma_best_in_range(input@, width as int, stride as int, padding as int, w as int, cells as nat);
            lemma_window_cell_in_range(
                input@.rows as int,
                width as int,
                stride as int,
                padding as int,
                w as int,
                best as int,
            );
            lemma_cell_number(
                length as int,
                length as int,
                w / output_width * stride + best / width,
                w % output_width * stride + best % width,
            );
        }
        values.push(held);
        indices.push(_restore_max_index(output_width, (w, best), stride, length, width));
        w = w + 1;
    }
    assert(values@ =~= max_pool_spec(input@, width as int, stride as int, padding as int).cells);
    assert(indices@ =~= max_positions_spec(input@, width as int, stride as int, padding as int));
    (Matrix::from_cells(output_width, output_width, values), indices)
}

/// The square matrix of zeros of `input_width` rows in which each cell of `delta` is
/// written at its position; where two cells have one position, the later one stays.
pub fn _upsample<T: Scalar>(delta: &Matrix<T>, positions: &Vec<usize>, input_width: usize) -> (out: Matrix<T>)
    requires
        input_width * input_width <= usize::MAX,
        delta@.cells.len() <= positions@.len(),
        forall|i: int| 0 <= i < delta@.cells.len() ==> positions@[i] < input_width * input_width,
    ensures
        out@ == upsample_spec(delta@, positions@, input_width as nat),
{
    let count: usize = delta.len();
    let mut output: Vec<T> = Matrix::filled(input_width, input_width, T::zero()).into_vec();
    let ghost base = output@;
    let mut i: usize = 0;
    while i < count
        invariant
            count == delta@.cells.len(),
            count <= positions@.len(),
            forall|j: int| 0 <= j < delta@.cells.len() ==> positions@[j] < input_width * input_width,
            i <= count,
            output@.len() == input_width * input_width,
            output@ == scatter_spec(base, positions@, delta@.cells, i as nat),
        decreases count - i,
    {
        output.set(positions[i], delta.cell(i));
        i = i + 1;
    }
    Matrix::from_cells(input_width, input_width, output)
}

/// The matrix without its outer `pad` rows and columns on every side.
pub fn crop<T: Copy>(matrix: &Matrix<T>, pad: usize) -> (out: Matrix<T>)
    requires
        2 * pad <= matrix@.rows,
        2 * pad <= matrix@.cols,
    ensures
        out@ == crop_spec(matrix@, pad as nat),
{
    let rows: usize = matrix.rows() - 2 * pad;
    let cols: usize = matrix.cols() - 2 * pad;
    let held: usize = matrix.len();
    assert(rows * cols <= matrix@.rows * matrix@.cols) by (nonlinear_arith)
        requires
            0 <= rows <= matrix@.rows,
            0 <= cols <= matrix@.cols,
    ;
    let total: usize = rows * cols;
    let mut data: Vec<T> = Vec::new();
    let mut k: usize = 0;
    while k < total
        invariant
            rows == matrix@.rows - 2 * pad,
            cols == matrix@.cols - 2 * pad,
            matrix@.rows <= usize::MAX,
            matrix@.cols <= usize::MAX,
            total == rows * cols,
            k <= total,
            data@.len() == k,
            forall|i: int| 0 <= i < k ==> data@[i] == matrix@.at(i / cols as int + pad, i % cols as int + pad),
        decreases total - k,
    {
        proof {
            lemma_cell_position(rows as int, cols as int, k as int);
        }
        data.push(matrix.get(k / cols + pad, k % cols + pad));
        k = k + 1;
    }
    assert(data@ =~= crop_spec(matrix@, pad as nat).cells);
    Matrix::from_cells(rows, cols, data)
}

/// What a pooling layer is made of.
pub ghost struct PoolView {
    pub width: nat,
    pub stride: nat,
    pub padding: nat,
    pub boundary: nat,
    pub out_channel: nat,
    pub input_width: nat,
}

impl PoolView {
    /// The window is not empty, the geometry divides evenly, and the padded input has
    /// no more cells than a machine word can count.
    pub open spec fn wf(self) -> bool {
        &&& self.width > 0
        &&& data_check_spec(self.input_width as int, self.width as int, self.padding as int, self.stride as int)
        &&& (self.input_width + 2 * self.padding) * (self.input_width + 2 * self.padding) <= usize::MAX
    }

    /// The width of the square matrices that the layer gives.
    pub open spec fn output_width(self) -> int {
        cal_shape_spec(self.input_width as int, self.width as int, self.stride as int, self.padding as int)
    }

    /// The layer takes batches of square matrices of its input width.
    pub open spec fn accepts<T>(self, inputs: Seq<Seq<Grid<T>>>) -> bool {
        batch_shaped(inputs, self.input_width as int, self.input_width as int)
    }

    /// The largest cell of every window of one matrix.
    pub open spec fn pooled<T: Scalar>(self, m: Grid<T>) -> Grid<T> {
        max_pool_spec(m, self.width as int, self.stride as int, self.padding as int)
    }

    /// Where, in the padded matrix, the largest cell of every window of one matrix lies.
    pub open spec fn positions<T: Scalar>(self, m: Grid<T>) -> Seq<usize> {
        max_positions_spec(m, self.width as int, self.stride as int, self.padding as int)
    }

    /// Every channel of the sample pooled.
    pub open spec fn sample_forward<T: Scalar>(self, sample: Seq<Grid<T>>) -> Seq<Grid<T>> {
        Seq::new(sample.len(), |c: int| self.pooled(sample[c]))
    }

    /// The positions of the largest cells, for every channel of the sample.
    pub open spec fn sample_positions<T: Scalar>(self, sample: Seq<Grid<T>>) -> Seq<Seq<usize>> {
        Seq::new(sample.len(), |c: int| self.positions(sample[c]))
    }

    /// Every channel of every sample pooled.
    pub open spec fn forward_spec<T: Scalar>(self, inputs: Seq<Seq<Grid<T>>>) -> Seq<Seq<Grid<T>>> {
        Seq::new(inputs.len(), |s: int| self.sample_forward(inputs[s]))
    }

    /// The gradient of one channel taken back to the input: each of its cells at the
    /// position of the largest cell of its window, zero everywhere else, and the
    /// padding cut off.
    pub open spec fn routed<T: Scalar>(self, delta: Grid<T>, positions: Seq<usize>) -> Grid<T> {
        crop_spec(upsample_spec(delta, positions, self.input_width + 2 * self.padding), self.padding)
    }

    /// The gradients of one sample taken back, channel by channel.
    pub open spec fn sample_backward<T: Scalar>(self, deltas: Seq<Grid<T>>, positions: Seq<Seq<usize>>) -> Seq<
        Grid<T>,
    > {
        Seq::new(deltas.len(), |c: int| self.routed(deltas[c], positions[c]))
    }

    /// The layer takes back gradients for inputs that it accepts: one square matrix of
    /// its output width for every matrix of the inputs.
    pub open spec fn accepts_backward<T>(self, inputs: Seq<Seq<Grid<T>>>, next_deltas: Seq<Seq<Grid<T>>>) -> bool {
        &&& self.accepts(inputs)
        &&& batch_shaped(next_deltas, self.output_width(), self.output_width())
        &&& same_counts(inputs, next_deltas)
    }

    /// The gradients taken back through the layer, for the inputs that the forward pass
    /// was given.
    pub open spec fn backward_spec<T: Scalar>(self, inputs: Seq<Seq<Grid<T>>>, next_deltas: Seq<Seq<Grid<T>>>) -> Seq<
        Seq<Grid<T>>,
    > {
        Seq::new(
            next_deltas.len(),
            |s: int| self.sample_backward(next_deltas[s], self.sample_positions(inputs[s])),
        )
    }
}

/// A max pooling layer. It keeps nothing between calls: the backward pass finds the
/// positions of the largest cells again in the inputs that the forward pass was given.
pub struct Pool {
    width: usize,
    stride: usize,
    padding: usize,
    boundary: usize,
    out_channel: usize,
    input_width: usize,
}

impl View for Pool {
    type V = PoolView;

    closed spec fn view(&self) -> PoolView {
        PoolView {
            width: self.width as nat,
            stride: self.stride as nat,
            padding: self.padding as nat,
            boundary: self.boundary as nat,
            out_channel: self.out_channel as nat,
            input_width: self.input_width as nat,
        }
    }
}

impl DeepView for Pool {
    type V = PoolView;

    open spec fn deep_view(&self) -> PoolView {
        self@
    }
}

/// Whether the square of `side + 2 * pad` fits into a machine word.
pub fn padded_square_fits(side: usize, pad: usize) -> (fits: bool)
    ensures
        fits == ((side + 2 * pad) * (side + 2 * pad) <= usize::MAX),
{
    let padded: u128 = side as u128 + 2 * (pad as u128);
    if padded > usize::MAX as u128 {
        assert((side + 2 * pad) * (side + 2 * pad) > usize::MAX) by (nonlinear_arith)
            requires
                side + 2 * pad > usize::MAX,
        ;
        return false;
    }
    proof {
        crate::shape::lemma_product_fits(padded as int, padded as int);
    }
    padded * padded <= usize::MAX as u128
}

impl Pool {
    #[verifier::type_invariant]
    closed spec fn inv(&self) -> bool {
        self@.wf()
    }

    /// The pooling layer of the given geometry, if the geometry is valid.
    pub fn new(
        width: usize,
        stride: usize,
        padding: usize,
        out_channel: usize,
        input_width: usize,
        boundary: usize,
    ) -> (made: Result<Pool, NetError>)
        ensures
            made is Ok <==> (PoolView {
                width: width as nat,
                stride: stride as nat,
                padding: padding as nat,
                boundary: boundary as nat,
                out_channel: out_channel as nat,
                input_width: input_width as nat,
            }).wf(),
            made matches Ok(layer) ==> layer@ == (PoolView {
                width: width as nat,
                stride: stride as nat,
                padding: padding as nat,
                boundary: boundary as nat,
                out_channel: out_channel as nat,
                input_width: input_width as nat,
            }),
            made matches Err(e) ==> e == NetError::ShapeMismatch,
    {
        if width > 0 && DATA_CHECK(input_width, width, padding, stride) && padded_square_fits(input_width, padding) {
            Ok(Pool { width, stride, padding, boundary, out_channel, input_width })
        } else {
            Err(NetError::ShapeMismatch)
        }
    }

    pub fn width(&self) -> (n: usize)
        ensures
            n == self@.width,
            self@.wf(),
    {
        proof {
            use_type_invariant(self);
        }
        self.width
    }

    pub fn stride(&self) -> (n: usize)
        ensures
            n == self@.stride,
    {
        self.stride
    }

    pub fn padding(&self) -> (n: usize)
        ensures
            n == self@.padding,
    {
        self.padding
    }

    pub fn boundary(&self) -> (n: usize)
        ensures
            n == self@.boundary,
    {
        self.boundary
    }

    pub fn out_channel(&self) -> (n: usize)
        ensures
            n == self@.out_channel,
    {
        self.out_channel
    }

    pub fn input_width(&self) -> (n: usize)
        ensures
            n == self@.input_width,
    {
        self.input_width
    }

    /// Every channel of the sample pooled, and for every channel the positions of the
    /// largest cells.
    pub fn single_max_pool<T: Scalar>(&self, input: &Vec<Matrix<T>>) -> (pooled: (Vec<Matrix<T>>, Vec<Vec<usize>>))
        requires
            sample_shaped(input.deep_view(), self@.input_width as int, self@.input_width as int),
        ensures
            pooled.0.deep_view() == self@.sample_forward(input.deep_view()),
            lines_of(pooled.1@) == self@.sample_positions(input.deep_view()),
    {
        proof {
            use_type_invariant(self);
        }
        let count: usize = input.len();
        let mut outputs: Vec<Matrix<T>> = Vec::new();
        let mut max_positions: Vec<Vec<usize>> = Vec::new();
        let mut c: usize = 0;
        while c < count
            invariant
                self@.wf(),
                sample_shaped(input.deep_view(), self@.input_width as int, self@.input_width as int),
                count == input@.len(),
                c <= count,
                outputs@.len() == c,
                max_positions@.len() == c,
                forall|i: int| 0 <= i < c ==> (#[trigger] outputs@[i])@ == self@.pooled(input@[i]@),
                forall|i: int| 0 <= i < c ==> (#[trigger] max_positions@[i])@ == self@.positions(input@[i]@),
            decreases count - c,
        {
            assert(input.deep_view()[c as int].wf());
            let (output, position) = _max_pool(&input[c], self.width, self.stride, self.padding, self.input_width);
            outputs.push(output);
            max_positions.push(position);
            c = c + 1;
        }
        assert(outputs.deep_view() =~= self@.sample_forward(input.deep_view()));
        assert(lines_of(max_positions@) =~= self@.sample_positions(input.deep_view()));
        (outputs, max_positions)
    }

    /// Every channel of every sample pooled, if every matrix of the batch is square and
    /// of the layer's input width.
    pub fn forward<T: Scalar>(&self, inputs: &Vec<Vec<Matrix<T>>>) -> (out: Result<Vec<Vec<Matrix<T>>>, NetError>)
        ensures
            out is Ok <==> self@.accepts(inputs.deep_view()),
            out matches Ok(outputs) ==> outputs.deep_view() == self@.forward_spec(inputs.deep_view()),
            out matches Err(e) ==> e == NetError::ShapeMismatch,
    {
        if !is_batch_shaped(inputs, self.input_width, self.input_width) {
            return Err(NetError::ShapeMismatch);
        }
        let count: usize = inputs.len();
        let mut outputs: Vec<Vec<Matrix<T>>> = Vec::new();
        let mut s: usize = 0;
        while s < count
            invariant
                self@.accepts(inputs.deep_view()),
                count == inputs@.len(),
                s <= count,
                outputs@.len() == s,
                forall|i: int|
                    0 <= i < s ==> (#[trigger] outputs@[i]).deep_view() == self@.sample_forward(
                        inputs@[i].deep_view(),
                    ),
            decreases count - s,
        {
            assert(sample_shaped(inputs.deep_view()[s as int], self@.input_width as int, self@.input_width as int));
            let (output, _pos) = self.single_max_pool(&inputs[s]);
            outputs.push(output);
            s = s + 1;
        }
        assert(outputs.deep_view() =~= self@.forward_spec(inputs.deep_view()));
        Ok(outputs)
    }

    /// The gradients taken back to the inputs of the forward pass: each cell of a
    /// gradient goes to where the largest cell of its window was found in `inputs`.
    pub fn backward<T: Scalar>(&self, inputs: &Vec<Vec<Matrix<T>>>, next_deltas: &Vec<Vec<Matrix<T>>>) -> (out: Result<
        Vec<Vec<Matrix<T>>>,
        NetError,
    >)
        ensures
            out is Ok <==> self@.accepts_backward(inputs.deep_view(), next_deltas.deep_view()),
            out matches Ok(deltas) ==> deltas.deep_view() == self@.backward_spec(
                inputs.deep_view(),
                next_deltas.deep_view(),
            ),
            out matches Err(e) ==> e == NetError::ShapeMismatch,
    {
        proof {
            use_type_invariant(self);
            lemma_across(
                self@.input_width as int,
                self@.width as int,
                self@.stride as int,
                self@.padding as int,
            );
            let wide = self@.input_width + 2 * self@.padding;
            assert(wide <= wide * wide) by (nonlinear_arith)
                requires
                    wide >= 1,
            ;
        }
        let output_width: usize = cal_shape(self.input_width, self.width, self.stride, self.padding);
        if !is_batch_shaped(inputs, self.input_width, self.input_width) || !is_batch_shaped(
            next_deltas,
            output_width,
            output_width,
        ) || !have_same_counts(inputs, next_deltas) {
            return Err(NetError::ShapeMismatch);
        }
        let count: usize = next_deltas.len();
        let mut deltas: Vec<Vec<Matrix<T>>> = Vec::new();
        let mut s: usize = 0;
        while s < count
            invariant
                self@.wf(),
                self@.accepts_backward(inputs.deep_view(), next_deltas.deep_view()),
                count == next_deltas@.len(),
                s <= count,
                deltas@.len() == s,
                forall|i: int|
                    0 <= i < s ==> (#[trigger] deltas@[i]).deep_view() == self@.sample_backward(
                        next_deltas@[i].deep_view(),
                        self@.sample_positions(inputs@[i].deep_view()),
                    ),
            decreases count - s,
        {
            assert(sample_shaped(inputs.deep_view()[s as int], self@.input_width as int, self@.input_width as int));
            assert(sample_shaped(next_deltas.deep_view()[s as int], self@.output_width(), self@.output_width()));
            assert(inputs.deep_view()[s as int].len() == next_deltas.deep_view()[s as int].len());
            let (_output, positions) = self.single_max_pool(&inputs[s]);
            proof {
                let side = self@.input_width + 2 * self@.padding;
                let across = self@.output_width();
                lemma_sizes(across, self@.width as int);
                assert(lines_of(positions@).len() == positions@.len());
                assert(inputs.deep_view()[s as int].len() == inputs@[s as int]@.len());
                assert(next_deltas.deep_view()[s as int].len() == next_deltas@[s as int]@.len());
                assert forall|c: int| 0 <= c < next_deltas@[s as int]@.len() implies (
                #[trigger] next_deltas@[s as int]@[c])@.cells.len() <= positions@[c]@.len() && (forall|i: int|
                    0 <= i < next_deltas@[s as int]@[c]@.cells.len() ==> positions@[c]@[i] < side * side) by {
                    let m = inputs@[s as int]@[c]@;
                    assert(m == inputs.deep_view()[s as int][c]);
                    assert(next_deltas@[s as int]@[c]@ == next_deltas.deep_view()[s as int][c]);
                    assert(positions@[c]@ == lines_of(positions@)[c]);
                    assert(m.wf() && m.has_shape(self@.input_width as int, self@.input_width as int));
                    assert forall|i: int| 0 <= i < next_deltas@[s as int]@[c]@.cells.len() implies positions@[c]@[i]
                        < side * side by {
                        lemma_max_pool_reports_maximum(
                            m,
                            self@.width as int,
                            self@.stride as int,
                            self@.padding as int,
                            i,
                            0,
                        );
                    }
                }
            }
            deltas.push(self.single_upsample(&next_deltas[s], &positions));
            s = s + 1;
        }
        assert(deltas.deep_view() =~= self@.backward_spec(inputs.deep_view(), next_deltas.deep_view()));
        Ok(deltas)
    }

    /// The gradients of one sample taken back to the input, channel by channel.
    pub fn single_upsample<T: Scalar>(&self, deltas: &Vec<Matrix<T>>, pos: &Vec<Vec<usize>>) -> (out: Vec<Matrix<T>>)
        requires
            deltas@.len() == pos@.len(),
            forall|c: int|
                0 <= c < deltas@.len() ==> (#[trigger] deltas@[c])@.cells.len() <= pos@[c]@.len() && (forall|i: int|
                    0 <= i < deltas@[c]@.cells.len() ==> pos@[c]@[i] < (self@.input_width + 2 * self@.padding) * (
                    self@.input_width + 2 * self@.padding)),
        ensures
            out.deep_view() == self@.sample_backward(deltas.deep_view(), lines_of(pos@)),
    {
        proof {
            use_type_invariant(self);
        }
        let count: usize = deltas.len();
        proof {
            let wide = self@.input_width + 2 * self@.padding;
            assert(wide <= wide * wide) by (nonlinear_arith)
                requires
                    wide >= 1,
            ;
        }
        let side: usize = self.input_width + 2 * self.padding;
        let mut out: Vec<Matrix<T>> = Vec::new();
        let mut c: usize = 0;
        while c < count
            invariant
                self@.wf(),
                side == self@.input_width + 2 * self@.padding,
                count == deltas@.len(),
                count == pos@.len(),
                forall|c: int|
                    0 <= c < deltas@.len() ==> (#[trigger] deltas@[c])@.cells.len() <= pos@[c]@.len() && (forall|
                        i: int,
                    |
                        0 <= i < deltas@[c]@.cells.len() ==> pos@[c]@[i] < side * side),
                c <= count,
                out@.len() == c,
                forall|i: int| 0 <= i < c ==> (#[trigger] out@[i])@ == self@.routed(deltas@[i]@, pos@[i]@),
            decreases count - c,
        {
            assert(deltas@[c as int]@.cells.len() <= pos@[c as int]@.len());
            let wide: Matrix<T> = _upsample(&deltas[c], &pos[c], side);
            out.push(crop(&wide, self.padding));
            c = c + 1;
        }
        assert(out.deep_view() =~= self@.sample_backward(deltas.deep_view(), lines_of(pos@)));
        out
    }
}

/// The views of the lists of a nested list of positions.
pub open spec fn lines_of(lines: Seq<Vec<usize>>) -> Seq<Seq<usize>> {
    Seq::new(lines.len(), |i: int| lines[i]@)
}

} // verus!
