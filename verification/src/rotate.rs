//! Quarter turns of square matrices.

use crate::matrix::{lemma_cell_number, lemma_cell_position, lemma_grid_ext, Grid, Matrix};
use vstd::prelude::*;

verus! {

/// The cell that comes to lie in row `r`, column `c` when the square grid `m` is turned
/// clockwise by `degree` quarter turns; with any `degree` but 1, 2 and 3 nothing moves.
pub open spec fn rotate_cell<T>(m: Grid<T>, degree: int, r: int, c: int) -> T {
    let last = m.rows - 1;
    if degree == 1 {
        m.at(last - c, r)
    } else if degree == 2 {
        m.at(last - r, last - c)
    } else if degree == 3 {
        m.at(c, last - r)
    } else {
        m.at(r, c)
    }
}

/// The square grid `m` turned clockwise by `degree` quarter turns.
pub open spec fn rotate_spec<T>(m: Grid<T>, degree: int) -> Grid<T> {
    Grid {
        rows: m.rows,
        cols: m.rows,
        cells: Seq::new(
            m.rows * m.rows,
            |k: int| rotate_cell(m, degree, k / m.rows as int, k % m.rows as int),
        ),
    }
}

/// Each grid of the list turned clockwise by one quarter turn.
pub open spec fn rotation_spec<T>(filters: Seq<Grid<T>>) -> Seq<Grid<T>> {
    Seq::new(filters.len(), |i: int| rotate_spec(filters[i], 1))
}

/// The cell of the turned grid in row `r`, column `c`.
pub proof fn lemma_rotate_at<T>(m: Grid<T>, degree: int, r: int, c: int)
    requires
        0 <= r < m.rows,
        0 <= c < m.rows,
    ensures
        rotate_spec(m, degree).at(r, c) == rotate_cell(m, degree, r, c),
        rotate_spec(m, degree).wf(),
{
    lemma_cell_number(m.rows as int, m.rows as int, r, c);
}

/// Four quarter turns of a square matrix give the matrix back.
pub proof fn lemma_four_quarter_turns<T>(m: Grid<T>)
    requires
        m.wf(),
        m.rows == m.cols,
    ensures
        rotate_spec(rotate_spec(rotate_spec(rotate_spec(m, 1), 1), 1), 1) == m,
{
    let once = rotate_spec(m, 1);
    let twice = rotate_spec(once, 1);
    let thrice = rotate_spec(twice, 1);
    let back = rotate_spec(thrice, 1);
    let last = m.rows - 1;
    assert forall|r: int, c: int| 0 <= r < m.rows && 0 <= c < m.cols implies back.at(r, c) == m.at(r, c) by {
        lemma_rotate_at(thrice, 1, r, c);
        lemma_rotate_at(twice, 1, last - c, r);
        lemma_rotate_at(once, 1, last - r, last - c);
        lemma_rotate_at(m, 1, c, last - r);
    }
    lemma_grid_ext(back, m);
}

/// Two quarter turns are a half turn, and a quarter turn after a half turn is three
/// quarter turns.
pub proof fn lemma_quarter_turns_add_up<T>(m: Grid<T>)
    requires
        m.wf(),
        m.rows == m.cols,
    ensures
        rotate_spec(rotate_spec(m, 1), 1) == rotate_spec(m, 2),
        rotate_spec(rotate_spec(m, 2), 1) == rotate_spec(m, 3),
        rotate_spec(rotate_spec(m, 2), 2) == m,
{
    let once = rotate_spec(m, 1);
    let half = rotate_spec(m, 2);
    let last = m.rows - 1;
    assert forall|r: int, c: int| 0 <= r < m.rows && 0 <= c < m.rows implies rotate_spec(once, 1).at(r, c)
        == half.at(r, c) by {
        lemma_rotate_at(once, 1, r, c);
        lemma_rotate_at(m, 1, last - c, r);
        lemma_rotate_at(m, 2, r, c);
    }
    lemma_grid_ext(rotate_spec(once, 1), half);
    assert forall|r: int, c: int| 0 <= r < m.rows && 0 <= c < m.rows implies rotate_spec(half, 1).at(r, c)
        == rotate_spec(m, 3).at(r, c) by {
        lemma_rotate_at(half, 1, r, c);
        lemma_rotate_at(m, 2, last - c, r);
        lemma_rotate_at(m, 3, r, c);
    }
    lemma_grid_ext(rotate_spec(half, 1), rotate_spec(m, 3));
    assert forall|r: int, c: int| 0 <= r < m.rows && 0 <= c < m.rows implies rotate_spec(half, 2).at(r, c)
        == m.at(r, c) by {
        lemma_rotate_at(half, 2, r, c);
        lemma_rotate_at(m, 2, last - r, last - c);
    }
    lemma_grid_ext(rotate_spec(half, 2), m);
}

/// The square matrix turned clockwise by `degree` quarter turns (1, 2 or 3); a copy of
/// it with any other `degree`.
pub fn _rotate<T: Copy>(matrix: &Matrix<T>, degree: usize) -> (out: Matrix<T>)
    requires
        matrix@.rows == matrix@.cols,
    ensures
        out@ == rotate_spec(matrix@, degree as int),
{
    let length: usize = matrix.rows();
    let total: usize = matrix.len();
    let mut data: Vec<T> = Vec::new();
    let mut k: usize = 0;
    while k < total
        invariant
            length == matrix@.rows,
            length == matrix@.cols,
            total == length * length,
            k <= total,
            data@.len() == k,
            forall|i: int|
                0 <= i < k ==> data@[i] == rotate_cell(matrix@, degree as int, i / length as int, i % length as int),
        decreases total - k,
    {
        proof {
            lemma_cell_position(length as int, length as int, k as int);
        }
        let r: usize = k / length;
        let c: usize = k % length;
        let offset: usize = length - 1;
        let cell: T = if degree == 1 {
            matrix.get(offset - c, r)
        } else if degree == 2 {
            matrix.get(offset - r, offset - c)
        } else if degree == 3 {
            matrix.get(c, offset - r)
        } else {
            matrix.get(r, c)
        };
        data.push(cell);
        k = k + 1;
    }
    assert(data@ =~= rotate_spec(matrix@, degree as int).cells);
    Matrix::from_cells(length, length, data)
}

/// Each of the square matrices turned clockwise by one quarter turn.
pub fn rotation<T: Copy>(filters: &Vec<Matrix<T>>) -> (out: Vec<Matrix<T>>)
    requires
        forall|i: int| 0 <= i < filters@.len() ==> (#[trigger] filters@[i]@).rows == filters@[i]@.cols,
    ensures
        out.deep_view() == rotation_spec(filters.deep_view()),
{
    let count: usize = filters.len();
    let mut out: Vec<Matrix<T>> = Vec::new();
    let mut i: usize = 0;
    while i < count
        invariant
            count == filters@.len(),
            i <= count,
            out@.len() == i,
            forall|j: int| 0 <= j < filters@.len() ==> (#[trigger] filters@[j]@).rows == filters@[j]@.cols,
            forall|j: int| 0 <= j < i ==> (#[trigger] out@[j])@ == rotate_spec(filters@[j]@, 1),
        decreases count - i,
    {
        out.push(_rotate(&filters[i], 1));
        i = i + 1;
    }
    assert(out.deep_view() =~= rotation_spec(filters.deep_view()));
    out
}

} // verus!
