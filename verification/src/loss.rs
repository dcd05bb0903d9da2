//! The cross-entropy loss and the count of right answers.

use crate::activation::{ln_list, logarithms};
use crate::matrix::{Grid, Matrix};
use crate::scalar::{Scalar, Transcendental};
use vstd::prelude::*;

verus! {

/// The smaller of two lengths.
pub open spec fn shorter(a: nat, b: nat) -> nat {
    if a <= b {
        a
    } else {
        b
    }
}

/// The sum of the first `n` labels, each times its logarithm, added from the left,
/// starting from zero.
pub open spec fn weighted_sum<T: Scalar>(labels: Seq<T>, logs: Seq<T>, n: nat) -> T
    decreases n,
{
    if n == 0 {
        T::zero_spec()
    } else {
        weighted_sum(labels, logs, (n - 1) as nat).plus_spec(labels[n - 1].times_spec(logs[n - 1]))
    }
}

/// The loss for the given logarithms of the outputs: the sum of the labels, each times
/// its logarithm, times `(0 - 1) / rows`, where `rows` is the number of rows of the
/// labels.
pub open spec fn loss_spec<T: Scalar>(logs: Seq<T>, labels: Grid<T>) -> T {
    weighted_sum(labels.cells, logs, shorter(logs.len(), labels.cells.len())).times_spec(
        T::zero_spec().minus_spec(T::one_spec()).over_spec(T::count_spec(labels.rows as usize)),
    )
}

/// `loss` is what the cross-entropy loss may be for these outputs and labels: the loss
/// for a list of logarithms of the outputs.
pub open spec fn loss_result<T: Transcendental>(output: Grid<T>, labels: Grid<T>, loss: T) -> bool {
    exists|logs: Seq<T>| #[trigger] ln_list(output.cells, logs) && loss == loss_spec(logs, labels)
}

/// Among the first `n` cells of row `r`, the column of the first that none of them
/// exceeds.
pub open spec fn row_best<T: Scalar>(m: Grid<T>, r: int, n: nat) -> int
    decreases n,
{
    if n <= 1 {
        0
    } else {
        let before = row_best(m, r, (n - 1) as nat);
        if m.at(r, n - 1).exceeds_spec(m.at(r, before)) {
            n - 1
        } else {
            before
        }
    }
}

/// The number of rows among the first `n` in which the largest output stands in the
/// column of the largest target.
pub open spec fn evaluate_spec<T: Scalar>(output: Grid<T>, target: Grid<T>, n: nat) -> nat
    decreases n,
{
    if n == 0 {
        0
    } else {
        evaluate_spec(output, target, (n - 1) as nat) + if row_best(output, n - 1, output.cols) == row_best(
            target,
            n - 1,
            target.cols,
        ) {
            1nat
        } else {
            0nat
        }
    }
}

/// The first largest cell of a row that is not empty is one of its cells.
pub proof fn lemma_row_best_in_range<T: Scalar>(m: Grid<T>, r: int, n: nat)
    requires
        n >= 1,
    ensures
        0 <= row_best(m, r, n) < n,
    decreases n,
{
    if n > 1 {
        lemma_row_best_in_range(m, r, (n - 1) as nat);
    }
}

/// No more rows can be right than there are.
pub proof fn lemma_evaluate_bound<T: Scalar>(output: Grid<T>, target: Grid<T>, n: nat)
    ensures
        evaluate_spec(output, target, n) <= n,
    decreases n,
{
    if n > 0 {
        lemma_evaluate_bound(output, target, (n - 1) as nat);
    }
}

/// The loss for the given logarithms of the outputs.
pub fn loss_from_logs<T: Scalar>(logs: &Matrix<T>, labels: &Matrix<T>) -> (loss: T)
    ensures
        loss == loss_spec(logs@.cells, labels@),
{
    let rows: usize = labels.rows();
    let count: usize = if logs.len() <= labels.len() {
        logs.len()
    } else {
        labels.len()
    };
    let mut acc: T = T::zero();
    let mut k: usize = 0;
    while k < count
        invariant
            count <= logs@.cells.len(),
            count <= labels@.cells.len(),
            k <= count,
            acc == weighted_sum(labels@.cells, logs@.cells, k as nat),
        decreases count - k,
    {
        acc = acc.plus(labels.cell(k).times(logs.cell(k)));
        k = k + 1;
    }
    let average: T = T::zero().minus(T::one()).over(T::count(rows));
    acc.times(average)
}

/// The cross-entropy loss of the outputs against the labels: the sum over all cells of
/// the label times the natural logarithm of the output, times `-1 / rows`.
pub fn compute_loss<T: Transcendental>(output: &Matrix<T>, labels: &Matrix<T>) -> (loss: T)
    ensures
        loss_result(output@, labels@, loss),
{
    let logs: Matrix<T> = logarithms(output);
    loss_from_logs(&logs, labels)
}

/// The column of the first largest cell of row `r`.
pub fn row_argmax<T: Scalar>(m: &Matrix<T>, r: usize) -> (best: usize)
    requires
        r < m@.rows,
    ensures
        best == row_best(m@, r as int, m@.cols),
        m@.cols > 0 ==> best < m@.cols,
{
    let cols: usize = m.cols();
    if cols == 0 {
        return 0;
    }
    let mut best: usize = 0;
    let mut held: T = m.get(r, 0);
    let mut c: usize = 1;
    while c < cols
        invariant
            cols == m@.cols,
            r < m@.rows,
            1 <= c <= cols,
            best < c,
            best == row_best(m@, r as int, c as nat),
            held == m@.at(r as int, best as int),
        decreases cols - c,
    {
        let cell: T = m.get(r, c);
        if cell.exceeds(held) {
            best = c;
            held = cell;
        }
        c = c + 1;
    }
    best
}

/// The number of rows in which the largest output stands in the column of the largest
/// target; of several largest cells of a row the first one counts.
pub fn evaluate<T: Scalar>(output: &Matrix<T>, target: &Matrix<T>) -> (correct: usize)
    requires
        output@.rows == target@.rows,
    ensures
        correct == evaluate_spec(output@, target@, output@.rows),
{
    let rows: usize = output.rows();
    let mut correct: usize = 0;
    let mut r: usize = 0;
    while r < rows
        invariant
            rows == output@.rows,
            rows == target@.rows,
            r <= rows,
            correct <= r,
            correct == evaluate_spec(output@, target@, r as nat),
        decreases rows - r,
    {
        if row_argmax(output, r) == row_argmax(target, r) {
            correct = correct + 1;
        }
        r = r + 1;
    }
    correct
}

} // verus!
