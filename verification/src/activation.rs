//! Nonlinear layers: the rectifier, cell by cell, and the normalised exponential, row
//! by row.

use crate::algebra::{combine, combine_spec, row_sum, transposed, transposed_spec, Binary};
use crate::loss::{row_argmax, row_best};
use crate::batch::{have_same_shapes, same_shapes};
use crate::error::NetError;
use crate::matrix::{lemma_cell_position, Grid, Matrix};
use crate::reshape::copied_batch;
use crate::scalar::{Scalar, Transcendental};
use vstd::prelude::*;

verus! {

/// The number itself where it is at least zero, zero otherwise.
pub open spec fn relu_cell<T: Scalar>(x: T) -> T {
    if x.at_least_spec(T::zero_spec()) {
        x
    } else {
        T::zero_spec()
    }
}

/// One where the number is at least zero, zero otherwise.
pub open spec fn relu_slope<T: Scalar>(x: T) -> T {
    if x.at_least_spec(T::zero_spec()) {
        T::one_spec()
    } else {
        T::zero_spec()
    }
}

/// The rectifier applied to every cell.
pub open spec fn relu_spec<T: Scalar>(m: Grid<T>) -> Grid<T> {
    Grid { rows: m.rows, cols: m.cols, cells: Seq::new(m.cells.len(), |k: int| relu_cell(m.cells[k])) }
}

/// The slope of the rectifier at every cell.
pub open spec fn relu_derivate_spec<T: Scalar>(m: Grid<T>) -> Grid<T> {
    Grid { rows: m.rows, cols: m.cols, cells: Seq::new(m.cells.len(), |k: int| relu_slope(m.cells[k])) }
}

/// Every cell divided by the sum of its row, the row added up from the left.
pub open spec fn normalised_spec<T: Scalar>(m: Grid<T>) -> Grid<T> {
    Grid {
        rows: m.rows,
        cols: m.cols,
        cells: Seq::new(m.cells.len(), |k: int| m.cells[k].over_spec(row_sum(m, k / m.cols as int, m.cols))),
    }
}

/// Every cell less the first largest cell of its row.
pub open spec fn shifted_spec<T: Scalar>(m: Grid<T>) -> Grid<T> {
    Grid {
        rows: m.rows,
        cols: m.cols,
        cells: Seq::new(
            m.cells.len(),
            |k: int| m.cells[k].minus_spec(m.at(k / m.cols as int, row_best(m, k / m.cols as int, m.cols))),
        ),
    }
}

/// `exps` holds, for every number of `numbers`, something that its exponential may be.
pub open spec fn exp_list<T: Transcendental>(numbers: Seq<T>, exps: Seq<T>) -> bool {
    &&& exps.len() == numbers.len()
    &&& forall|k: int| 0 <= k < numbers.len() ==> (#[trigger] numbers[k]).exp_gives(exps[k])
}

/// `logs` holds, for every number of `numbers`, something that its logarithm may be.
pub open spec fn ln_list<T: Transcendental>(numbers: Seq<T>, logs: Seq<T>) -> bool {
    &&& logs.len() == numbers.len()
    &&& forall|k: int| 0 <= k < numbers.len() ==> (#[trigger] numbers[k]).ln_gives(logs[k])
}

/// What is handed to the exponential: the input transposed, so that there is a row for
/// each sample, and every cell less the largest cell of its row, so that no exponential
/// is too large.
pub open spec fn softmax_arguments<T: Scalar>(input: Grid<T>) -> Grid<T> {
    shifted_spec(transposed_spec(input))
}

/// `output` is what the normalised exponential may give for `input`, a matrix with a
/// column for each sample: a matrix with a row for each sample, in which every cell is
/// the exponential of its argument (see [`softmax_arguments`]) over the sum of the
/// exponentials of its row.
pub open spec fn softmax_result<T: Transcendental>(input: Grid<T>, output: Grid<T>) -> bool {
    exists|exps: Seq<T>| #[trigger]
        exp_list(softmax_arguments(input).cells, exps) && output == normalised_spec(
            Grid { rows: input.cols, cols: input.rows, cells: exps },
        )
}

/// The cell in row `r` and column `k` of what the normalised exponential gives belongs to
/// the cell in row `k` and column `r` of the input: it is the exponential of that cell
/// less the first largest cell of column `r` of the input, over the sum of the
/// exponentials of row `r`, added from the left. The result has a row for each column of
/// the input and a column for each of its rows.
pub proof fn lemma_softmax_cell<T: Transcendental>(input: Grid<T>, exps: Seq<T>, r: int, k: int)
    requires
        input.wf(),
        0 <= r < input.cols,
        0 <= k < input.rows,
        exp_list(softmax_arguments(input).cells, exps),
    ensures
        softmax_arguments(input).rows == input.cols,
        softmax_arguments(input).cols == input.rows,
        0 <= row_best(transposed_spec(input), r, input.rows) < input.rows,
        softmax_arguments(input).at(r, k) == input.at(k, r).minus_spec(
            input.at(row_best(transposed_spec(input), r, input.rows), r),
        ),
        softmax_arguments(input).at(r, k).exp_gives(exps[r * input.rows + k]),
        normalised_spec(Grid { rows: input.cols, cols: input.rows, cells: exps }).at(r, k) == exps[r * input.rows
            + k].over_spec(row_sum(Grid { rows: input.cols, cols: input.rows, cells: exps }, r, input.rows)),
{
    let turned = transposed_spec(input);
    let best = row_best(turned, r, input.rows);
    crate::loss::lemma_row_best_in_range(turned, r, input.rows);
    assert(input.cols * input.rows == input.rows * input.cols) by (nonlinear_arith);
    crate::matrix::lemma_cell_number(input.cols as int, input.rows as int, r, k);
    crate::matrix::lemma_cell_number(input.cols as int, input.rows as int, r, best);
    assert(turned.at(r, k) == input.at(k, r));
    assert(turned.at(r, best) == input.at(best, r));
    let index = r * input.rows + k;
    assert(softmax_arguments(input).cells[index].exp_gives(exps[index]));
}

/// The rectifier applied to every cell of every matrix of the batch.
pub open spec fn relu_batch_spec<T: Scalar>(inputs: Seq<Seq<Grid<T>>>) -> Seq<Seq<Grid<T>>> {
    Seq::new(inputs.len(), |s: int| Seq::new(inputs[s].len(), |c: int| relu_spec(inputs[s][c])))
}

/// Every gradient, cell by cell, times the slope of the rectifier at the input.
pub open spec fn relu_backward_spec<T: Scalar>(inputs: Seq<Seq<Grid<T>>>, deltas: Seq<Seq<Grid<T>>>) -> Seq<
    Seq<Grid<T>>,
> {
    Seq::new(
        deltas.len(),
        |s: int|
            Seq::new(
                deltas[s].len(),
                |c: int| combine_spec(Binary::Times, deltas[s][c], relu_derivate_spec(inputs[s][c])),
            ),
    )
}

/// The matrix with every cell below zero replaced by zero.
pub fn _relu<T: Scalar>(input: &Matrix<T>) -> (out: Matrix<T>)
    ensures
        out@ == relu_spec(input@),
{
    let total: usize = input.len();
    let zero: T = T::zero();
    let mut data: Vec<T> = Vec::new();
    let mut k: usize = 0;
    while k < total
        invariant
            total == input@.cells.len(),
            zero == T::zero_spec(),
            k <= total,
            data@.len() == k,
            forall|i: int| 0 <= i < k ==> data@[i] == relu_cell(input@.cells[i]),
        decreases total - k,
    {
        let cell: T = input.cell(k);
        if cell.at_least(zero) {
            data.push(cell);
        } else {
            data.push(zero);
        }
        k = k + 1;
    }
    assert(data@ =~= relu_spec(input@).cells);
    Matrix::from_cells(input.rows(), input.cols(), data)
}

/// The matrix with one where a cell is at least zero and zero where it is not.
pub fn relu_derivate<T: Scalar>(matrix: &Matrix<T>) -> (out: Matrix<T>)
    ensures
        out@ == relu_derivate_spec(matrix@),
{
    let total: usize = matrix.len();
    let zero: T = T::zero();
    let one: T = T::one();
    let mut data: Vec<T> = Vec::new();
    let mut k: usize = 0;
    while k < total
        invariant
            total == matrix@.cells.len(),
            zero == T::zero_spec(),
            one == T::one_spec(),
            k <= total,
            data@.len() == k,
            forall|i: int| 0 <= i < k ==> data@[i] == relu_slope(matrix@.cells[i]),
        decreases total - k,
    {
        if matrix.cell(k).at_least(zero) {
            data.push(one);
        } else {
            data.push(zero);
        }
        k = k + 1;
    }
    assert(data@ =~= relu_derivate_spec(matrix@).cells);
    Matrix::from_cells(matrix.rows(), matrix.cols(), data)
}

/// A matrix of the shape of `input` with the exponential of every cell.
pub fn exponentials<T: Transcendental>(input: &Matrix<T>) -> (out: Matrix<T>)
    ensures
        out@.rows == input@.rows,
        out@.cols == input@.cols,
        exp_list(input@.cells, out@.cells),
{
    let total: usize = input.len();
    let mut data: Vec<T> = Vec::new();
    let mut k: usize = 0;
    while k < total
        invariant
            total == input@.cells.len(),
            k <= total,
            data@.len() == k,
            forall|i: int| 0 <= i < k ==> (#[trigger] input@.cells[i]).exp_gives(data@[i]),
        decreases total - k,
    {
        data.push(input.cell(k).exp());
        k = k + 1;
    }
    Matrix::from_cells(input.rows(), input.cols(), data)
}

/// A matrix of the shape of `input` with the natural logarithm of every cell.
pub fn logarithms<T: Transcendental>(input: &Matrix<T>) -> (out: Matrix<T>)
    ensures
        out@.rows == input@.rows,
        out@.cols == input@.cols,
        ln_list(input@.cells, out@.cells),
{
    let total: usize = input.len();
    let mut data: Vec<T> = Vec::new();
    let mut k: usize = 0;
    while k < total
        invariant
            total == input@.cells.len(),
            k <= total,
            data@.len() == k,
            forall|i: int| 0 <= i < k ==> (#[trigger] input@.cells[i]).ln_gives(data@[i]),
        decreases total - k,
    {
        data.push(input.cell(k).ln());
        k = k + 1;
    }
    Matrix::from_cells(input.rows(), input.cols(), data)
}

/// The matrix with every cell divided by the sum of its row.
pub fn normalised<T: Scalar>(exps: &Matrix<T>) -> (out: Matrix<T>)
    ensures
        out@ == normalised_spec(exps@),
{
    let rows: usize = exps.rows();
    let cols: usize = exps.cols();
    let total: usize = exps.len();
    let mut sums: Vec<T> = Vec::new();
    let mut r: usize = 0;
    while r < rows
        invariant
            rows == exps@.rows,
            cols == exps@.cols,
            r <= rows,
            sums@.len() == r,
            forall|i: int| 0 <= i < r ==> sums@[i] == row_sum(exps@, i, cols as nat),
        decreases rows - r,
    {
        let mut acc: T = T::zero();
        let mut c: usize = 0;
        while c < cols
            invariant
                cols == exps@.cols,
                r < exps@.rows,
                c <= cols,
                acc == row_sum(exps@, r as int, c as nat),
            decreases cols - c,
        {
            acc = acc.plus(exps.get(r, c));
            c = c + 1;
        }
        sums.push(acc);
        r = r + 1;
    }
    let mut data: Vec<T> = Vec::new();
    let mut k: usize = 0;
    while k < total
        invariant
            rows == exps@.rows,
            cols == exps@.cols,
            total == exps@.cells.len(),
            total == rows * cols,
            sums@.len() == rows,
            forall|i: int| 0 <= i < rows ==> sums@[i] == row_sum(exps@, i, cols as nat),
            k <= total,
            data@.len() == k,
            forall|i: int|
                0 <= i < k ==> data@[i] == exps@.cells[i].over_spec(row_sum(exps@, i / cols as int, cols as nat)),
        decreases total - k,
    {
        proof {
            lemma_cell_position(rows as int, cols as int, k as int);
        }
        data.push(exps.cell(k).over(sums[k / cols]));
        k = k + 1;
    }
    assert(data@ =~= normalised_spec(exps@).cells);
    Matrix::from_cells(rows, cols, data)
}

/// The matrix with the first largest cell of its row taken from every cell.
pub fn shifted<T: Scalar>(m: &Matrix<T>) -> (out: Matrix<T>)
    ensures
        out@ == shifted_spec(m@),
{
    let rows: usize = m.rows();
    let cols: usize = m.cols();
    let total: usize = m.len();
    let mut data: Vec<T> = Vec::new();
    let mut k: usize = 0;
    while k < total
        invariant
            rows == m@.rows,
            cols == m@.cols,
            total == m@.cells.len(),
            total == rows * cols,
            k <= total,
            data@.len() == k,
            forall|i: int|
                0 <= i < k ==> data@[i] == m@.cells[i].minus_spec(
                    m@.at(i / cols as int, row_best(m@, i / cols as int, cols as nat)),
                ),
        decreases total - k,
    {
        proof {
            lemma_cell_position(rows as int, cols as int, k as int);
        }
        let r: usize = k / cols;
        let best: usize = row_argmax(m, r);
        data.push(m.cell(k).minus(m.get(r, best)));
        k = k + 1;
    }
    assert(data@ =~= shifted_spec(m@).cells);
    Matrix::from_cells(rows, cols, data)
}

/// The normalised exponential of a matrix with a column for each sample: the matrix is
/// transposed, so that there is a row for each sample, the largest cell of every row is
/// taken from the cells of the row, and every exponential is divided by the sum of the
/// exponentials of its row. The result is one matrix with a row for each sample.
pub fn _softmax<T: Transcendental>(input: &Matrix<T>) -> (out: Vec<Matrix<T>>)
    ensures
        out@.len() == 1,
        softmax_result(input@, out@[0]@),
        out@[0]@.rows == input@.cols,
        out@[0]@.cols == input@.rows,
{
    let turned: Matrix<T> = transposed(input);
    let arguments: Matrix<T> = shifted(&turned);
    let exps: Matrix<T> = exponentials(&arguments);
    let given: Matrix<T> = normalised(&exps);
    proof {
        assert(exps@ == (Grid { rows: input@.cols, cols: input@.rows, cells: exps@.cells }));
        assert(exp_list(softmax_arguments(input@).cells, exps@.cells));
    }
    let mut out: Vec<Matrix<T>> = Vec::new();
    out.push(given);
    out
}

/// An elementwise nonlinearity: the normalised exponential where `end` is 1, the
/// rectifier otherwise.
///
/// The normalised exponential takes, from every sample of the batch, the first matrix,
/// with a row for each class and a column for each sample, as a dense layer gives it, and
/// gives one matrix with a row for each sample and a column for each class.
pub struct Activation {
    pub end: usize,
}

impl Activation {
    pub fn new(end: usize) -> (layer: Activation)
        ensures
            layer.end == end,
    {
        Activation { end }
    }

    /// The normalised exponential needs a matrix in every sample; the rectifier takes
    /// any batch.
    pub open spec fn accepts<T>(self, inputs: Seq<Seq<Grid<T>>>) -> bool {
        self.end == 1 ==> forall|s: int| 0 <= s < inputs.len() ==> (#[trigger] inputs[s]).len() >= 1
    }

    /// `outputs` is what the layer may give for `inputs`: with the rectifier, every
    /// cell rectified; with the normalised exponential, for every sample one matrix that
    /// the normalised exponential may give for the first matrix of the sample.
    pub open spec fn produces<T: Transcendental>(self, inputs: Seq<Seq<Grid<T>>>, outputs: Seq<Seq<Grid<T>>>) -> bool {
        if self.end == 1 {
            &&& outputs.len() == inputs.len()
            &&& forall|s: int|
                0 <= s < inputs.len() ==> (#[trigger] outputs[s]).len() == 1 && softmax_result(
                    inputs[s][0],
                    outputs[s][0],
                )
        } else {
            outputs == relu_batch_spec(inputs)
        }
    }

    /// The normalised exponential hands any gradient back as it is; the rectifier needs
    /// a gradient of the shape of each input.
    pub open spec fn accepts_backward<T>(self, inputs: Seq<Seq<Grid<T>>>, deltas: Seq<Seq<Grid<T>>>) -> bool {
        self.end != 1 ==> same_shapes(inputs, deltas)
    }

    /// What the layer hands back: with the normalised exponential the gradient itself,
    /// which is right where the gradient is that of the cross-entropy loss taken
    /// together with the normalised exponential, the output minus the target; with the
    /// rectifier the gradient times the slope of the rectifier at the input.
    pub open spec fn backward_spec<T: Scalar>(self, inputs: Seq<Seq<Grid<T>>>, deltas: Seq<Seq<Grid<T>>>) -> Seq<
        Seq<Grid<T>>,
    > {
        if self.end == 1 {
            deltas
        } else {
            relu_backward_spec(inputs, deltas)
        }
    }

    /// The layer applied to every sample.
    pub fn forward<T: Transcendental>(&self, inputs: &Vec<Vec<Matrix<T>>>) -> (out: Result<
        Vec<Vec<Matrix<T>>>,
        NetError,
    >)
        ensures
            out is Ok <==> self.accepts(inputs.deep_view()),
            out matches Ok(outputs) ==> self.produces(inputs.deep_view(), outputs.deep_view()),
            out matches Err(e) ==> e == NetError::ShapeMismatch,
    {
        let count: usize = inputs.len();
        let mut outputs: Vec<Vec<Matrix<T>>> = Vec::new();
        let mut s: usize = 0;
        if self.end == 1 {
            while s < count
                invariant
                    self.end == 1,
                    count == inputs@.len(),
                    s <= count,
                    outputs@.len() == s,
                    forall|j: int| 0 <= j < s ==> (#[trigger] inputs.deep_view()[j]).len() >= 1,
                    forall|j: int|
                        0 <= j < s ==> (#[trigger] outputs.deep_view()[j]).len() == 1 && softmax_result(
                            inputs.deep_view()[j][0],
                            outputs.deep_view()[j][0],
                        ),
                decreases count - s,
            {
                if inputs[s].len() == 0 {
                    assert(inputs.deep_view()[s as int].len() == 0);
                    return Err(NetError::ShapeMismatch);
                }
                let given: Vec<Matrix<T>> = _softmax(&inputs[s][0]);
                let ghost before = outputs.deep_view();
                outputs.push(given);
                proof {
                    assert(outputs.deep_view()[s as int][0] == given@[0]@);
                    assert(inputs.deep_view()[s as int][0] == inputs@[s as int]@[0]@);
                    assert forall|j: int| 0 <= j < s implies (#[trigger] outputs.deep_view()[j]) == before[j] by {}
                }
                s = s + 1;
            }
            Ok(outputs)
        } else {
            while s < count
                invariant
                    count == inputs@.len(),
                    s <= count,
                    outputs@.len() == s,
                    forall|j: int|
                        0 <= j < s ==> (#[trigger] outputs@[j]).deep_view() == relu_batch_spec(inputs.deep_view())[j],
                decreases count - s,
            {
                let channels: usize = inputs[s].len();
                let mut sample: Vec<Matrix<T>> = Vec::new();
                let mut c: usize = 0;
                while c < channels
                    invariant
                        s < inputs@.len(),
                        channels == inputs@[s as int]@.len(),
                        c <= channels,
                        sample@.len() == c,
                        forall|j: int| 0 <= j < c ==> (#[trigger] sample@[j])@ == relu_spec(inputs@[s as int]@[j]@),
                    decreases channels - c,
                {
                    sample.push(_relu(&inputs[s][c]));
                    c = c + 1;
                }
                assert(sample.deep_view() =~= relu_batch_spec(inputs.deep_view())[s as int]);
                outputs.push(sample);
                s = s + 1;
            }
            assert(outputs.deep_view() =~= relu_batch_spec(inputs.deep_view()));
            Ok(outputs)
        }
    }

    /// The gradient handed back through the layer, for the inputs that the forward pass
    /// was given.
    pub fn backward<T: Scalar>(&self, inputs: &Vec<Vec<Matrix<T>>>, deltas: &Vec<Vec<Matrix<T>>>) -> (out: Result<
        Vec<Vec<Matrix<T>>>,
        NetError,
    >)
        ensures
            out is Ok <==> self.accepts_backward(inputs.deep_view(), deltas.deep_view()),
            out matches Ok(given) ==> given.deep_view() == self.backward_spec(inputs.deep_view(), deltas.deep_view()),
            out matches Err(e) ==> e == NetError::ShapeMismatch,
    {
        if self.end == 1 {
            return Ok(copied_batch(deltas));
        }
        if !have_same_shapes(inputs, deltas) {
            return Err(NetError::ShapeMismatch);
        }
        let ghost target = relu_backward_spec(inputs.deep_view(), deltas.deep_view());
        let count: usize = deltas.len();
        let mut out: Vec<Vec<Matrix<T>>> = Vec::new();
        let mut s: usize = 0;
        while s < count
            invariant
                same_shapes(inputs.deep_view(), deltas.deep_view()),
                target == relu_backward_spec(inputs.deep_view(), deltas.deep_view()),
                count == deltas@.len(),
                s <= count,
                out@.len() == s,
                forall|j: int| 0 <= j < s ==> (#[trigger] out@[j]).deep_view() == target[j],
            decreases count - s,
        {
            let channels: usize = deltas[s].len();
            assert(inputs.deep_view()[s as int].len() == deltas.deep_view()[s as int].len());
            let mut sample: Vec<Matrix<T>> = Vec::new();
            let mut c: usize = 0;
            while c < channels
                invariant
                    same_shapes(inputs.deep_view(), deltas.deep_view()),
                    target == relu_backward_spec(inputs.deep_view(), deltas.deep_view()),
                    s < deltas@.len(),
                    channels == deltas@[s as int]@.len(),
                    channels == inputs@[s as int]@.len(),
                    c <= channels,
                    sample@.len() == c,
                    forall|j: int| 0 <= j < c ==> (#[trigger] sample@[j])@ == target[s as int][j],
                decreases channels - c,
            {
                assert(inputs.deep_view()[s as int][c as int].rows == deltas.deep_view()[s as int][c as int].rows
                    && inputs.deep_view()[s as int][c as int].cols == deltas.deep_view()[s as int][c as int].cols);
                let slope: Matrix<T> = relu_derivate(&inputs[s][c]);
                sample.push(combine(Binary::Times, &deltas[s][c], &slope));
                c = c + 1;
            }
            assert(sample.deep_view() =~= target[s as int]);
            out.push(sample);
            s = s + 1;
        }
        assert(out.deep_view() =~= target);
        Ok(out)
    }
}

} // verus!
