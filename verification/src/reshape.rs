//! Between channels of square matrices and flat rows: the two layouts of a sample at the
//! border between spatial layers and dense layers.

use crate::algebra::{combine, combine_spec, Binary};
use crate::matrix::{Grid, Matrix};
use crate::scalar::Scalar;
use crate::shape::{cal_shape, cal_shape_spec};
use vstd::prelude::*;

verus! {

/// The cells of the first `n` channels of a sample, one channel after the other.
pub open spec fn sample_cells<T>(sample: Seq<Grid<T>>, n: nat) -> Seq<T>
    decreases n,
{
    if n == 0 {
        Seq::empty()
    } else {
        sample_cells(sample, (n - 1) as nat) + sample[n - 1].cells
    }
}

/// The cells of the first `n` samples of a batch, one sample after the other.
pub open spec fn batch_cells<T>(batch: Seq<Seq<Grid<T>>>, n: nat) -> Seq<T>
    decreases n,
{
    if n == 0 {
        Seq::empty()
    } else {
        batch_cells(batch, (n - 1) as nat) + sample_cells(batch[n - 1], batch[n - 1].len())
    }
}

/// The batch as one matrix with a row for each sample.
pub open spec fn flatten_spec<T>(inputs: Seq<Seq<Grid<T>>>, prev_neurons: nat) -> Seq<Grid<T>> {
    seq![Grid { rows: inputs.len(), cols: prev_neurons, cells: batch_cells(inputs, inputs.len()) }]
}

/// The first matrix of the list cut into `out_channel` square matrices, where
/// `boundary` is 1; the list itself otherwise.
pub open spec fn restore_with_channel_spec<T>(
    matrix: Seq<Grid<T>>,
    out_channel: nat,
    prev_width: int,
    filter_width: int,
    stride: int,
    padding: int,
    boundary: int,
) -> Seq<Grid<T>> {
    if boundary == 1 {
        let width = cal_shape_spec(prev_width, filter_width, stride, padding);
        Seq::new(
            out_channel,
            |ch: int|
                Grid {
                    rows: width as nat,
                    cols: width as nat,
                    cells: matrix[0].cells.subrange(ch * (width * width), (ch + 1) * (width * width)),
                },
        )
    } else {
        matrix
    }
}

/// The two lists added matrix by matrix, as far as the shorter one goes.
pub open spec fn sum_nested_vector_spec<T: Scalar>(a: Seq<Grid<T>>, b: Seq<Grid<T>>) -> Seq<Grid<T>> {
    Seq::new(
        if a.len() <= b.len() {
            a.len()
        } else {
            b.len()
        },
        |i: int| combine_spec(Binary::Plus, a[i], b[i]),
    )
}

/// Every sample of the batch holds `cells` cells.
pub open spec fn samples_hold<T>(batch: Seq<Seq<Grid<T>>>, cells: nat) -> bool {
    forall|s: int| 0 <= s < batch.len() ==> sample_cells(#[trigger] batch[s], batch[s].len()).len() == cells
}

/// A batch whose samples all hold `cells` cells holds `cells` times the number of its
/// samples, and the cells of sample `s` start at cell number `s * cells`.
pub proof fn lemma_batch_cells_len<T>(batch: Seq<Seq<Grid<T>>>, cells: nat, n: nat)
    requires
        samples_hold(batch, cells),
        n <= batch.len(),
    ensures
        batch_cells(batch, n).len() == n * cells,
    decreases n,
{
    if n > 0 {
        lemma_batch_cells_len(batch, cells, (n - 1) as nat);
        assert(sample_cells(batch[n - 1], batch[n - 1].len()).len() == cells);
        assert((n - 1) * cells + cells == n * cells) by (nonlinear_arith);
    } else {
        assert(n * cells == 0) by (nonlinear_arith)
            requires
                n == 0,
        ;
    }
}

/// Adds the cells of the matrix to the end of the list.
pub fn append_cells<T: Copy>(cells: &mut Vec<T>, matrix: &Matrix<T>)
    ensures
        final(cells)@ == old(cells)@ + matrix@.cells,
{
    let count: usize = matrix.len();
    let ghost before = cells@;
    let mut k: usize = 0;
    while k < count
        invariant
            count == matrix@.cells.len(),
            k <= count,
            cells@ == before + matrix@.cells.subrange(0, k as int),
        decreases count - k,
    {
        cells.push(matrix.cell(k));
        assert(cells@ =~= before + matrix@.cells.subrange(0, k + 1));
        k = k + 1;
    }
    assert(matrix@.cells.subrange(0, count as int) =~= matrix@.cells);
}

/// Adds the cells of every channel of the sample to the end of the list.
pub fn append_sample<T: Copy>(cells: &mut Vec<T>, sample: &Vec<Matrix<T>>)
    ensures
        final(cells)@ == old(cells)@ + sample_cells(sample.deep_view(), sample@.len()),
{
    let count: usize = sample.len();
    let ghost before = cells@;
    let mut c: usize = 0;
    while c < count
        invariant
            count == sample@.len(),
            c <= count,
            cells@ == before + sample_cells(sample.deep_view(), c as nat),
        decreases count - c,
    {
        append_cells(cells, &sample[c]);
        assert(cells@ =~= before + sample_cells(sample.deep_view(), (c + 1) as nat));
        c = c + 1;
    }
}

/// The batch as a list of one matrix with a row of `prev_neurons` cells for each sample:
/// the cells of its channels, one channel after the other.
pub fn _flatten_withno_channel<T: Copy>(inputs: &Vec<Vec<Matrix<T>>>, prev_neurons: usize) -> (out: Vec<Matrix<T>>)
    requires
        batch_cells(inputs.deep_view(), inputs@.len()).len() == inputs@.len() * prev_neurons,
    ensures
        out.deep_view() == flatten_spec(inputs.deep_view(), prev_neurons as nat),
{
    let flat: Matrix<T> = flattened(inputs, prev_neurons);
    let mut out: Vec<Matrix<T>> = Vec::new();
    out.push(flat);
    assert(out.deep_view() =~= flatten_spec(inputs.deep_view(), prev_neurons as nat));
    out
}

/// The batch as one matrix with a row of `prev_neurons` cells for each sample.
pub fn flattened<T: Copy>(inputs: &Vec<Vec<Matrix<T>>>, prev_neurons: usize) -> (out: Matrix<T>)
    requires
        batch_cells(inputs.deep_view(), inputs@.len()).len() == inputs@.len() * prev_neurons,
    ensures
        out@ == flatten_spec(inputs.deep_view(), prev_neurons as nat)[0],
{
    let samples: usize = inputs.len();
    let mut cells: Vec<T> = Vec::new();
    let mut s: usize = 0;
    while s < samples
        invariant
            samples == inputs@.len(),
            s <= samples,
            cells@ == batch_cells(inputs.deep_view(), s as nat),
        decreases samples - s,
    {
        append_sample(&mut cells, &inputs[s]);
        assert(inputs.deep_view()[s as int] == inputs@[s as int].deep_view());
        s = s + 1;
    }
    Matrix::from_cells(samples, prev_neurons, cells)
}

/// The number of cells of the sample, if a machine word can hold it.
pub fn sample_len<T>(sample: &Vec<Matrix<T>>) -> (cells: Option<usize>)
    ensures
        cells matches Some(n) ==> n == sample_cells(sample.deep_view(), sample@.len()).len(),
        cells is None ==> sample_cells(sample.deep_view(), sample@.len()).len() > usize::MAX,
{
    let count: usize = sample.len();
    let mut total: usize = 0;
    let mut c: usize = 0;
    while c < count
        invariant
            count == sample@.len(),
            c <= count,
            total == sample_cells(sample.deep_view(), c as nat).len(),
        decreases count - c,
    {
        match total.checked_add(sample[c].len()) {
            Some(more) => {
                total = more;
            },
            None => {
                proof {
                    lemma_sample_cells_grow(sample.deep_view(), (c + 1) as nat, count as nat);
                }
                return None;
            },
        }
        c = c + 1;
    }
    Some(total)
}

/// More channels hold no fewer cells.
pub proof fn lemma_sample_cells_grow<T>(sample: Seq<Grid<T>>, n: nat, m: nat)
    requires
        n <= m,
    ensures
        sample_cells(sample, n).len() <= sample_cells(sample, m).len(),
    decreases m,
{
    if n < m {
        lemma_sample_cells_grow(sample, n, (m - 1) as nat);
    }
}

/// Whether every sample of the batch holds `cells` cells.
pub fn do_samples_hold<T>(batch: &Vec<Vec<Matrix<T>>>, cells: usize) -> (yes: bool)
    ensures
        yes == samples_hold(batch.deep_view(), cells as nat),
{
    let count: usize = batch.len();
    let mut s: usize = 0;
    while s < count
        invariant
            count == batch@.len(),
            s <= count,
            forall|j: int|
                0 <= j < s ==> sample_cells(#[trigger] batch.deep_view()[j], batch.deep_view()[j].len()).len()
                    == cells,
        decreases count - s,
    {
        let held: Option<usize> = sample_len(&batch[s]);
        assert(batch.deep_view()[s as int] == batch@[s as int].deep_view());
        match held {
            Some(n) => {
                if n != cells {
                    return false;
                }
            },
            None => {
                return false;
            },
        }
        s = s + 1;
    }
    true
}

/// Cells number `from` up to `from + rows * cols` of the matrix, as a matrix of their own.
pub fn slice_cells<T: Copy>(matrix: &Matrix<T>, from: usize, rows: usize, cols: usize) -> (out: Matrix<T>)
    requires
        from + rows * cols <= matrix@.cells.len(),
    ensures
        out@ == (Grid {
            rows: rows as nat,
            cols: cols as nat,
            cells: matrix@.cells.subrange(from as int, from + rows * cols),
        }),
{
    let held: usize = matrix.len();
    assert(0 <= rows * cols) by (nonlinear_arith)
        requires
            0 <= rows,
            0 <= cols,
    ;
    let total: usize = rows * cols;
    let mut data: Vec<T> = Vec::new();
    let mut k: usize = 0;
    while k < total
        invariant
            from + total <= matrix@.cells.len(),
            matrix@.cells.len() <= usize::MAX,
            k <= total,
            data@.len() == k,
            forall|i: int| 0 <= i < k ==> data@[i] == matrix@.cells[from + i],
        decreases total - k,
    {
        data.push(matrix.cell(from + k));
        k = k + 1;
    }
    assert(data@ =~= matrix@.cells.subrange(from as int, from + rows * cols));
    Matrix::from_cells(rows, cols, data)
}

/// A copy of the list of matrices.
pub fn copied_sample<T: Copy>(sample: &Vec<Matrix<T>>) -> (out: Vec<Matrix<T>>)
    ensures
        out.deep_view() == sample.deep_view(),
{
    let count: usize = sample.len();
    let mut out: Vec<Matrix<T>> = Vec::new();
    let mut c: usize = 0;
    while c < count
        invariant
            count == sample@.len(),
            c <= count,
            out@.len() == c,
            forall|i: int| 0 <= i < c ==> (#[trigger] out@[i])@ == sample@[i]@,
        decreases count - c,
    {
        out.push(sample[c].copied());
        c = c + 1;
    }
    assert(out.deep_view() =~= sample.deep_view());
    out
}

/// A copy of the batch.
pub fn copied_batch<T: Copy>(batch: &Vec<Vec<Matrix<T>>>) -> (out: Vec<Vec<Matrix<T>>>)
    ensures
        out.deep_view() == batch.deep_view(),
{
    let count: usize = batch.len();
    let mut out: Vec<Vec<Matrix<T>>> = Vec::new();
    let mut s: usize = 0;
    while s < count
        invariant
            count == batch@.len(),
            s <= count,
            out@.len() == s,
            forall|i: int| 0 <= i < s ==> (#[trigger] out@[i]).deep_view() == batch@[i].deep_view(),
        decreases count - s,
    {
        out.push(copied_sample(&batch[s]));
        s = s + 1;
    }
    assert(out.deep_view() =~= batch.deep_view());
    out
}

/// Where `boundary` is 1, the first matrix of the list cut into `out_channel` square
/// matrices of the width that the geometry gives, in the order of its cells; a copy of
/// the list otherwise.
pub fn _restore_with_channel<T: Copy>(
    matrix: &Vec<Matrix<T>>,
    out_channel: usize,
    prev_width: usize,
    filter_width: usize,
    stride: usize,
    padding: usize,
    boundary: usize,
) -> (out: Vec<Matrix<T>>)
    requires
        boundary == 1 ==> {
            let width = cal_shape_spec(prev_width as int, filter_width as int, stride as int, padding as int);
            &&& stride > 0
            &&& filter_width <= prev_width + 2 * padding
            &&& matrix@.len() >= 1
            &&& out_channel * (width * width) <= matrix@[0]@.cells.len()
        },
    ensures
        out.deep_view() == restore_with_channel_spec(
            matrix.deep_view(),
            out_channel as nat,
            prev_width as int,
            filter_width as int,
            stride as int,
            padding as int,
            boundary as int,
        ),
{
    if boundary != 1 {
        return copied_sample(matrix);
    }
    let ghost width = cal_shape_spec(prev_width as int, filter_width as int, stride as int, padding as int);
    let held: usize = matrix[0].len();
    if out_channel == 0 {
        let out: Vec<Matrix<T>> = Vec::new();
        assert(out.deep_view() =~= restore_with_channel_spec(
            matrix.deep_view(),
            out_channel as nat,
            prev_width as int,
            filter_width as int,
            stride as int,
            padding as int,
            boundary as int,
        ));
        return out;
    }
    proof {
        assert(width >= 1) by {
            vstd::arithmetic::div_mod::lemma_div_pos_is_pos(
                prev_width - filter_width + 2 * padding,
                stride as int,
            );
        }
        assert(width * width <= out_channel * (width * width)) by (nonlinear_arith)
            requires
                out_channel >= 1,
                width * width >= 0,
        ;
        assert(width <= width * width) by (nonlinear_arith)
            requires
                width >= 1,
        ;
    }
    let data_width: usize = cal_shape(prev_width, filter_width, stride, padding);
    let cells: usize = data_width * data_width;
    let mut out: Vec<Matrix<T>> = Vec::new();
    let mut ch: usize = 0;
    while ch < out_channel
        invariant
            matrix@.len() >= 1,
            data_width == width,
            cells == width * width,
            out_channel * cells <= matrix@[0]@.cells.len(),
            matrix@[0]@.cells.len() <= usize::MAX,
            ch <= out_channel,
            out@.len() == ch,
            forall|i: int|
                0 <= i < ch ==> (#[trigger] out@[i])@ == (Grid {
                    rows: width as nat,
                    cols: width as nat,
                    cells: matrix@[0]@.cells.subrange(i * (width * width), (i + 1) * (width * width)),
                }),
        decreases out_channel - ch,
    {
        proof {
            assert((ch + 1) * cells <= out_channel * cells) by (nonlinear_arith)
                requires
                    ch + 1 <= out_channel,
                    cells >= 0,
            ;
            assert((ch + 1) * cells == ch * cells + cells) by (nonlinear_arith);
            assert(0 <= ch * cells) by (nonlinear_arith)
                requires
                    0 <= ch,
                    0 <= cells,
            ;
        }
        out.push(slice_cells(&matrix[0], ch * cells, data_width, data_width));
        ch = ch + 1;
    }
    assert(out.deep_view() =~= restore_with_channel_spec(
        matrix.deep_view(),
        out_channel as nat,
        prev_width as int,
        filter_width as int,
        stride as int,
        padding as int,
        boundary as int,
    ));
    out
}

/// The two lists added matrix by matrix, as far as the shorter one goes.
pub fn sum_nested_vector<T: Scalar>(a: &Vec<Matrix<T>>, b: &Vec<Matrix<T>>) -> (out: Vec<Matrix<T>>)
    requires
        forall|i: int|
            0 <= i < a@.len() && i < b@.len() ==> (#[trigger] a@[i])@.rows == b@[i]@.rows && a@[i]@.cols
                == b@[i]@.cols,
    ensures
        out.deep_view() == sum_nested_vector_spec(a.deep_view(), b.deep_view()),
{
    let count: usize = if a.len() <= b.len() {
        a.len()
    } else {
        b.len()
    };
    let mut out: Vec<Matrix<T>> = Vec::new();
    let mut i: usize = 0;
    while i < count
        invariant
            count <= a@.len(),
            count <= b@.len(),
            forall|j: int|
                0 <= j < a@.len() && j < b@.len() ==> (#[trigger] a@[j])@.rows == b@[j]@.rows && a@[j]@.cols
                    == b@[j]@.cols,
            i <= count,
            out@.len() == i,
            forall|j: int| 0 <= j < i ==> (#[trigger] out@[j])@ == combine_spec(Binary::Plus, a@[j]@, b@[j]@),
        decreases count - i,
    {
        out.push(combine(Binary::Plus, &a[i], &b[i]));
        i = i + 1;
    }
    assert(out.deep_view() =~= sum_nested_vector_spec(a.deep_view(), b.deep_view()));
    out
}

} // verus!
