//! Dense layers: an affine map of the flattened sample.
//!
//! A dense layer takes a batch as a list of samples and reads every sample as the list of
//! its cells, which make one row of the stacked input. It gives `weights · inputᵗ + bias`,
//! one matrix for the whole batch with a row for each neuron and a column for each
//! sample, which is what the normalised exponential takes.
//!
//! How two dense layers chain is a choice of this library. For a single sample what a
//! dense layer gives is a column of as many cells as it has neurons, and the next dense
//! layer takes it as one sample, with or without a rectifier between them; this is how a
//! network is trained one sample at a time. On the way back the layer hands the gradient
//! on in the shape of what it was given, and takes the gradient of a single sample in any
//! shape with a cell for each neuron. For more than one sample at a time what a dense
//! layer gives is one matrix for all samples, which another dense layer does not take as
//! a batch: it answers with an error, and never reads columns as rows.

use crate::algebra::{
    column_sums,
    column_sums_spec,
    combine,
    combine_spec,
    plus_column,
    plus_column_spec,
    product,
    product_spec,
    scalar_with,
    scalar_with_spec,
    transposed,
    transposed_spec,
    with_scalar,
    with_scalar_spec,
    Binary,
};
use crate::error::NetError;
use crate::matrix::{filled_spec, Grid, Matrix};
use crate::batch::{batch_channels, has_channels};
use crate::reshape::{
    batch_cells, do_samples_hold, flattened, lemma_batch_cells_len, sample_cells, samples_hold, slice_cells,
};
use crate::scalar::Scalar;
use vstd::prelude::*;

verus! {

/// The whole number whose square is the largest square that is not above `n`.
pub fn whole_root(n: usize) -> (root: usize)
    ensures
        root * root <= n < (root + 1) * (root + 1),
{
    let mut root: usize = 0;
    let mut next: u128 = 1;
    while next <= n as u128
        invariant
            root * root <= n,
            root <= 0xffff_ffff,
            next == (root + 1) * (root + 1),
        decreases n - root * root,
    {
        assert((root + 1) * (root + 1) == root * root + 2 * root + 1) by (nonlinear_arith);
        assert(root + 1 <= 0xffff_ffff) by (nonlinear_arith)
            requires
                (root + 1) * (root + 1) <= n,
                n <= 0xffff_ffff_ffff_ffff,
                root >= 0,
        ;
        root = root + 1;
        assert((root + 1) * (root + 1) <= 0x1_0000_0000 * 0x1_0000_0000) by (nonlinear_arith)
            requires
                0 <= root + 1 <= 0x1_0000_0000,
        ;
        next = (root as u128 + 1) * (root as u128 + 1);
    }
    root
}

/// The number of cells of `boundary` square matrices of the given width.
pub open spec fn cells_of_squares(boundary: nat, width: nat) -> nat {
    boundary * (width * width)
}

/// The cells of a row can be laid out as `boundary` square matrices; any row will do
/// where `boundary` is zero.
pub open spec fn squares(prev_neurons: nat, boundary: nat) -> bool {
    boundary != 0 ==> exists|width: nat| prev_neurons == #[trigger] cells_of_squares(boundary, width)
}

/// The width of the `boundary` squares that the cells of a row make; zero where
/// `boundary` is zero.
pub open spec fn square_width_spec(prev_neurons: nat, boundary: nat) -> nat {
    if boundary == 0 {
        0
    } else {
        choose|width: nat| prev_neurons == #[trigger] cells_of_squares(boundary, width)
    }
}

/// Squares of one width only make up a row.
pub proof fn lemma_square_width_unique(prev_neurons: nat, boundary: nat, width: nat)
    requires
        boundary != 0,
        prev_neurons == cells_of_squares(boundary, width),
    ensures
        square_width_spec(prev_neurons, boundary) == width,
{
    let other = square_width_spec(prev_neurons, boundary);
    assert(prev_neurons == cells_of_squares(boundary, other));
    assert(other == width) by (nonlinear_arith)
        requires
            boundary * (other * other) == boundary * (width * width),
            boundary > 0,
            other >= 0,
            width >= 0,
    ;
}

/// The dense layer with the given weights and bias, before it has been checked.
pub open spec fn full_of<T: Scalar>(
    neurons: nat,
    prev_neurons: nat,
    alpha: T,
    boundary: nat,
    weights: Grid<T>,
    bias: Grid<T>,
) -> FullView<T> {
    FullView {
        neurons,
        prev_neurons,
        alpha,
        boundary,
        width: square_width_spec(prev_neurons, boundary),
        weights,
        bias,
    }
}

/// What a dense layer is made of. `width` is the width of the square matrices that a row
/// of the input is made of where the layer follows a spatial layer (`boundary` is then
/// the number of those matrices), and zero where it does not (`boundary` is zero).
pub ghost struct FullView<T> {
    pub neurons: nat,
    pub prev_neurons: nat,
    pub alpha: T,
    pub boundary: nat,
    pub width: nat,
    pub weights: Grid<T>,
    pub bias: Grid<T>,
}

impl<T: Scalar> FullView<T> {
    /// The weights have a row for each neuron and a column for each input, the bias is a
    /// column with a cell for each neuron, and a row of the input is made of as many
    /// squares as `boundary` says.
    pub open spec fn wf(self) -> bool {
        &&& self.weights.wf()
        &&& self.weights.has_shape(self.neurons as int, self.prev_neurons as int)
        &&& self.bias.wf()
        &&& self.bias.has_shape(self.neurons as int, 1)
        &&& if self.boundary == 0 {
            self.width == 0
        } else {
            self.prev_neurons == self.boundary * (self.width * self.width)
        }
    }

    /// The batch as one matrix with a row for each sample: the cells of the sample, one
    /// channel after the other.
    pub open spec fn flat_input(self, inputs: Seq<Seq<Grid<T>>>) -> Grid<T> {
        Grid { rows: inputs.len(), cols: self.prev_neurons, cells: batch_cells(inputs, inputs.len()) }
    }

    /// The layer takes this batch: every sample holds as many cells as the layer has
    /// inputs, in one matrix where the layer does not follow a spatial layer, and
    /// neither the flat batch nor the output is too large for this machine.
    pub open spec fn accepts(self, inputs: Seq<Seq<Grid<T>>>) -> bool {
        &&& samples_hold(inputs, self.prev_neurons)
        &&& self.boundary == 0 ==> batch_channels(inputs, 1)
        &&& inputs.len() * self.prev_neurons <= usize::MAX
        &&& self.neurons * inputs.len() <= usize::MAX
    }

    /// What the layer gives for a flat batch `x`: `weights · xᵗ + bias`, a matrix with a
    /// row for each neuron and a column for each sample.
    pub open spec fn affine(self, x: Grid<T>) -> Grid<T> {
        plus_column_spec(product_spec(self.weights, transposed_spec(x)), self.bias)
    }

    /// What the layer gives: one matrix for the whole batch.
    pub open spec fn forward_spec(self, inputs: Seq<Seq<Grid<T>>>) -> Seq<Seq<Grid<T>>> {
        seq![seq![self.affine(self.flat_input(inputs))]]
    }

    /// The layer takes this gradient back for these inputs: it is one matrix with a row
    /// for each sample and a column for each neuron; the gradient of a single sample may
    /// have any shape with a cell for each neuron.
    pub open spec fn accepts_backward(self, inputs: Seq<Seq<Grid<T>>>, next_deltas: Seq<Seq<Grid<T>>>) -> bool {
        &&& self.accepts(inputs)
        &&& next_deltas.len() >= 1
        &&& next_deltas[0].len() >= 1
        &&& next_deltas[0][0].wf()
        &&& next_deltas[0][0].cells.len() == inputs.len() * self.neurons
        &&& inputs.len() == 1 || next_deltas[0][0].has_shape(inputs.len() as int, self.neurons as int)
    }

    /// The gradient as a matrix with a row for each sample and a column for each neuron.
    pub open spec fn next_rows(self, inputs: Seq<Seq<Grid<T>>>, next_deltas: Seq<Seq<Grid<T>>>) -> Grid<T> {
        Grid { rows: inputs.len(), cols: self.neurons, cells: next_deltas[0][0].cells }
    }

    /// The gradient of the weights: `next_deltaᵗ · x`.
    pub open spec fn derivate_weight(self, x: Grid<T>, next_delta: Grid<T>) -> Grid<T> {
        product_spec(transposed_spec(next_delta), x)
    }

    /// The gradient with respect to the flat input: `next_delta · weights`.
    pub open spec fn flat_delta(self, next_delta: Grid<T>) -> Grid<T> {
        product_spec(next_delta, self.weights)
    }

    /// The gradient with respect to the input, under the layout of the input: for each
    /// sample, the cells of its row of `next_delta · weights`, as one matrix of the shape
    /// of the sample's matrix where the layer does not follow a spatial layer, and
    /// otherwise as `boundary` square matrices, cut from the row one after the other.
    pub open spec fn delta_spec(self, inputs: Seq<Seq<Grid<T>>>, next_delta: Grid<T>) -> Seq<Seq<Grid<T>>> {
        let flat = self.flat_delta(next_delta);
        if self.boundary == 0 {
            Seq::new(
                next_delta.rows,
                |s: int|
                    seq![
                        Grid {
                            rows: inputs[s][0].rows,
                            cols: inputs[s][0].cols,
                            cells: Seq::new(self.prev_neurons, |k: int| flat.cells[s * self.prev_neurons + k]),
                        },
                    ],
            )
        } else {
            let cells = self.width * self.width;
            Seq::new(
                next_delta.rows,
                |s: int|
                    Seq::new(
                        self.boundary,
                        |ch: int|
                            Grid {
                                rows: self.width,
                                cols: self.width,
                                cells: Seq::new(cells, |k: int| flat.cells[(s * self.boundary + ch) * cells + k]),
                            },
                    ),
            )
        }
    }

    /// The layer after one step: the weights lose `alpha` times their gradient, divided
    /// by the number of neurons; the bias loses `alpha` times the sum of the gradient
    /// over the samples, divided by the number of samples. Each quotient is taken last.
    pub open spec fn updated_spec(self, derivate_weight: Grid<T>, derivate_bias: Grid<T>) -> FullView<T> {
        FullView {
            weights: combine_spec(
                Binary::Minus,
                self.weights,
                with_scalar_spec(
                    Binary::Over,
                    scalar_with_spec(Binary::Times, self.alpha, derivate_weight),
                    T::count_spec(self.neurons as usize),
                ),
            ),
            bias: combine_spec(
                Binary::Minus,
                self.bias,
                with_scalar_spec(
                    Binary::Over,
                    scalar_with_spec(Binary::Times, self.alpha, column_sums_spec(derivate_bias)),
                    T::count_spec(derivate_bias.rows as usize),
                ),
            ),
            ..self
        }
    }

    /// The layer after one training step on the batch.
    pub open spec fn trained_spec(self, inputs: Seq<Seq<Grid<T>>>, next_deltas: Seq<Seq<Grid<T>>>) -> FullView<T> {
        let next_delta = self.next_rows(inputs, next_deltas);
        self.updated_spec(self.derivate_weight(self.flat_input(inputs), next_delta), next_delta)
    }

    /// The gradient with respect to the inputs, computed with the weights as they were
    /// before the step.
    pub open spec fn backward_spec(self, inputs: Seq<Seq<Grid<T>>>, next_deltas: Seq<Seq<Grid<T>>>) -> Seq<
        Seq<Grid<T>>,
    > {
        self.delta_spec(inputs, self.next_rows(inputs, next_deltas))
    }
}

/// A well-formed dense layer is well formed after a step.
pub proof fn lemma_update_keeps_layer<T: Scalar>(layer: FullView<T>, derivate_weight: Grid<T>, derivate_bias: Grid<T>)
    requires
        layer.wf(),
    ensures
        layer.updated_spec(derivate_weight, derivate_bias).wf(),
{
}

/// A dense layer: see the notes of this module on what it takes and gives.
pub struct FullLayer<T: Scalar> {
    neurons: usize,
    prev_neurons: usize,
    alpha: T,
    boundary: usize,
    width: usize,
    weights: Matrix<T>,
    bias: Matrix<T>,
}

impl<T: Scalar> View for FullLayer<T> {
    type V = FullView<T>;

    closed spec fn view(&self) -> FullView<T> {
        FullView {
            neurons: self.neurons as nat,
            prev_neurons: self.prev_neurons as nat,
            alpha: self.alpha,
            boundary: self.boundary as nat,
            width: self.width as nat,
            weights: self.weights@,
            bias: self.bias@,
        }
    }
}

impl<T: Scalar> DeepView for FullLayer<T> {
    type V = FullView<T>;

    open spec fn deep_view(&self) -> FullView<T> {
        self@
    }
}

/// The width of the `boundary` squares that `prev_neurons` cells make, if they make
/// squares; zero where `boundary` is zero.
pub fn square_width(prev_neurons: usize, boundary: usize) -> (width: Option<usize>)
    ensures
        width is Some <==> squares(prev_neurons as nat, boundary as nat),
        width matches Some(w) ==> if boundary == 0 {
            w == 0
        } else {
            prev_neurons == boundary * (w * w)
        },
{
    if boundary == 0 {
        return Some(0);
    }
    let share: usize = prev_neurons / boundary;
    let root: usize = whole_root(share);
    proof {
        vstd::arithmetic::div_mod::lemma_fundamental_div_mod(prev_neurons as int, boundary as int);
    }
    if prev_neurons % boundary == 0 && root * root == share {
        assert(boundary * (root * root) == prev_neurons);
        assert(squares(prev_neurons as nat, boundary as nat)) by {
            assert(prev_neurons as nat == cells_of_squares(boundary as nat, root as nat));
        }
        Some(root)
    } else {
        proof {
            if squares(prev_neurons as nat, boundary as nat) {
                let w = choose|w: nat| prev_neurons as nat == #[trigger] cells_of_squares(boundary as nat, w);
                vstd::arithmetic::div_mod::lemma_fundamental_div_mod_converse(
                    prev_neurons as int,
                    boundary as int,
                    (w * w) as int,
                    0,
                );
                assert(w * w == share);
                assert(w == root) by (nonlinear_arith)
                    requires
                        root * root <= w * w < (root + 1) * (root + 1),
                        w >= 0,
                        root >= 0,
                ;
            }
        }
        None
    }
}

impl<T: Scalar> FullLayer<T> {
    #[verifier::type_invariant]
    closed spec fn inv(&self) -> bool {
        self@.wf()
    }

    /// The layer with the given weights and a bias of zeros, if the weights have a row
    /// for each neuron and a column for each input, and the inputs make `boundary`
    /// squares where `boundary` is not zero.
    pub fn new(neurons: usize, prev_neurons: usize, alpha: T, boundary: usize, weights: Matrix<T>) -> (made: Result<
        FullLayer<T>,
        NetError,
    >)
        ensures
            made is Ok <==> weights@.has_shape(neurons as int, prev_neurons as int) && squares(
                prev_neurons as nat,
                boundary as nat,
            ),
            made matches Ok(layer) ==> layer@.wf() && layer@ == full_of(
                neurons as nat,
                prev_neurons as nat,
                alpha,
                boundary as nat,
                weights@,
                filled_spec(neurons as nat, 1, T::zero_spec()),
            ),
            made matches Err(e) ==> e == NetError::ShapeMismatch,
    {
        assert(neurons * 1 == neurons);
        let bias: Matrix<T> = Matrix::filled(neurons, 1, T::zero());
        FullLayer::assemble(neurons, prev_neurons, alpha, boundary, weights, bias)
    }

    /// The layer with the given weights and bias, if the weights have a row for each
    /// neuron and a column for each input, the bias is a column with a cell for each
    /// neuron, and the inputs make `boundary` squares where `boundary` is not zero.
    pub fn assemble(
        neurons: usize,
        prev_neurons: usize,
        alpha: T,
        boundary: usize,
        weights: Matrix<T>,
        bias: Matrix<T>,
    ) -> (made: Result<FullLayer<T>, NetError>)
        ensures
            made is Ok <==> weights@.has_shape(neurons as int, prev_neurons as int) && bias@.has_shape(
                neurons as int,
                1,
            ) && squares(prev_neurons as nat, boundary as nat),
            made matches Ok(layer) ==> layer@.wf() && layer@ == full_of(
                neurons as nat,
                prev_neurons as nat,
                alpha,
                boundary as nat,
                weights@,
                bias@,
            ),
            made matches Err(e) ==> e == NetError::ShapeMismatch,
    {
        if weights.rows() != neurons || weights.cols() != prev_neurons || bias.rows() != neurons || bias.cols()
            != 1 {
            return Err(NetError::ShapeMismatch);
        }
        match square_width(prev_neurons, boundary) {
            Some(width) => {
                proof {
                    if boundary != 0 {
                        lemma_square_width_unique(prev_neurons as nat, boundary as nat, width as nat);
                    }
                }
                Ok(FullLayer { neurons, prev_neurons, alpha, boundary, width, weights, bias })
            },
            None => Err(NetError::ShapeMismatch),
        }
    }

    pub fn neurons(&self) -> (n: usize)
        ensures
            n == self@.neurons,
            self@.wf(),
    {
        proof {
            use_type_invariant(self);
        }
        self.neurons
    }

    pub fn prev_neurons(&self) -> (n: usize)
        ensures
            n == self@.prev_neurons,
    {
        self.prev_neurons
    }

    pub fn alpha(&self) -> (a: T)
        ensures
            a == self@.alpha,
    {
        self.alpha
    }

    pub fn boundary(&self) -> (n: usize)
        ensures
            n == self@.boundary,
    {
        self.boundary
    }

    pub fn weights(&self) -> (m: &Matrix<T>)
        ensures
            m@ == self@.weights,
    {
        &self.weights
    }

    pub fn bias(&self) -> (m: &Matrix<T>)
        ensures
            m@ == self@.bias,
    {
        &self.bias
    }

    /// The batch as one matrix with a row for each sample, if the layer takes the batch.
    fn flat_input(&self, inputs: &Vec<Vec<Matrix<T>>>) -> (flat: Option<Matrix<T>>)
        ensures
            flat is Some <==> self@.accepts(inputs.deep_view()),
            flat matches Some(x) ==> x@ == self@.flat_input(inputs.deep_view()) && x@.wf(),
    {
        if !do_samples_hold(inputs, self.prev_neurons) {
            return None;
        }
        if self.boundary == 0 && !has_channels(inputs, 1) {
            return None;
        }
        let samples: usize = inputs.len();
        if samples.checked_mul(self.prev_neurons).is_none() || self.neurons.checked_mul(samples).is_none() {
            return None;
        }
        proof {
            lemma_batch_cells_len(inputs.deep_view(), self@.prev_neurons, inputs@.len() as nat);
        }
        let flat: Matrix<T> = flattened(inputs, self.prev_neurons);
        let rows: usize = flat.rows();
        Some(flat)
    }

    /// What the layer gives for a flat batch.
    fn affine(&self, x: &Matrix<T>) -> (out: Matrix<T>)
        requires
            x@.cols == self@.prev_neurons,
            self@.neurons * x@.rows <= usize::MAX,
        ensures
            out@ == self@.affine(x@),
    {
        proof {
            use_type_invariant(self);
        }
        let rows: usize = x.rows();
        let held: usize = self.weights.rows();
        let tall: usize = self.bias.rows();
        let turned: Matrix<T> = transposed(x);
        let mapped: Matrix<T> = product(&self.weights, &turned);
        let wide: usize = mapped.rows();
        plus_column(&mapped, &self.bias)
    }

    /// One matrix for the whole batch, with a row for each neuron and a column for each
    /// sample: `weights · xᵗ + bias`, where `x` is the batch as one matrix with a row for
    /// each sample.
    pub fn forward(&self, inputs: &Vec<Vec<Matrix<T>>>) -> (out: Result<Vec<Vec<Matrix<T>>>, NetError>)
        ensures
            out is Ok <==> self@.accepts(inputs.deep_view()),
            out matches Ok(outputs) ==> outputs.deep_view() == self@.forward_spec(inputs.deep_view()),
            out matches Err(e) ==> e == NetError::ShapeMismatch,
    {
        match self.flat_input(inputs) {
            None => Err(NetError::ShapeMismatch),
            Some(x) => {
                let cols: usize = x.cols();
                proof {
                    use_type_invariant(self);
                }
                let z: Matrix<T> = self.affine(&x);
                let mut sample: Vec<Matrix<T>> = Vec::new();
                sample.push(z);
                let mut outputs: Vec<Vec<Matrix<T>>> = Vec::new();
                outputs.push(sample);
                assert(outputs.deep_view() =~~= self@.forward_spec(inputs.deep_view()));
                Ok(outputs)
            },
        }
    }

    /// The gradient with respect to the input, under the layout of the input.
    pub fn cal_delta(&self, inputs: &Vec<Vec<Matrix<T>>>, next_delta: &Matrix<T>) -> (out: Vec<Vec<Matrix<T>>>)
        requires
            next_delta@.cols == self@.neurons,
            next_delta@.rows * self@.prev_neurons <= usize::MAX,
            self@.boundary == 0 ==> inputs@.len() == next_delta@.rows && samples_hold(
                inputs.deep_view(),
                self@.prev_neurons,
            ) && batch_channels(inputs.deep_view(), 1),
        ensures
            out.deep_view() == self@.delta_spec(inputs.deep_view(), next_delta@),
    {
        proof {
            use_type_invariant(self);
        }
        let sample: usize = next_delta.rows();
        let held: usize = self.weights.rows();
        let delta: Matrix<T> = product(next_delta, &self.weights);
        let total: usize = delta.len();
        let ghost flat = delta@;
        let ghost target = self@.delta_spec(inputs.deep_view(), next_delta@);
        let mut out: Vec<Vec<Matrix<T>>> = Vec::new();
        if self.boundary == 0 {
            let prev: usize = self.prev_neurons;
            let mut s: usize = 0;
            while s < sample
                invariant
                    self@.boundary == 0,
                    prev == self@.prev_neurons,
                    flat == delta@,
                    flat == self@.flat_delta(next_delta@),
                    flat.cells.len() == sample * prev,
                    flat.cells.len() <= usize::MAX,
                    sample == next_delta@.rows,
                    sample == inputs@.len(),
                    samples_hold(inputs.deep_view(), self@.prev_neurons),
                    batch_channels(inputs.deep_view(), 1),
                    target == self@.delta_spec(inputs.deep_view(), next_delta@),
                    s <= sample,
                    out@.len() == s,
                    forall|j: int| 0 <= j < s ==> (#[trigger] out@[j]).deep_view() == target[j],
                decreases sample - s,
            {
                proof {
                    let one = inputs.deep_view()[s as int];
                    assert(one.len() == 1);
                    assert(sample_cells(one, one.len()).len() == prev);
                    assert(sample_cells(one, 0).len() == 0);
                    assert(sample_cells(one, 1) == sample_cells(one, 0) + one[0].cells);
                    assert(one[0] == inputs@[s as int]@[0]@);
                    assert((s + 1) * prev <= sample * prev) by (nonlinear_arith)
                        requires
                            s + 1 <= sample,
                            prev >= 0,
                    ;
                    assert((s + 1) * prev == s * prev + prev) by (nonlinear_arith);
                    assert(0 <= s * prev) by (nonlinear_arith)
                        requires
                            0 <= s,
                            0 <= prev,
                    ;
                }
                let shaped: &Matrix<T> = &inputs[s][0];
                let rows: usize = shaped.rows();
                let cols: usize = shaped.cols();
                let cells: usize = shaped.len();
                let cut: Matrix<T> = slice_cells(&delta, s * prev, rows, cols);
                assert(cut@.cells =~= target[s as int][0].cells);
                let mut only: Vec<Matrix<T>> = Vec::new();
                only.push(cut);
                assert(only.deep_view() =~= target[s as int]);
                out.push(only);
                s = s + 1;
            }
            assert(out.deep_view() =~= target);
            return out;
        }
        let ghost square = self@.width * self@.width;
        proof {
            assert(self@.prev_neurons == self@.boundary * square);
            assert(0 <= square) by (nonlinear_arith)
                requires
                    square == self@.width * self@.width,
            ;
            assert(square <= self@.boundary * square) by (nonlinear_arith)
                requires
                    self@.boundary >= 1,
                    square >= 0,
            ;
        }
        let cells: usize = self.width * self.width;
        let mut s: usize = 0;
        while s < sample
            invariant
                self@.wf(),
                self@.boundary != 0,
                flat == delta@,
                flat == self@.flat_delta(next_delta@),
                flat.cells.len() == sample * self@.prev_neurons,
                flat.cells.len() <= usize::MAX,
                sample == next_delta@.rows,
                cells == self@.width * self@.width,
                target == self@.delta_spec(inputs.deep_view(), next_delta@),
                s <= sample,
                out@.len() == s,
                forall|j: int| 0 <= j < s ==> (#[trigger] out@[j]).deep_view() == target[j],
            decreases sample - s,
        {
            let mut channels: Vec<Matrix<T>> = Vec::new();
            let mut ch: usize = 0;
            while ch < self.boundary
                invariant
                    self@.wf(),
                    self@.boundary != 0,
                    flat == delta@,
                    flat == self@.flat_delta(next_delta@),
                    flat.cells.len() == sample * self@.prev_neurons,
                    flat.cells.len() <= usize::MAX,
                    sample == next_delta@.rows,
                    cells == self@.width * self@.width,
                    target == self@.delta_spec(inputs.deep_view(), next_delta@),
                    s < sample,
                    ch <= self@.boundary,
                    channels@.len() == ch,
                    forall|j: int| 0 <= j < ch ==> (#[trigger] channels@[j])@ == target[s as int][j],
                decreases self@.boundary - ch,
            {
                proof {
                    let b = self@.boundary as int;
                    let index = s * b + ch;
                    assert(0 <= index && index + 1 <= sample * b) by (nonlinear_arith)
                        requires
                            0 <= s < sample,
                            0 <= ch < b,
                            index == s * b + ch,
                    ;
                    assert((index + 1) * cells <= (sample * b) * cells) by (nonlinear_arith)
                        requires
                            index + 1 <= sample * b,
                            cells >= 0,
                    ;
                    assert((sample * b) * cells == sample * (b * cells)) by (nonlinear_arith);
                    assert((index + 1) * cells == index * cells + cells) by (nonlinear_arith);
                    assert(0 <= index * cells) by (nonlinear_arith)
                        requires
                            0 <= index,
                            0 <= cells,
                    ;
                    assert(0 <= s * b) by (nonlinear_arith)
                        requires
                            0 <= s,
                            0 <= b,
                    ;
                    assert(index <= index * cells || cells == 0) by (nonlinear_arith)
                        requires
                            index >= 0,
                            cells >= 0,
                    ;
                    assert(sample * b <= flat.cells.len() || cells == 0) by (nonlinear_arith)
                        requires
                            flat.cells.len() == sample * (b * cells),
                            sample >= 0,
                            b >= 0,
                            cells >= 0,
                    ;
                }
                if cells == 0 {
                    assert(self.width == 0) by (nonlinear_arith)
                        requires
                            cells == self.width * self.width,
                            cells == 0,
                    ;
                    let empty: Matrix<T> = slice_cells(&delta, 0, self.width, self.width);
                    assert(empty@.cells =~= target[s as int][ch as int].cells);
                    channels.push(empty);
                } else {
                    let index: usize = s * self.boundary + ch;
                    let cut: Matrix<T> = slice_cells(&delta, index * cells, self.width, self.width);
                    assert(cut@.cells =~= target[s as int][ch as int].cells);
                    channels.push(cut);
                }
                ch = ch + 1;
            }
            assert(channels.deep_view() =~= target[s as int]);
            out.push(channels);
            s = s + 1;
        }
        assert(out.deep_view() =~= target);
        out
    }

    /// One step against the gradients: see [`FullView::updated_spec`].
    pub fn update(&mut self, derivate_weight: &Matrix<T>, derivate_bias: &Matrix<T>)
        requires
            derivate_weight@.has_shape(old(self)@.neurons as int, old(self)@.prev_neurons as int),
            derivate_bias@.cols == old(self)@.neurons,
        ensures
            final(self)@ == old(self)@.updated_spec(derivate_weight@, derivate_bias@),
    {
        proof {
            use_type_invariant(&*self);
        }
        let held: usize = self.weights.rows();
        let tall: usize = self.bias.rows();
        let given: usize = derivate_weight.rows();
        let sample: usize = derivate_bias.rows();
        let weights: Matrix<T> = combine(
            Binary::Minus,
            &self.weights,
            &with_scalar(
                Binary::Over,
                &scalar_with(Binary::Times, self.alpha, derivate_weight),
                T::count(self.neurons),
            ),
        );
        let sums: Matrix<T> = column_sums(derivate_bias);
        let bias: Matrix<T> = combine(
            Binary::Minus,
            &self.bias,
            &with_scalar(Binary::Over, &scalar_with(Binary::Times, self.alpha, &sums), T::count(sample)),
        );
        let wide: usize = weights.rows();
        let high: usize = bias.rows();
        *self = FullLayer {
            neurons: self.neurons,
            prev_neurons: self.prev_neurons,
            alpha: self.alpha,
            boundary: self.boundary,
            width: self.width,
            weights,
            bias,
        };
    }

    /// One training step of the layer: the gradient with respect to the inputs is
    /// computed with the weights as they are, then the weights and the bias take one step
    /// against their gradients. Nothing changes where the shapes do not fit.
    pub fn backward(&mut self, inputs: &Vec<Vec<Matrix<T>>>, next_deltas: &Vec<Vec<Matrix<T>>>) -> (out: Result<
        Vec<Vec<Matrix<T>>>,
        NetError,
    >)
        ensures
            out is Ok <==> old(self)@.accepts_backward(inputs.deep_view(), next_deltas.deep_view()),
            out matches Ok(deltas) ==> deltas.deep_view() == old(self)@.backward_spec(
                inputs.deep_view(),
                next_deltas.deep_view(),
            ) && final(self)@ == old(self)@.trained_spec(inputs.deep_view(), next_deltas.deep_view()),
            out matches Err(e) ==> e == NetError::ShapeMismatch && final(self)@ == old(self)@,
    {
        proof {
            use_type_invariant(&*self);
        }
        let flat: Option<Matrix<T>> = self.flat_input(inputs);
        match flat {
            None => Err(NetError::ShapeMismatch),
            Some(x) => {
                if next_deltas.len() == 0 || next_deltas[0].len() == 0 {
                    return Err(NetError::ShapeMismatch);
                }
                assert(next_deltas.deep_view()[0][0] == next_deltas@[0]@[0]@);
                let given: &Matrix<T> = &next_deltas[0][0];
                let sample: usize = x.rows();
                let cols: usize = x.cols();
                let cells: usize = given.len();
                let high: usize = given.rows();
                if cells != self.neurons * sample {
                    assert(self@.neurons * sample == sample * self@.neurons) by (nonlinear_arith);
                    return Err(NetError::ShapeMismatch);
                }
                assert(self@.neurons * sample == sample * self@.neurons) by (nonlinear_arith);
                if sample != 1 && (given.rows() != sample || given.cols() != self.neurons) {
                    return Err(NetError::ShapeMismatch);
                }
                let next_delta: Matrix<T> = given.copied().reshaped(sample, self.neurons);
                let held: usize = self.weights.len();
                assert(self@.neurons * self@.prev_neurons <= usize::MAX);
                let derivate_weight: Matrix<T> = product(&transposed(&next_delta), &x);
                let deltas: Vec<Vec<Matrix<T>>> = self.cal_delta(inputs, &next_delta);
                self.update(&derivate_weight, &next_delta);
                Ok(deltas)
            },
        }
    }
}

} // verus!
