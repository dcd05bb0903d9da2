//! Convolution layers: the unit that convolves one input channel into one output
//! channel, and the layer that holds one unit for every pair of channels.

use crate::algebra::{
    combine,
    combine_spec,
    plus_column,
    plus_column_spec,
    row_sums,
    row_sums_spec,
    scalar_with,
    scalar_with_spec,
    with_scalar,
    with_scalar_spec,
    Binary,
};
use crate::batch::{batch_channels, batch_shaped, has_channels, is_batch_shaped, sample_shaped};
use crate::error::NetError;
use crate::matrix::{filled_spec, Grid, Matrix};
use crate::reshape::{_restore_with_channel, restore_with_channel_spec, sum_nested_vector, sum_nested_vector_spec};
use crate::rotate::{_rotate, rotate_spec};
use crate::scalar::Scalar;
use crate::shape::{cal_shape, cal_shape_spec, data_check_spec, DATA_CHECK};
use crate::window::{_convolution, convolution_spec, lemma_across, lemma_sizes, slides};
use vstd::prelude::*;

verus! {

/// A geometry that a convolution can be built on: the filter is not empty, the stride
/// divides the distance that the filter can travel over the padded input, and the
/// unrolled windows have no more cells than a machine word can count.
pub open spec fn conv_geometry(prev_width: int, filter_width: int, stride: int, padding: int) -> bool {
    let across = cal_shape_spec(prev_width, filter_width, stride, padding);
    &&& filter_width > 0
    &&& data_check_spec(prev_width, filter_width, padding, stride)
    &&& prev_width + 2 * padding <= usize::MAX
    &&& across * across * (filter_width * filter_width) <= usize::MAX
}

/// Whether a filter of `filter_width` cells can slide over a square matrix of
/// `input_width` cells with this stride and padding, whether or not the stride divides
/// the distance evenly, and the unrolled windows are not too many.
pub open spec fn conv_fits(input_width: int, filter_width: int, stride: int, padding: int) -> bool {
    let across = cal_shape_spec(input_width, filter_width, stride, padding);
    &&& stride > 0
    &&& 0 < filter_width <= input_width + 2 * padding
    &&& input_width + 2 * padding <= usize::MAX
    &&& across * across * (filter_width * filter_width) <= usize::MAX
}

/// Whether the sliding fits: see [`conv_fits`].
pub fn conv_fits_check(input_width: usize, filter_width: usize, stride: usize, padding: usize) -> (fits: bool)
    ensures
        fits == conv_fits(input_width as int, filter_width as int, stride as int, padding as int),
{
    if stride == 0 || filter_width == 0 {
        return false;
    }
    let padded: u128 = input_width as u128 + 2 * (padding as u128);
    if padded > usize::MAX as u128 || filter_width as u128 > padded {
        return false;
    }
    proof {
        lemma_across(input_width as int, filter_width as int, stride as int, padding as int);
    }
    let across: usize = cal_shape(input_width, filter_width, stride, padding);
    proof {
        lemma_sizes(across as int, filter_width as int);
    }
    match across.checked_mul(across) {
        None => false,
        Some(windows) => match filter_width.checked_mul(filter_width) {
            None => false,
            Some(cells) => windows.checked_mul(cells).is_some(),
        },
    }
}

/// Whether the geometry is one that a convolution can be built on: see [`conv_geometry`].
pub fn conv_geometry_check(prev_width: usize, filter_width: usize, stride: usize, padding: usize) -> (valid: bool)
    ensures
        valid == conv_geometry(prev_width as int, filter_width as int, stride as int, padding as int),
{
    DATA_CHECK(prev_width, filter_width, padding, stride) && conv_fits_check(
        prev_width,
        filter_width,
        stride,
        padding,
    )
}

/// What a convolution unit is made of.
pub ghost struct Conv2DView<T> {
    pub prev: nat,
    pub filter_width: nat,
    pub filter: Grid<T>,
    pub bias: Grid<T>,
    pub stride: nat,
    pub padding: nat,
    pub alpha: T,
    pub transposed_filter: Grid<T>,
}

impl<T: Scalar> Conv2DView<T> {
    /// The width of the square matrix that the unit gives.
    pub open spec fn output_width(self) -> int {
        cal_shape_spec(self.prev as int, self.filter_width as int, self.stride as int, self.padding as int)
    }

    /// The geometry is valid, the filter is square and of the filter width, the bias is a
    /// column with a cell for each row of the output, and the transposed filter is the
    /// filter turned by a half turn.
    pub open spec fn wf(self) -> bool {
        &&& conv_geometry(self.prev as int, self.filter_width as int, self.stride as int, self.padding as int)
        &&& self.filter.wf()
        &&& self.filter.has_shape(self.filter_width as int, self.filter_width as int)
        &&& self.bias.wf()
        &&& self.bias.has_shape(self.output_width(), 1)
        &&& self.transposed_filter == rotate_spec(self.filter, 2)
    }

    /// The cross-correlation of the filter over the input, with the bias of each row
    /// added to every cell of the row.
    pub open spec fn forward_spec(self, input: Grid<T>) -> Grid<T> {
        plus_column_spec(convolution_spec(self.filter, input, self.stride as int, self.padding as int), self.bias)
    }

    /// The cross-correlation of the transposed filter over the gradient.
    pub open spec fn delta_spec(self, next_delta: Grid<T>) -> Grid<T> {
        convolution_spec(self.transposed_filter, next_delta, self.stride as int, self.padding as int)
    }

    /// The filter after one step against its gradient: `filter - alpha * gradient`.
    pub open spec fn stepped_filter(self, derivate_filter: Grid<T>) -> Grid<T> {
        combine_spec(Binary::Minus, self.filter, scalar_with_spec(Binary::Times, self.alpha, derivate_filter))
    }

    /// The bias after one step: `bias - alpha * (sums of the rows of the gradient) /
    /// prev`, the quotient taken last.
    pub open spec fn stepped_bias(self, derivate_bias: Grid<T>) -> Grid<T> {
        combine_spec(
            Binary::Minus,
            self.bias,
            with_scalar_spec(
                Binary::Over,
                scalar_with_spec(Binary::Times, self.alpha, row_sums_spec(derivate_bias)),
                T::count_spec(self.prev as usize),
            ),
        )
    }

    /// The unit after one step against the two gradients, with its transposed filter
    /// made anew from the new filter.
    pub open spec fn updated_spec(self, derivate_bias: Grid<T>, derivate_filter: Grid<T>) -> Conv2DView<T> {
        Conv2DView {
            filter: self.stepped_filter(derivate_filter),
            bias: self.stepped_bias(derivate_bias),
            transposed_filter: rotate_spec(self.stepped_filter(derivate_filter), 2),
            ..self
        }
    }
}

/// What a well-formed unit gives for a square input of its input width is a well-formed
/// square matrix whose width is `(prev - filter_width + 2 * padding) / stride + 1`, and
/// the stride divides `prev - filter_width + 2 * padding`.
pub proof fn lemma_output_width<T: Scalar>(unit: Conv2DView<T>, input: Grid<T>)
    requires
        unit.wf(),
        input.wf(),
        input.has_shape(unit.prev as int, unit.prev as int),
    ensures
        unit.forward_spec(input).wf(),
        unit.forward_spec(input).rows == (unit.prev - unit.filter_width + 2 * unit.padding) / (unit.stride as int)
            + 1,
        unit.forward_spec(input).cols == unit.forward_spec(input).rows,
        (unit.prev - unit.filter_width + 2 * unit.padding) % (unit.stride as int) == 0,
{
    let across = unit.output_width();
    lemma_across(unit.prev as int, unit.filter_width as int, unit.stride as int, unit.padding as int);
    assert(across * across * 1 == across * across) by (nonlinear_arith);
}

/// A well-formed unit is well formed after a step against gradients of the shapes of its
/// filter and of its output; in particular, its transposed filter is then its new filter
/// turned by a half turn.
pub proof fn lemma_update_keeps_unit<T: Scalar>(unit: Conv2DView<T>, derivate_bias: Grid<T>, derivate_filter: Grid<T>)
    requires
        unit.wf(),
        derivate_filter.has_shape(unit.filter_width as int, unit.filter_width as int),
        derivate_bias.rows == unit.output_width(),
    ensures
        unit.updated_spec(derivate_bias, derivate_filter).wf(),
        unit.updated_spec(derivate_bias, derivate_filter).transposed_filter == rotate_spec(
            unit.updated_spec(derivate_bias, derivate_filter).filter,
            2,
        ),
{
}

/// The unit with the given filter and bias, before it has been checked.
pub open spec fn unit_of<T: Scalar>(
    prev_width: nat,
    width: nat,
    padding: nat,
    stride: nat,
    alpha: T,
    filter: Grid<T>,
    bias: Grid<T>,
) -> Conv2DView<T> {
    Conv2DView {
        prev: prev_width,
        filter_width: width,
        filter,
        bias,
        stride,
        padding,
        alpha,
        transposed_filter: rotate_spec(filter, 2),
    }
}

/// A convolution of one input channel into one output channel: a square filter, a bias
/// for each row of the output, and the filter turned by a half turn, kept for the way
/// back.
pub struct Conv2D<T: Scalar> {
    prev: usize,
    filter_width: usize,
    filter: Matrix<T>,
    bias: Matrix<T>,
    stride: usize,
    padding: usize,
    alpha: T,
    transposed_filter: Matrix<T>,
}

impl<T: Scalar> View for Conv2D<T> {
    type V = Conv2DView<T>;

    closed spec fn view(&self) -> Conv2DView<T> {
        Conv2DView {
            prev: self.prev as nat,
            filter_width: self.filter_width as nat,
            filter: self.filter@,
            bias: self.bias@,
            stride: self.stride as nat,
            padding: self.padding as nat,
            alpha: self.alpha,
            transposed_filter: self.transposed_filter@,
        }
    }
}

impl<T: Scalar> DeepView for Conv2D<T> {
    type V = Conv2DView<T>;

    open spec fn deep_view(&self) -> Conv2DView<T> {
        self@
    }
}

impl<T: Scalar> Conv2D<T> {
    #[verifier::type_invariant]
    closed spec fn inv(&self) -> bool {
        self@.wf()
    }

    /// The unit with the given filter and a bias of zeros, if the geometry is valid and
    /// the filter is square and of the given width.
    pub fn new(prev_width: usize, width: usize, padding: usize, stride: usize, alpha: T, filter: Matrix<T>) -> (made:
        Result<Conv2D<T>, NetError>)
        ensures
            made is Ok <==> conv_geometry(prev_width as int, width as int, stride as int, padding as int)
                && filter@.has_shape(width as int, width as int),
            made matches Ok(unit) ==> unit@ == unit_of(
                prev_width as nat,
                width as nat,
                padding as nat,
                stride as nat,
                alpha,
                filter@,
                filled_spec(
                    cal_shape_spec(prev_width as int, width as int, stride as int, padding as int) as nat,
                    1,
                    T::zero_spec(),
                ),
            ) && unit@.wf(),
            made matches Err(e) ==> e == NetError::ShapeMismatch,
    {
        if !conv_geometry_check(prev_width, width, stride, padding) {
            return Err(NetError::ShapeMismatch);
        }
        proof {
            lemma_across(prev_width as int, width as int, stride as int, padding as int);
        }
        let output_width: usize = cal_shape(prev_width, width, stride, padding);
        assert(output_width * 1 == output_width);
        let bias: Matrix<T> = Matrix::filled(output_width, 1, T::zero());
        Conv2D::assemble(prev_width, width, padding, stride, alpha, filter, bias)
    }

    /// The unit with the given filter and bias, if the geometry is valid, the filter is
    /// square and of the given width, and the bias is a column with a cell for each row
    /// of the output.
    pub fn assemble(
        prev_width: usize,
        width: usize,
        padding: usize,
        stride: usize,
        alpha: T,
        filter: Matrix<T>,
        bias: Matrix<T>,
    ) -> (made: Result<Conv2D<T>, NetError>)
        ensures
            made is Ok <==> conv_geometry(prev_width as int, width as int, stride as int, padding as int)
                && filter@.has_shape(width as int, width as int) && bias@.has_shape(
                cal_shape_spec(prev_width as int, width as int, stride as int, padding as int),
                1,
            ),
            made matches Ok(unit) ==> unit@ == unit_of(
                prev_width as nat,
                width as nat,
                padding as nat,
                stride as nat,
                alpha,
                filter@,
                bias@,
            ) && unit@.wf(),
            made matches Err(e) ==> e == NetError::ShapeMismatch,
    {
        if !conv_geometry_check(prev_width, width, stride, padding) {
            return Err(NetError::ShapeMismatch);
        }
        proof {
            lemma_across(prev_width as int, width as int, stride as int, padding as int);
        }
        let output_width: usize = cal_shape(prev_width, width, stride, padding);
        if filter.rows() != width || filter.cols() != width || bias.rows() != output_width || bias.cols() != 1 {
            return Err(NetError::ShapeMismatch);
        }
        let transposed_filter: Matrix<T> = _rotate(&filter, 2);
        Ok(Conv2D { prev: prev_width, filter_width: width, filter, bias, stride, padding, alpha, transposed_filter })
    }

    pub fn prev(&self) -> (n: usize)
        ensures
            n == self@.prev,
            self@.wf(),
    {
        proof {
            use_type_invariant(self);
        }
        self.prev
    }

    pub fn filter_width(&self) -> (n: usize)
        ensures
            n == self@.filter_width,
    {
        self.filter_width
    }

    pub fn stride(&self) -> (n: usize)
        ensures
            n == self@.stride,
    {
        self.stride
    }

    pub fn padding(&self) -> (n: usize)
        ensures
            n == self@.padding,
    {
        self.padding
    }

    pub fn alpha(&self) -> (a: T)
        ensures
            a == self@.alpha,
    {
        self.alpha
    }

    pub fn filter(&self) -> (m: &Matrix<T>)
        ensures
            m@ == self@.filter,
    {
        &self.filter
    }

    pub fn bias(&self) -> (m: &Matrix<T>)
        ensures
            m@ == self@.bias,
    {
        &self.bias
    }

    pub fn transposed_filter(&self) -> (m: &Matrix<T>)
        ensures
            m@ == self@.transposed_filter,
    {
        &self.transposed_filter
    }

    /// The cross-correlation of the filter over the input, with the bias added.
    pub fn forward(&self, input: &Matrix<T>) -> (out: Matrix<T>)
        requires
            input@.has_shape(self@.prev as int, self@.prev as int),
        ensures
            out@ == self@.forward_spec(input@),
            out@.rows == (self@.prev - self@.filter_width + 2 * self@.padding) / (self@.stride as int) + 1,
            out@.cols == out@.rows,
    {
        proof {
            use_type_invariant(self);
        }
        let rows: usize = input.rows();
        let held: usize = self.filter.rows();
        let tall: usize = self.bias.rows();
        let spread: Matrix<T> = _convolution(&self.filter, input, self.stride, self.padding);
        let wide: usize = spread.rows();
        plus_column(&spread, &self.bias)
    }

    /// The gradient with respect to the input of the unit: the cross-correlation of the
    /// transposed filter over the gradient with respect to its output.
    pub fn cal_delta(&self, next_delta: &Matrix<T>) -> (out: Matrix<T>)
        requires
            next_delta@.rows == next_delta@.cols,
            conv_fits(
                next_delta@.rows as int,
                self@.filter_width as int,
                self@.stride as int,
                self@.padding as int,
            ),
        ensures
            out@ == self@.delta_spec(next_delta@),
    {
        proof {
            use_type_invariant(self);
        }
        let rows: usize = next_delta.rows();
        let held: usize = self.transposed_filter.rows();
        _convolution(&self.transposed_filter, next_delta, self.stride, self.padding)
    }

    /// One step against the gradients: the filter loses `alpha` times its gradient, the
    /// bias loses `alpha` times the sums of the rows of its gradient, divided by the
    /// input width, and the transposed filter is made anew.
    pub fn update(&mut self, derivate_bias: &Matrix<T>, derivate_filter: &Matrix<T>)
        requires
            derivate_filter@.has_shape(old(self)@.filter_width as int, old(self)@.filter_width as int),
            derivate_bias@.rows == old(self)@.output_width(),
        ensures
            final(self)@ == old(self)@.updated_spec(derivate_bias@, derivate_filter@),
            final(self)@.wf(),
    {
        *self = self.updated(derivate_bias, derivate_filter);
    }

    /// The unit after one step against the gradients: see [`Conv2D::update`].
    pub fn updated(&self, derivate_bias: &Matrix<T>, derivate_filter: &Matrix<T>) -> (unit: Conv2D<T>)
        requires
            derivate_filter@.has_shape(self@.filter_width as int, self@.filter_width as int),
            derivate_bias@.rows == self@.output_width(),
        ensures
            unit@ == self@.updated_spec(derivate_bias@, derivate_filter@),
            unit@.wf(),
    {
        proof {
            use_type_invariant(self);
        }
        let held: usize = self.filter.rows();
        let tall: usize = self.bias.rows();
        let given: usize = derivate_filter.rows();
        let filter: Matrix<T> = combine(
            Binary::Minus,
            &self.filter,
            &scalar_with(Binary::Times, self.alpha, derivate_filter),
        );
        let sums: Matrix<T> = row_sums(derivate_bias);
        let bias: Matrix<T> = combine(
            Binary::Minus,
            &self.bias,
            &with_scalar(Binary::Over, &scalar_with(Binary::Times, self.alpha, &sums), T::count(self.prev)),
        );
        let wide: usize = filter.rows();
        let transposed_filter: Matrix<T> = _rotate(&filter, 2);
        let high: usize = bias.rows();
        Conv2D {
            prev: self.prev,
            filter_width: self.filter_width,
            filter,
            bias,
            stride: self.stride,
            padding: self.padding,
            alpha: self.alpha,
            transposed_filter,
        }
    }
}

/// A list of `count` matrices of zeros of the given shape.
pub fn zero_matrices<T: Scalar>(count: usize, rows: usize, cols: usize) -> (out: Vec<Matrix<T>>)
    requires
        rows * cols <= usize::MAX,
    ensures
        out.deep_view() == Seq::new(count as nat, |i: int| filled_spec(rows as nat, cols as nat, T::zero_spec())),
        out@.len() == count,
        sample_shaped(out.deep_view(), rows as int, cols as int),
{
    let mut out: Vec<Matrix<T>> = Vec::new();
    let mut i: usize = 0;
    while i < count
        invariant
            rows * cols <= usize::MAX,
            i <= count,
            out@.len() == i,
            forall|j: int| 0 <= j < i ==> (#[trigger] out@[j])@ == filled_spec(rows as nat, cols as nat, T::zero_spec()),
        decreases count - i,
    {
        out.push(Matrix::filled(rows, cols, T::zero()));
        i = i + 1;
    }
    assert(out.deep_view() =~= Seq::new(
        count as nat,
        |i: int| filled_spec(rows as nat, cols as nat, T::zero_spec()),
    ));
    out
}

/// `lines` lists of `count` matrices of zeros of the given shape.
pub fn zero_grid<T: Scalar>(lines: usize, count: usize, rows: usize, cols: usize) -> (out: Vec<Vec<Matrix<T>>>)
    requires
        rows * cols <= usize::MAX,
    ensures
        out.deep_view() == Seq::new(
            lines as nat,
            |o: int| Seq::new(count as nat, |i: int| filled_spec(rows as nat, cols as nat, T::zero_spec())),
        ),
        out@.len() == lines,
        batch_channels(out.deep_view(), count as int),
        batch_shaped(out.deep_view(), rows as int, cols as int),
{
    let mut out: Vec<Vec<Matrix<T>>> = Vec::new();
    let mut o: usize = 0;
    while o < lines
        invariant
            rows * cols <= usize::MAX,
            o <= lines,
            out@.len() == o,
            forall|j: int|
                0 <= j < o ==> (#[trigger] out@[j]).deep_view() == Seq::new(
                    count as nat,
                    |i: int| filled_spec(rows as nat, cols as nat, T::zero_spec()),
                ),
        decreases lines - o,
    {
        out.push(zero_matrices(count, rows, cols));
        o = o + 1;
    }
    assert(out.deep_view() =~= Seq::new(
        lines as nat,
        |o: int| Seq::new(count as nat, |i: int| filled_spec(rows as nat, cols as nat, T::zero_spec())),
    ));
    out
}

/// Every matrix of the list divided by the number `by`.
pub fn divided_sample<T: Scalar>(sample: &Vec<Matrix<T>>, by: T) -> (out: Vec<Matrix<T>>)
    ensures
        out.deep_view() == Seq::new(
            sample@.len(),
            |o: int| with_scalar_spec(Binary::Over, sample.deep_view()[o], by),
        ),
{
    let count: usize = sample.len();
    let mut out: Vec<Matrix<T>> = Vec::new();
    let mut o: usize = 0;
    while o < count
        invariant
            count == sample@.len(),
            o <= count,
            out@.len() == o,
            forall|j: int| 0 <= j < o ==> (#[trigger] out@[j])@ == with_scalar_spec(Binary::Over, sample@[j]@, by),
        decreases count - o,
    {
        out.push(with_scalar(Binary::Over, &sample[o], by));
        o = o + 1;
    }
    assert(out.deep_view() =~= Seq::new(
        sample@.len(),
        |o: int| with_scalar_spec(Binary::Over, sample.deep_view()[o], by),
    ));
    out
}

/// The two grids of matrices added list by list: see [`sum_nested_vector`].
fn sum_rows<T: Scalar>(
    fresh: &Vec<Vec<Matrix<T>>>,
    so_far: &Vec<Vec<Matrix<T>>>,
    Ghost(count): Ghost<int>,
    Ghost(width): Ghost<int>,
) -> (out: Vec<Vec<Matrix<T>>>)
    requires
        fresh@.len() == so_far@.len(),
        batch_channels(fresh.deep_view(), count),
        batch_shaped(fresh.deep_view(), width, width),
        batch_channels(so_far.deep_view(), count),
        batch_shaped(so_far.deep_view(), width, width),
    ensures
        out.deep_view() == Seq::new(
            fresh@.len(),
            |o: int| sum_nested_vector_spec(fresh.deep_view()[o], so_far.deep_view()[o]),
        ),
        out@.len() == fresh@.len(),
        batch_channels(out.deep_view(), count),
        batch_shaped(out.deep_view(), width, width),
{
    let lines: usize = fresh.len();
    let mut out: Vec<Vec<Matrix<T>>> = Vec::new();
    let mut o: usize = 0;
    while o < lines
        invariant
            lines == fresh@.len(),
            lines == so_far@.len(),
            batch_channels(fresh.deep_view(), count),
            batch_shaped(fresh.deep_view(), width, width),
            batch_channels(so_far.deep_view(), count),
            batch_shaped(so_far.deep_view(), width, width),
            o <= lines,
            out@.len() == o,
            forall|j: int|
                0 <= j < o ==> (#[trigger] out@[j]).deep_view() == sum_nested_vector_spec(
                    fresh@[j].deep_view(),
                    so_far@[j].deep_view(),
                ),
        decreases lines - o,
    {
        proof {
            assert(fresh.deep_view()[o as int].len() == count);
            assert(so_far.deep_view()[o as int].len() == count);
            assert(sample_shaped(fresh.deep_view()[o as int], width, width));
            assert(sample_shaped(so_far.deep_view()[o as int], width, width));
            assert forall|i: int| 0 <= i < fresh@[o as int]@.len() && i < so_far@[o as int]@.len() implies (
            #[trigger] fresh@[o as int]@[i])@.rows == so_far@[o as int]@[i]@.rows && fresh@[o as int]@[i]@.cols
                == so_far@[o as int]@[i]@.cols by {
                assert(fresh.deep_view()[o as int][i].has_shape(width, width));
                assert(so_far.deep_view()[o as int][i].has_shape(width, width));
            }
        }
        out.push(sum_nested_vector(&fresh[o], &so_far[o]));
        o = o + 1;
    }
    assert(out.deep_view() =~= Seq::new(
        fresh@.len(),
        |o: int| sum_nested_vector_spec(fresh.deep_view()[o], so_far.deep_view()[o]),
    ));
    proof {
        assert forall|j: int| 0 <= j < out.deep_view().len() implies (#[trigger] out.deep_view()[j]).len() == count
            && sample_shaped(out.deep_view()[j], width, width) by {
            assert(fresh.deep_view()[j].len() == count);
            assert(so_far.deep_view()[j].len() == count);
            assert(sample_shaped(fresh.deep_view()[j], width, width));
            assert forall|i: int| 0 <= i < out.deep_view()[j].len() implies (#[trigger] out.deep_view()[j][i]).wf()
                && out.deep_view()[j][i].has_shape(width, width) by {
                assert(fresh.deep_view()[j][i].wf() && fresh.deep_view()[j][i].has_shape(width, width));
            }
        }
    }
    out
}

/// What a convolution layer is made of.
pub ghost struct Conv3DView<T> {
    pub in_channel: nat,
    pub out_channel: nat,
    pub stride: nat,
    pub padding: nat,
    pub prev_width: nat,
    pub output_width: nat,
    pub filter_width: nat,
    pub alpha: T,
    pub boundary: nat,
    pub conv2d: Seq<Seq<Conv2DView<T>>>,
}

impl<T: Scalar> Conv3DView<T> {
    /// The unit is well formed and has the geometry of the layer.
    pub open spec fn holds(self, unit: Conv2DView<T>) -> bool {
        &&& unit.wf()
        &&& unit.prev == self.prev_width
        &&& unit.filter_width == self.filter_width
        &&& unit.stride == self.stride
        &&& unit.padding == self.padding
    }

    /// The geometry is valid, the output width is what the geometry gives, and the
    /// layer holds a row of units for each output channel, with a unit for each input
    /// channel, all of the layer's geometry.
    pub open spec fn wf(self) -> bool {
        &&& conv_geometry(
            self.prev_width as int,
            self.filter_width as int,
            self.stride as int,
            self.padding as int,
        )
        &&& self.output_width == cal_shape_spec(
            self.prev_width as int,
            self.filter_width as int,
            self.stride as int,
            self.padding as int,
        )
        &&& self.conv2d.len() == self.out_channel
        &&& forall|o: int| 0 <= o < self.out_channel ==> (#[trigger] self.conv2d[o]).len() == self.in_channel
        &&& forall|o: int, i: int|
            0 <= o < self.out_channel && 0 <= i < self.in_channel ==> self.holds(#[trigger] self.conv2d[o][i])
    }

    /// The layer takes batches whose samples have a square matrix of the input width
    /// for each input channel.
    pub open spec fn accepts(self, inputs: Seq<Seq<Grid<T>>>) -> bool {
        &&& batch_channels(inputs, self.in_channel as int)
        &&& batch_shaped(inputs, self.prev_width as int, self.prev_width as int)
    }

    /// What the first `n` units of a row give for the channels of a sample, added one
    /// after the other to a matrix of zeros.
    pub open spec fn channel_forward(self, units: Seq<Conv2DView<T>>, sample: Seq<Grid<T>>, n: nat) -> Grid<T>
        decreases n,
    {
        if n == 0 {
            filled_spec(self.output_width, self.output_width, T::zero_spec())
        } else {
            combine_spec(
                Binary::Plus,
                self.channel_forward(units, sample, (n - 1) as nat),
                units[n - 1].forward_spec(sample[n - 1]),
            )
        }
    }

    /// For each output channel, the sum over the input channels of what the units give.
    pub open spec fn sample_forward(self, sample: Seq<Grid<T>>) -> Seq<Grid<T>> {
        Seq::new(self.out_channel, |o: int| self.channel_forward(self.conv2d[o], sample, self.in_channel))
    }

    /// Every sample of the batch convolved.
    pub open spec fn forward_spec(self, inputs: Seq<Seq<Grid<T>>>) -> Seq<Seq<Grid<T>>> {
        Seq::new(inputs.len(), |s: int| self.sample_forward(inputs[s]))
    }

    /// The geometry lets gradients go back: the gradient of an output channel, slid as a
    /// filter over an input channel, gives a matrix of the filter's shape, and the
    /// filter, slid over the gradient, gives a matrix of the input's shape.
    pub open spec fn turns_back(self) -> bool {
        let prev = self.prev_width as int;
        let out = self.output_width as int;
        let width = self.filter_width as int;
        &&& conv_fits(prev, out, self.stride as int, self.padding as int)
        &&& cal_shape_spec(prev, out, self.stride as int, self.padding as int) == width
        &&& conv_fits(out, width, self.stride as int, self.padding as int)
        &&& cal_shape_spec(out, width, self.stride as int, self.padding as int) == prev
    }

    /// The gradient of one sample has what the layer needs: where the boundary flag is
    /// 1, one flat matrix with the cells of all output channels; otherwise a square
    /// matrix of the output width for each output channel.
    pub open spec fn restorable(self, delta: Seq<Grid<T>>) -> bool {
        if self.boundary == 1 {
            &&& delta.len() >= 1
            &&& delta[0].wf()
            &&& self.out_channel * (self.output_width * self.output_width) <= delta[0].cells.len()
        } else {
            &&& delta.len() == self.out_channel
            &&& sample_shaped(delta, self.output_width as int, self.output_width as int)
        }
    }

    /// The gradient of one sample as a square matrix for each output channel.
    pub open spec fn restored(self, delta: Seq<Grid<T>>) -> Seq<Grid<T>> {
        restore_with_channel_spec(
            delta,
            self.out_channel,
            self.prev_width as int,
            self.filter_width as int,
            self.stride as int,
            self.padding as int,
            self.boundary as int,
        )
    }

    /// The gradients of all samples, each as a square matrix for each output channel.
    pub open spec fn restored_batch(self, next_deltas: Seq<Seq<Grid<T>>>) -> Seq<Seq<Grid<T>>> {
        Seq::new(next_deltas.len(), |s: int| self.restored(next_deltas[s]))
    }

    /// The layer takes these gradients back for these inputs.
    pub open spec fn accepts_backward(self, next_deltas: Seq<Seq<Grid<T>>>, inputs: Seq<Seq<Grid<T>>>) -> bool {
        &&& self.turns_back()
        &&& self.accepts(inputs)
        &&& next_deltas.len() == inputs.len()
        &&& forall|s: int| 0 <= s < next_deltas.len() ==> self.restorable(#[trigger] next_deltas[s])
    }

    /// For one sample and each pair of channels, the gradient of the output channel slid
    /// as a filter over the input channel.
    pub open spec fn derivate_filters(self, delta: Seq<Grid<T>>, input: Seq<Grid<T>>) -> Seq<Seq<Grid<T>>> {
        Seq::new(
            self.out_channel,
            |o: int|
                Seq::new(
                    self.in_channel,
                    |i: int| convolution_spec(delta[o], input[i], self.stride as int, self.padding as int),
                ),
        )
    }

    /// The gradients of the filters, added up over the first `n` samples: each sample's
    /// gradients are added to the sum so far, the sample's on the left.
    pub open spec fn filter_gradients(self, deltas: Seq<Seq<Grid<T>>>, inputs: Seq<Seq<Grid<T>>>, n: nat) -> Seq<
        Seq<Grid<T>>,
    >
        decreases n,
    {
        if n == 0 {
            Seq::new(
                self.out_channel,
                |o: int|
                    Seq::new(
                        self.in_channel,
                        |i: int| filled_spec(self.filter_width, self.filter_width, T::zero_spec()),
                    ),
            )
        } else {
            let fresh = self.derivate_filters(deltas[n - 1], inputs[n - 1]);
            let so_far = self.filter_gradients(deltas, inputs, (n - 1) as nat);
            Seq::new(self.out_channel, |o: int| sum_nested_vector_spec(fresh[o], so_far[o]))
        }
    }

    /// Every matrix of the sample divided by the number `by`.
    pub open spec fn divided(self, delta: Seq<Grid<T>>, by: T) -> Seq<Grid<T>> {
        Seq::new(delta.len(), |o: int| with_scalar_spec(Binary::Over, delta[o], by))
    }

    /// For each output channel, the mean of its gradient over the batch: each of the
    /// first `n` samples' gradients is divided by the number of samples and added to the
    /// sum so far, the sum on the left.
    pub open spec fn average_deltas(self, deltas: Seq<Seq<Grid<T>>>, n: nat) -> Seq<Grid<T>>
        decreases n,
    {
        if n == 0 {
            Seq::new(self.out_channel, |o: int| filled_spec(self.output_width, self.output_width, T::zero_spec()))
        } else {
            sum_nested_vector_spec(
                self.average_deltas(deltas, (n - 1) as nat),
                self.divided(deltas[n - 1], T::count_spec(deltas.len() as usize)),
            )
        }
    }

    /// The units after one step against the gradients of the batch.
    pub open spec fn updated_units(self, deltas: Seq<Seq<Grid<T>>>, inputs: Seq<Seq<Grid<T>>>) -> Seq<
        Seq<Conv2DView<T>>,
    > {
        Seq::new(
            self.out_channel,
            |o: int|
                Seq::new(
                    self.in_channel,
                    |i: int|
                        self.conv2d[o][i].updated_spec(
                            self.average_deltas(deltas, deltas.len())[o],
                            self.filter_gradients(deltas, inputs, deltas.len())[o][i],
                        ),
                ),
        )
    }

    /// The layer after one step against the gradients of the batch.
    pub open spec fn updated_spec(self, next_deltas: Seq<Seq<Grid<T>>>, inputs: Seq<Seq<Grid<T>>>) -> Conv3DView<T> {
        Conv3DView { conv2d: self.updated_units(self.restored_batch(next_deltas), inputs), ..self }
    }

    /// What the units of the first `n` output channels give back for input channel `i`,
    /// added one after the other to a matrix of zeros.
    pub open spec fn channel_backward(self, delta: Seq<Grid<T>>, i: int, n: nat) -> Grid<T>
        decreases n,
    {
        if n == 0 {
            filled_spec(self.prev_width, self.prev_width, T::zero_spec())
        } else {
            combine_spec(
                Binary::Plus,
                self.channel_backward(delta, i, (n - 1) as nat),
                self.conv2d[n - 1][i].delta_spec(delta[n - 1]),
            )
        }
    }

    /// For each input channel, the sum over the output channels of what the units give
    /// back.
    pub open spec fn sample_backward(self, delta: Seq<Grid<T>>) -> Seq<Grid<T>> {
        Seq::new(self.in_channel, |i: int| self.channel_backward(delta, i, self.out_channel))
    }

    /// The gradients with respect to the inputs of the layer: what the layer, after its
    /// step, gives back for the gradient of each sample.
    pub open spec fn backward_spec(self, next_deltas: Seq<Seq<Grid<T>>>, inputs: Seq<Seq<Grid<T>>>) -> Seq<
        Seq<Grid<T>>,
    > {
        Seq::new(
            next_deltas.len(),
            |s: int| self.updated_spec(next_deltas, inputs).sample_backward(self.restored(next_deltas[s])),
        )
    }
}

/// The layer with the given units, before it has been checked.
pub open spec fn layer_of<T: Scalar>(
    in_channel: nat,
    out_channel: nat,
    stride: nat,
    padding: nat,
    prev_width: nat,
    filter_width: nat,
    alpha: T,
    boundary: nat,
    conv2d: Seq<Seq<Conv2DView<T>>>,
) -> Conv3DView<T> {
    Conv3DView {
        in_channel,
        out_channel,
        stride,
        padding,
        prev_width,
        output_width: cal_shape_spec(prev_width as int, filter_width as int, stride as int, padding as int) as nat,
        filter_width,
        alpha,
        boundary,
        conv2d,
    }
}

/// The units with the given filters and biases of zeros.
pub open spec fn units_of<T: Scalar>(
    prev_width: nat,
    filter_width: nat,
    padding: nat,
    stride: nat,
    alpha: T,
    filters: Seq<Seq<Grid<T>>>,
) -> Seq<Seq<Conv2DView<T>>> {
    Seq::new(
        filters.len(),
        |o: int|
            Seq::new(
                filters[o].len(),
                |i: int|
                    unit_of(
                        prev_width,
                        filter_width,
                        padding,
                        stride,
                        alpha,
                        filters[o][i],
                        filled_spec(
                            cal_shape_spec(prev_width as int, filter_width as int, stride as int, padding as int) as nat,
                            1,
                            T::zero_spec(),
                        ),
                    ),
            ),
    )
}

/// A convolution of several input channels into several output channels.
pub struct Conv3D<T: Scalar> {
    in_channel: usize,
    out_channel: usize,
    stride: usize,
    padding: usize,
    prev_width: usize,
    output_width: usize,
    filter_width: usize,
    alpha: T,
    boundary: usize,
    conv2d: Vec<Vec<Conv2D<T>>>,
}

impl<T: Scalar> View for Conv3D<T> {
    type V = Conv3DView<T>;

    closed spec fn view(&self) -> Conv3DView<T> {
        Conv3DView {
            in_channel: self.in_channel as nat,
            out_channel: self.out_channel as nat,
            stride: self.stride as nat,
            padding: self.padding as nat,
            prev_width: self.prev_width as nat,
            output_width: self.output_width as nat,
            filter_width: self.filter_width as nat,
            alpha: self.alpha,
            boundary: self.boundary as nat,
            conv2d: self.conv2d.deep_view(),
        }
    }
}

impl<T: Scalar> DeepView for Conv3D<T> {
    type V = Conv3DView<T>;

    open spec fn deep_view(&self) -> Conv3DView<T> {
        self@
    }
}

impl<T: Scalar> Conv3D<T> {
    #[verifier::type_invariant]
    closed spec fn inv(&self) -> bool {
        self@.wf()
    }

    /// The layer with a unit for each of the given filters, each with a bias of zeros, if
    /// the geometry is valid and there is a square filter of the filter width for each
    /// pair of an output channel and an input channel.
    pub fn new(
        in_channel: usize,
        out_channel: usize,
        stride: usize,
        padding: usize,
        prev_width: usize,
        filter_width: usize,
        alpha: T,
        boundary: usize,
        filters: &Vec<Vec<Matrix<T>>>,
    ) -> (made: Result<Conv3D<T>, NetError>)
        ensures
            made is Ok <==> conv_geometry(prev_width as int, filter_width as int, stride as int, padding as int)
                && filters@.len() == out_channel && batch_channels(filters.deep_view(), in_channel as int)
                && batch_shaped(filters.deep_view(), filter_width as int, filter_width as int),
            made matches Ok(layer) ==> layer@ == layer_of(
                in_channel as nat,
                out_channel as nat,
                stride as nat,
                padding as nat,
                prev_width as nat,
                filter_width as nat,
                alpha,
                boundary as nat,
                units_of(
                    prev_width as nat,
                    filter_width as nat,
                    padding as nat,
                    stride as nat,
                    alpha,
                    filters.deep_view(),
                ),
            ) && layer@.wf(),
            made matches Err(e) ==> e == NetError::ShapeMismatch,
    {
        if !conv_geometry_check(prev_width, filter_width, stride, padding) || filters.len() != out_channel
            || !has_channels(filters, in_channel) || !is_batch_shaped(filters, filter_width, filter_width) {
            return Err(NetError::ShapeMismatch);
        }
        proof {
            lemma_across(prev_width as int, filter_width as int, stride as int, padding as int);
        }
        let output_width: usize = cal_shape(prev_width, filter_width, stride, padding);
        let ghost target = units_of(
            prev_width as nat,
            filter_width as nat,
            padding as nat,
            stride as nat,
            alpha,
            filters.deep_view(),
        );
        let mut conv2d: Vec<Vec<Conv2D<T>>> = Vec::new();
        let mut o: usize = 0;
        while o < out_channel
            invariant
                conv_geometry(prev_width as int, filter_width as int, stride as int, padding as int),
                filters@.len() == out_channel,
                batch_channels(filters.deep_view(), in_channel as int),
                batch_shaped(filters.deep_view(), filter_width as int, filter_width as int),
                target == units_of(
                    prev_width as nat,
                    filter_width as nat,
                    padding as nat,
                    stride as nat,
                    alpha,
                    filters.deep_view(),
                ),
                o <= out_channel,
                conv2d@.len() == o,
                forall|j: int| 0 <= j < o ==> (#[trigger] conv2d@[j]).deep_view() == target[j],
                forall|j: int, i: int|
                    0 <= j < o && 0 <= i < in_channel ==> (#[trigger] conv2d@[j]@[i])@.wf(),
            decreases out_channel - o,
        {
            assert(filters.deep_view()[o as int].len() == in_channel);
            assert(sample_shaped(filters.deep_view()[o as int], filter_width as int, filter_width as int));
            let mut row: Vec<Conv2D<T>> = Vec::new();
            let mut i: usize = 0;
            while i < in_channel
                invariant
                    conv_geometry(prev_width as int, filter_width as int, stride as int, padding as int),
                    o < filters@.len(),
                    filters@[o as int]@.len() == in_channel,
                    sample_shaped(filters.deep_view()[o as int], filter_width as int, filter_width as int),
                    target == units_of(
                        prev_width as nat,
                        filter_width as nat,
                        padding as nat,
                        stride as nat,
                        alpha,
                        filters.deep_view(),
                    ),
                    i <= in_channel,
                    row@.len() == i,
                    forall|j: int| 0 <= j < i ==> (#[trigger] row@[j])@ == target[o as int][j],
                    forall|j: int| 0 <= j < i ==> (#[trigger] row@[j])@.wf(),
                decreases in_channel - i,
            {
                assert(filters.deep_view()[o as int][i as int].has_shape(filter_width as int, filter_width as int));
                let made = Conv2D::new(prev_width, filter_width, padding, stride, alpha, filters[o][i].copied());
                match made {
                    Ok(unit) => {
                        row.push(unit);
                    },
                    Err(e) => {
                        return Err(NetError::ShapeMismatch);
                    },
                }
                i = i + 1;
            }
            assert(row.deep_view() =~= target[o as int]);
            conv2d.push(row);
            o = o + 1;
        }
        assert(conv2d.deep_view() =~= target);
        let layer = Conv3D {
            in_channel,
            out_channel,
            stride,
            padding,
            prev_width,
            output_width,
            filter_width,
            alpha,
            boundary,
            conv2d,
        };
        Ok(layer)
    }

    /// The layer with the given units, if the geometry is valid and there is a unit of
    /// that geometry for each pair of an output channel and an input channel.
    pub fn assemble(
        in_channel: usize,
        out_channel: usize,
        stride: usize,
        padding: usize,
        prev_width: usize,
        filter_width: usize,
        alpha: T,
        boundary: usize,
        conv2d: Vec<Vec<Conv2D<T>>>,
    ) -> (made: Result<Conv3D<T>, NetError>)
        ensures
            made is Ok <==> layer_of(
                in_channel as nat,
                out_channel as nat,
                stride as nat,
                padding as nat,
                prev_width as nat,
                filter_width as nat,
                alpha,
                boundary as nat,
                conv2d.deep_view(),
            ).wf(),
            made matches Ok(layer) ==> layer@ == layer_of(
                in_channel as nat,
                out_channel as nat,
                stride as nat,
                padding as nat,
                prev_width as nat,
                filter_width as nat,
                alpha,
                boundary as nat,
                conv2d.deep_view(),
            ),
            made matches Err(e) ==> e == NetError::ShapeMismatch,
    {
        let ghost target = layer_of(
            in_channel as nat,
            out_channel as nat,
            stride as nat,
            padding as nat,
            prev_width as nat,
            filter_width as nat,
            alpha,
            boundary as nat,
            conv2d.deep_view(),
        );
        if !conv_geometry_check(prev_width, filter_width, stride, padding) || conv2d.len() != out_channel {
            return Err(NetError::ShapeMismatch);
        }
        proof {
            lemma_across(prev_width as int, filter_width as int, stride as int, padding as int);
        }
        let output_width: usize = cal_shape(prev_width, filter_width, stride, padding);
        let mut o: usize = 0;
        while o < out_channel
            invariant
                target == layer_of(
                    in_channel as nat,
                    out_channel as nat,
                    stride as nat,
                    padding as nat,
                    prev_width as nat,
                    filter_width as nat,
                    alpha,
                    boundary as nat,
                    conv2d.deep_view(),
                ),
                conv2d@.len() == out_channel,
                o <= out_channel,
                forall|j: int| 0 <= j < o ==> (#[trigger] target.conv2d[j]).len() == in_channel,
                forall|j: int, i: int| 0 <= j < o && 0 <= i < in_channel ==> target.holds(#[trigger] target.conv2d[j][i]),
            decreases out_channel - o,
        {
            assert(target.conv2d[o as int] == conv2d@[o as int].deep_view());
            if conv2d[o].len() != in_channel {
                return Err(NetError::ShapeMismatch);
            }
            let mut i: usize = 0;
            while i < in_channel
                invariant
                    target == layer_of(
                        in_channel as nat,
                        out_channel as nat,
                        stride as nat,
                        padding as nat,
                        prev_width as nat,
                        filter_width as nat,
                        alpha,
                        boundary as nat,
                        conv2d.deep_view(),
                    ),
                    o < conv2d@.len(),
                    conv2d@.len() == out_channel,
                    conv2d@[o as int]@.len() == in_channel,
                    i <= in_channel,
                    forall|j: int| 0 <= j < i ==> target.holds(#[trigger] target.conv2d[o as int][j]),
                decreases in_channel - i,
            {
                let unit: &Conv2D<T> = &conv2d[o][i];
                assert(target.conv2d[o as int][i as int] == unit@);
                if unit.prev() != prev_width || unit.filter_width() != filter_width || unit.stride() != stride
                    || unit.padding() != padding {
                    assert(!target.holds(target.conv2d[o as int][i as int]));
                    return Err(NetError::ShapeMismatch);
                }
                i = i + 1;
            }
            o = o + 1;
        }
        Ok(
            Conv3D {
                in_channel,
                out_channel,
                stride,
                padding,
                prev_width,
                output_width,
                filter_width,
                alpha,
                boundary,
                conv2d,
            },
        )
    }

    pub fn in_channel(&self) -> (n: usize)
        ensures
            n == self@.in_channel,
            self@.wf(),
    {
        proof {
            use_type_invariant(self);
        }
        self.in_channel
    }

    pub fn out_channel(&self) -> (n: usize)
        ensures
            n == self@.out_channel,
    {
        self.out_channel
    }

    pub fn stride(&self) -> (n: usize)
        ensures
            n == self@.stride,
    {
        self.stride
    }

    pub fn padding(&self) -> (n: usize)
        ensures
            n == self@.padding,
    {
        self.padding
    }

    pub fn prev_width(&self) -> (n: usize)
        ensures
            n == self@.prev_width,
    {
        self.prev_width
    }

    pub fn output_width(&self) -> (n: usize)
        ensures
            n == self@.output_width,
    {
        self.output_width
    }

    pub fn filter_width(&self) -> (n: usize)
        ensures
            n == self@.filter_width,
    {
        self.filter_width
    }

    pub fn alpha(&self) -> (a: T)
        ensures
            a == self@.alpha,
    {
        self.alpha
    }

    pub fn boundary(&self) -> (n: usize)
        ensures
            n == self@.boundary,
    {
        self.boundary
    }

    /// The unit that convolves input channel `i` into output channel `o`.
    pub fn unit(&self, o: usize, i: usize) -> (unit: &Conv2D<T>)
        requires
            o < self@.out_channel,
            i < self@.in_channel,
        ensures
            unit@ == self@.conv2d[o as int][i as int],
            self@.holds(unit@),
    {
        proof {
            use_type_invariant(self);
            assert(self@.conv2d[o as int].len() == self@.in_channel);
            assert(self@.holds(self@.conv2d[o as int][i as int]));
        }
        &self.conv2d[o][i]
    }

    /// For one output channel, the sum over the input channels of what the units of the
    /// channel give for the sample.
    fn channel_forward(&self, input: &Vec<Matrix<T>>, o: usize) -> (out: Matrix<T>)
        requires
            o < self@.out_channel,
            input@.len() == self@.in_channel,
            sample_shaped(input.deep_view(), self@.prev_width as int, self@.prev_width as int),
        ensures
            out@ == self@.channel_forward(self@.conv2d[o as int], input.deep_view(), self@.in_channel),
    {
        proof {
            use_type_invariant(self);
            lemma_across(
                self@.prev_width as int,
                self@.filter_width as int,
                self@.stride as int,
                self@.padding as int,
            );
            lemma_sizes(self@.output_width as int, self@.filter_width as int);
        }
        let mut acc: Matrix<T> = Matrix::filled(self.output_width, self.output_width, T::zero());
        let mut i: usize = 0;
        while i < self.in_channel
            invariant
                self@.wf(),
                o < self@.out_channel,
                input@.len() == self@.in_channel,
                sample_shaped(input.deep_view(), self@.prev_width as int, self@.prev_width as int),
                i <= self@.in_channel,
                acc@ == self@.channel_forward(self@.conv2d[o as int], input.deep_view(), i as nat),
                acc@.wf(),
                acc@.has_shape(self@.output_width as int, self@.output_width as int),
            decreases self@.in_channel - i,
        {
            let unit: &Conv2D<T> = self.unit(o, i);
            assert(input.deep_view()[i as int].has_shape(self@.prev_width as int, self@.prev_width as int));
            let given: Matrix<T> = unit.forward(&input[i]);
            let wide: usize = given.rows();
            acc = combine(Binary::Plus, &acc, &given);
            let tall: usize = acc.rows();
            i = i + 1;
        }
        acc
    }

    /// One sample convolved: for each output channel, the sum over the input channels
    /// of what the units give.
    pub fn _forward(&self, input: &Vec<Matrix<T>>) -> (out: Vec<Matrix<T>>)
        requires
            input@.len() == self@.in_channel,
            sample_shaped(input.deep_view(), self@.prev_width as int, self@.prev_width as int),
        ensures
            out.deep_view() == self@.sample_forward(input.deep_view()),
    {
        let mut out: Vec<Matrix<T>> = Vec::new();
        let mut o: usize = 0;
        while o < self.out_channel
            invariant
                input@.len() == self@.in_channel,
                sample_shaped(input.deep_view(), self@.prev_width as int, self@.prev_width as int),
                o <= self@.out_channel,
                out@.len() == o,
                forall|j: int|
                    0 <= j < o ==> (#[trigger] out@[j])@ == self@.channel_forward(
                        self@.conv2d[j],
                        input.deep_view(),
                        self@.in_channel,
                    ),
            decreases self@.out_channel - o,
        {
            out.push(self.channel_forward(input, o));
            o = o + 1;
        }
        assert(out.deep_view() =~= self@.sample_forward(input.deep_view()));
        out
    }

    /// Whether the geometry lets gradients go back.
    fn turns_back(&self) -> (yes: bool)
        ensures
            yes == self@.turns_back(),
    {
        proof {
            use_type_invariant(self);
        }
        if !conv_fits_check(self.prev_width, self.output_width, self.stride, self.padding) {
            return false;
        }
        if cal_shape(self.prev_width, self.output_width, self.stride, self.padding) != self.filter_width {
            return false;
        }
        if !conv_fits_check(self.output_width, self.filter_width, self.stride, self.padding) {
            return false;
        }
        cal_shape(self.output_width, self.filter_width, self.stride, self.padding) == self.prev_width
    }

    /// Whether the gradient of every sample has what the layer needs.
    fn all_restorable(&self, next_deltas: &Vec<Vec<Matrix<T>>>) -> (yes: bool)
        ensures
            yes == (forall|s: int|
                0 <= s < next_deltas@.len() ==> self@.restorable(#[trigger] next_deltas.deep_view()[s])),
    {
        proof {
            use_type_invariant(self);
            lemma_across(
                self@.prev_width as int,
                self@.filter_width as int,
                self@.stride as int,
                self@.padding as int,
            );
            lemma_sizes(self@.output_width as int, self@.filter_width as int);
        }
        let cells: usize = self.output_width * self.output_width;
        let count: usize = next_deltas.len();
        let mut s: usize = 0;
        while s < count
            invariant
                self@.wf(),
                cells == self@.output_width * self@.output_width,
                count == next_deltas@.len(),
                s <= count,
                forall|j: int| 0 <= j < s ==> self@.restorable(#[trigger] next_deltas.deep_view()[j]),
            decreases count - s,
        {
            let delta: &Vec<Matrix<T>> = &next_deltas[s];
            assert(delta.deep_view() == next_deltas.deep_view()[s as int]);
            let fine: bool = if self.boundary == 1 {
                if delta.len() >= 1 {
                    let held: usize = delta[0].len();
                    let rows: usize = delta[0].rows();
                    match self.out_channel.checked_mul(cells) {
                        Some(needed) => needed <= held,
                        None => false,
                    }
                } else {
                    false
                }
            } else {
                delta.len() == self.out_channel && crate::batch::is_sample_shaped(
                    delta,
                    self.output_width,
                    self.output_width,
                )
            };
            if !fine {
                return false;
            }
            s = s + 1;
        }
        true
    }

    /// The gradients of all samples, each cut into a square matrix for each output
    /// channel.
    fn restore_all(&self, next_deltas: &Vec<Vec<Matrix<T>>>) -> (out: Vec<Vec<Matrix<T>>>)
        requires
            self@.boundary == 1,
            forall|s: int| 0 <= s < next_deltas@.len() ==> self@.restorable(#[trigger] next_deltas.deep_view()[s]),
        ensures
            out.deep_view() == self@.restored_batch(next_deltas.deep_view()),
            out@.len() == next_deltas@.len(),
            batch_channels(out.deep_view(), self@.out_channel as int),
            batch_shaped(out.deep_view(), self@.output_width as int, self@.output_width as int),
    {
        proof {
            use_type_invariant(self);
        }
        let count: usize = next_deltas.len();
        let mut out: Vec<Vec<Matrix<T>>> = Vec::new();
        let mut s: usize = 0;
        while s < count
            invariant
                self@.wf(),
                self@.boundary == 1,
                forall|j: int|
                    0 <= j < next_deltas@.len() ==> self@.restorable(#[trigger] next_deltas.deep_view()[j]),
                count == next_deltas@.len(),
                s <= count,
                out@.len() == s,
                forall|j: int|
                    0 <= j < s ==> (#[trigger] out@[j]).deep_view() == self@.restored(next_deltas@[j].deep_view()),
            decreases count - s,
        {
            assert(self@.restorable(next_deltas.deep_view()[s as int]));
            assert(next_deltas.deep_view()[s as int][0] == next_deltas@[s as int]@[0]@);
            out.push(
                _restore_with_channel(
                    &next_deltas[s],
                    self.out_channel,
                    self.prev_width,
                    self.filter_width,
                    self.stride,
                    self.padding,
                    self.boundary,
                ),
            );
            s = s + 1;
        }
        assert(out.deep_view() =~= self@.restored_batch(next_deltas.deep_view()));
        proof {
            let width = self@.output_width as int;
            assert forall|j: int| 0 <= j < out.deep_view().len() implies sample_shaped(
                #[trigger] out.deep_view()[j],
                width,
                width,
            ) && out.deep_view()[j].len() == self@.out_channel by {
                let held = next_deltas.deep_view()[j][0].cells;
                assert(self@.restorable(next_deltas.deep_view()[j]));
                assert forall|ch: int| 0 <= ch < out.deep_view()[j].len() implies (#[trigger] out.deep_view()[j][ch]).wf()
                    && out.deep_view()[j][ch].has_shape(width, width) by {
                    assert((ch + 1) * (width * width) <= self@.out_channel * (width * width)) by (nonlinear_arith)
                        requires
                            ch + 1 <= self@.out_channel,
                            width * width >= 0,
                    ;
                    assert((ch + 1) * (width * width) == ch * (width * width) + width * width) by (nonlinear_arith);
                    assert(0 <= ch * (width * width)) by (nonlinear_arith)
                        requires
                            0 <= ch,
                            0 <= width * width,
                    ;
                }
            }
        }
        out
    }

    /// For one sample and each pair of channels, the gradient of the output channel slid
    /// as a filter over the input channel.
    fn cal_derivate_filters(&self, delta: &Vec<Matrix<T>>, input: &Vec<Matrix<T>>) -> (out: Vec<Vec<Matrix<T>>>)
        requires
            self@.turns_back(),
            delta@.len() == self@.out_channel,
            sample_shaped(delta.deep_view(), self@.output_width as int, self@.output_width as int),
            input@.len() == self@.in_channel,
            sample_shaped(input.deep_view(), self@.prev_width as int, self@.prev_width as int),
        ensures
            out.deep_view() == self@.derivate_filters(delta.deep_view(), input.deep_view()),
            out@.len() == self@.out_channel,
            batch_channels(out.deep_view(), self@.in_channel as int),
            batch_shaped(out.deep_view(), self@.filter_width as int, self@.filter_width as int),
    {
        let ghost target = self@.derivate_filters(delta.deep_view(), input.deep_view());
        let mut out: Vec<Vec<Matrix<T>>> = Vec::new();
        let mut o: usize = 0;
        while o < self.out_channel
            invariant
                self@.turns_back(),
                delta@.len() == self@.out_channel,
                sample_shaped(delta.deep_view(), self@.output_width as int, self@.output_width as int),
                input@.len() == self@.in_channel,
                sample_shaped(input.deep_view(), self@.prev_width as int, self@.prev_width as int),
                target == self@.derivate_filters(delta.deep_view(), input.deep_view()),
                o <= self@.out_channel,
                out@.len() == o,
                forall|j: int| 0 <= j < o ==> (#[trigger] out@[j]).deep_view() == target[j],
                forall|j: int|
                    0 <= j < o ==> sample_shaped(
                        (#[trigger] out@[j]).deep_view(),
                        self@.filter_width as int,
                        self@.filter_width as int,
                    ),
            decreases self@.out_channel - o,
        {
            let mut row: Vec<Matrix<T>> = Vec::new();
            let mut i: usize = 0;
            while i < self.in_channel
                invariant
                    self@.turns_back(),
                    o < self@.out_channel,
                    delta@.len() == self@.out_channel,
                    sample_shaped(delta.deep_view(), self@.output_width as int, self@.output_width as int),
                    input@.len() == self@.in_channel,
                    sample_shaped(input.deep_view(), self@.prev_width as int, self@.prev_width as int),
                    target == self@.derivate_filters(delta.deep_view(), input.deep_view()),
                    i <= self@.in_channel,
                    row@.len() == i,
                    forall|j: int| 0 <= j < i ==> (#[trigger] row@[j])@ == target[o as int][j],
                    forall|j: int|
                        0 <= j < i ==> (#[trigger] row@[j])@.wf() && row@[j]@.has_shape(
                            self@.filter_width as int,
                            self@.filter_width as int,
                        ),
                decreases self@.in_channel - i,
            {
                assert(delta.deep_view()[o as int].wf() && delta.deep_view()[o as int].has_shape(
                    self@.output_width as int,
                    self@.output_width as int,
                ));
                assert(input.deep_view()[i as int].wf() && input.deep_view()[i as int].has_shape(
                    self@.prev_width as int,
                    self@.prev_width as int,
                ));
                let slid: Matrix<T> = _convolution(&delta[o], &input[i], self.stride, self.padding);
                let wide: usize = slid.rows();
                row.push(slid);
                i = i + 1;
            }
            assert(row.deep_view() =~= target[o as int]);
            out.push(row);
            o = o + 1;
        }
        assert(out.deep_view() =~= target);
        out
    }

    /// The gradients of the filters, added up over the batch.
    fn filter_gradients(&self, deltas: &Vec<Vec<Matrix<T>>>, inputs: &Vec<Vec<Matrix<T>>>) -> (out: Vec<
        Vec<Matrix<T>>,
    >)
        requires
            self@.turns_back(),
            self@.accepts(inputs.deep_view()),
            deltas@.len() == inputs@.len(),
            batch_channels(deltas.deep_view(), self@.out_channel as int),
            batch_shaped(deltas.deep_view(), self@.output_width as int, self@.output_width as int),
        ensures
            out.deep_view() == self@.filter_gradients(deltas.deep_view(), inputs.deep_view(), deltas@.len()),
            out@.len() == self@.out_channel,
            batch_channels(out.deep_view(), self@.in_channel as int),
            batch_shaped(out.deep_view(), self@.filter_width as int, self@.filter_width as int),
    {
        proof {
            use_type_invariant(self);
            lemma_sizes(self@.output_width as int, self@.filter_width as int);
            lemma_across(
                self@.prev_width as int,
                self@.filter_width as int,
                self@.stride as int,
                self@.padding as int,
            );
        }
        let mut acc: Vec<Vec<Matrix<T>>> = zero_grid(
            self.out_channel,
            self.in_channel,
            self.filter_width,
            self.filter_width,
        );
        assert(acc.deep_view() =~~= self@.filter_gradients(deltas.deep_view(), inputs.deep_view(), 0));
        let count: usize = deltas.len();
        let mut s: usize = 0;
        while s < count
            invariant
                self@.turns_back(),
                self@.accepts(inputs.deep_view()),
                deltas@.len() == inputs@.len(),
                batch_channels(deltas.deep_view(), self@.out_channel as int),
                batch_shaped(deltas.deep_view(), self@.output_width as int, self@.output_width as int),
                count == deltas@.len(),
                s <= count,
                acc.deep_view() == self@.filter_gradients(deltas.deep_view(), inputs.deep_view(), s as nat),
                acc@.len() == self@.out_channel,
                batch_channels(acc.deep_view(), self@.in_channel as int),
                batch_shaped(acc.deep_view(), self@.filter_width as int, self@.filter_width as int),
            decreases count - s,
        {
            assert(deltas.deep_view()[s as int].len() == self@.out_channel);
            assert(sample_shaped(deltas.deep_view()[s as int], self@.output_width as int, self@.output_width as int));
            assert(inputs.deep_view()[s as int].len() == self@.in_channel);
            assert(sample_shaped(inputs.deep_view()[s as int], self@.prev_width as int, self@.prev_width as int));
            let fresh: Vec<Vec<Matrix<T>>> = self.cal_derivate_filters(&deltas[s], &inputs[s]);
            acc = sum_rows(&fresh, &acc, Ghost(self@.in_channel as int), Ghost(self@.filter_width as int));
            assert(acc.deep_view() =~= self@.filter_gradients(
                deltas.deep_view(),
                inputs.deep_view(),
                (s + 1) as nat,
            ));
            s = s + 1;
        }
        acc
    }

    /// For each output channel, the mean of its gradient over the batch.
    fn average_deltas(&self, deltas: &Vec<Vec<Matrix<T>>>) -> (out: Vec<Matrix<T>>)
        requires
            batch_channels(deltas.deep_view(), self@.out_channel as int),
            batch_shaped(deltas.deep_view(), self@.output_width as int, self@.output_width as int),
        ensures
            out.deep_view() == self@.average_deltas(deltas.deep_view(), deltas@.len()),
            out@.len() == self@.out_channel,
            sample_shaped(out.deep_view(), self@.output_width as int, self@.output_width as int),
    {
        proof {
            use_type_invariant(self);
            lemma_sizes(self@.output_width as int, self@.filter_width as int);
            lemma_across(
                self@.prev_width as int,
                self@.filter_width as int,
                self@.stride as int,
                self@.padding as int,
            );
        }
        let count: usize = deltas.len();
        let samples: T = T::count(count);
        let mut acc: Vec<Matrix<T>> = zero_matrices(self.out_channel, self.output_width, self.output_width);
        let mut s: usize = 0;
        while s < count
            invariant
                batch_channels(deltas.deep_view(), self@.out_channel as int),
                batch_shaped(deltas.deep_view(), self@.output_width as int, self@.output_width as int),
                count == deltas@.len(),
                samples == T::count_spec(count),
                s <= count,
                acc.deep_view() == self@.average_deltas(deltas.deep_view(), s as nat),
                acc@.len() == self@.out_channel,
                sample_shaped(acc.deep_view(), self@.output_width as int, self@.output_width as int),
            decreases count - s,
        {
            assert(deltas.deep_view()[s as int].len() == self@.out_channel);
            assert(sample_shaped(deltas.deep_view()[s as int], self@.output_width as int, self@.output_width as int));
            let share: Vec<Matrix<T>> = divided_sample(&deltas[s], samples);
            assert(share.deep_view() =~= self@.divided(deltas.deep_view()[s as int], samples));
            assert forall|i: int| 0 <= i < acc@.len() && i < share@.len() implies (#[trigger] acc@[i])@.rows
                == share@[i]@.rows && acc@[i]@.cols == share@[i]@.cols by {
                assert(acc.deep_view()[i].has_shape(self@.output_width as int, self@.output_width as int));
                assert(deltas.deep_view()[s as int][i].has_shape(
                    self@.output_width as int,
                    self@.output_width as int,
                ));
                assert(share.deep_view()[i] == share@[i]@);
            }
            let next: Vec<Matrix<T>> = sum_nested_vector(&acc, &share);
            proof {
                assert forall|i: int| 0 <= i < next.deep_view().len() implies (#[trigger] next.deep_view()[i]).wf()
                    && next.deep_view()[i].has_shape(self@.output_width as int, self@.output_width as int) by {
                    assert(acc.deep_view()[i].wf() && acc.deep_view()[i].has_shape(
                        self@.output_width as int,
                        self@.output_width as int,
                    ));
                }
            }
            acc = next;
            s = s + 1;
        }
        acc
    }

    /// The units after one step against the gradients.
    fn updated_units(&self, averages: &Vec<Matrix<T>>, gradients: &Vec<Vec<Matrix<T>>>) -> (out: Vec<
        Vec<Conv2D<T>>,
    >)
        requires
            averages@.len() == self@.out_channel,
            sample_shaped(averages.deep_view(), self@.output_width as int, self@.output_width as int),
            gradients@.len() == self@.out_channel,
            batch_channels(gradients.deep_view(), self@.in_channel as int),
            batch_shaped(gradients.deep_view(), self@.filter_width as int, self@.filter_width as int),
        ensures
            out.deep_view() == Seq::new(
                self@.out_channel,
                |o: int|
                    Seq::new(
                        self@.in_channel,
                        |i: int|
                            self@.conv2d[o][i].updated_spec(averages.deep_view()[o], gradients.deep_view()[o][i]),
                    ),
            ),
            forall|o: int, i: int|
                0 <= o < self@.out_channel && 0 <= i < self@.in_channel ==> self@.holds(
                    #[trigger] out.deep_view()[o][i],
                ),
    {
        proof {
            use_type_invariant(self);
        }
        let ghost target = Seq::new(
            self@.out_channel,
            |o: int|
                Seq::new(
                    self@.in_channel,
                    |i: int| self@.conv2d[o][i].updated_spec(averages.deep_view()[o], gradients.deep_view()[o][i]),
                ),
        );
        let mut out: Vec<Vec<Conv2D<T>>> = Vec::new();
        let mut o: usize = 0;
        while o < self.out_channel
            invariant
                self@.wf(),
                averages@.len() == self@.out_channel,
                sample_shaped(averages.deep_view(), self@.output_width as int, self@.output_width as int),
                gradients@.len() == self@.out_channel,
                batch_channels(gradients.deep_view(), self@.in_channel as int),
                batch_shaped(gradients.deep_view(), self@.filter_width as int, self@.filter_width as int),
                target == Seq::new(
                    self@.out_channel,
                    |o: int|
                        Seq::new(
                            self@.in_channel,
                            |i: int|
                                self@.conv2d[o][i].updated_spec(
                                    averages.deep_view()[o],
                                    gradients.deep_view()[o][i],
                                ),
                        ),
                ),
                o <= self@.out_channel,
                out@.len() == o,
                forall|j: int| 0 <= j < o ==> (#[trigger] out@[j]).deep_view() == target[j],
                forall|j: int, i: int|
                    0 <= j < o && 0 <= i < self@.in_channel ==> self@.holds(#[trigger] out@[j]@[i]@),
            decreases self@.out_channel - o,
        {
            assert(gradients.deep_view()[o as int].len() == self@.in_channel);
            assert(sample_shaped(
                gradients.deep_view()[o as int],
                self@.filter_width as int,
                self@.filter_width as int,
            ));
            assert(averages.deep_view()[o as int].has_shape(self@.output_width as int, self@.output_width as int));
            let mut row: Vec<Conv2D<T>> = Vec::new();
            let mut i: usize = 0;
            while i < self.in_channel
                invariant
                    self@.wf(),
                    o < self@.out_channel,
                    averages@.len() == self@.out_channel,
                    averages.deep_view()[o as int].has_shape(self@.output_width as int, self@.output_width as int),
                    gradients@.len() == self@.out_channel,
                    gradients@[o as int]@.len() == self@.in_channel,
                    sample_shaped(
                        gradients.deep_view()[o as int],
                        self@.filter_width as int,
                        self@.filter_width as int,
                    ),
                    target == Seq::new(
                        self@.out_channel,
                        |o: int|
                            Seq::new(
                                self@.in_channel,
                                |i: int|
                                    self@.conv2d[o][i].updated_spec(
                                        averages.deep_view()[o],
                                        gradients.deep_view()[o][i],
                                    ),
                            ),
                    ),
                    i <= self@.in_channel,
                    row@.len() == i,
                    forall|j: int| 0 <= j < i ==> (#[trigger] row@[j])@ == target[o as int][j],
                    forall|j: int| 0 <= j < i ==> self@.holds(#[trigger] row@[j]@),
                decreases self@.in_channel - i,
            {
                let unit: &Conv2D<T> = self.unit(o, i);
                assert(gradients.deep_view()[o as int][i as int].has_shape(
                    self@.filter_width as int,
                    self@.filter_width as int,
                ));
                let stepped: Conv2D<T> = unit.updated(&averages[o], &gradients[o][i]);
                row.push(stepped);
                i = i + 1;
            }
            assert(row.deep_view() =~= target[o as int]);
            out.push(row);
            o = o + 1;
        }
        assert(out.deep_view() =~= target);
        out
    }

    /// For one input channel, the sum over the output channels of what the units give
    /// back for the gradient of one sample.
    fn channel_backward(&self, delta: &Vec<Matrix<T>>, i: usize) -> (out: Matrix<T>)
        requires
            self@.turns_back(),
            i < self@.in_channel,
            delta@.len() == self@.out_channel,
            sample_shaped(delta.deep_view(), self@.output_width as int, self@.output_width as int),
        ensures
            out@ == self@.channel_backward(delta.deep_view(), i as int, self@.out_channel),
    {
        proof {
            use_type_invariant(self);
            lemma_sizes(self@.prev_width as int, self@.filter_width as int);
            lemma_across(
                self@.prev_width as int,
                self@.filter_width as int,
                self@.stride as int,
                self@.padding as int,
            );
        }
        let mut acc: Matrix<T> = Matrix::filled(self.prev_width, self.prev_width, T::zero());
        let mut o: usize = 0;
        while o < self.out_channel
            invariant
                self@.wf(),
                self@.turns_back(),
                i < self@.in_channel,
                delta@.len() == self@.out_channel,
                sample_shaped(delta.deep_view(), self@.output_width as int, self@.output_width as int),
                o <= self@.out_channel,
                acc@ == self@.channel_backward(delta.deep_view(), i as int, o as nat),
                acc@.wf(),
                acc@.has_shape(self@.prev_width as int, self@.prev_width as int),
            decreases self@.out_channel - o,
        {
            let unit: &Conv2D<T> = self.unit(o, i);
            assert(delta.deep_view()[o as int].wf() && delta.deep_view()[o as int].has_shape(
                self@.output_width as int,
                self@.output_width as int,
            ));
            let given: Matrix<T> = unit.cal_delta(&delta[o]);
            let wide: usize = given.rows();
            acc = combine(Binary::Plus, &acc, &given);
            let tall: usize = acc.rows();
            o = o + 1;
        }
        acc
    }

    /// The gradient with respect to the input of the layer for one sample: for each input
    /// channel, the sum over the output channels of what the units give back.
    pub fn cal_delta(&self, next_delta: &Vec<Matrix<T>>) -> (out: Vec<Matrix<T>>)
        requires
            self@.turns_back(),
            next_delta@.len() == self@.out_channel,
            sample_shaped(next_delta.deep_view(), self@.output_width as int, self@.output_width as int),
        ensures
            out.deep_view() == self@.sample_backward(next_delta.deep_view()),
    {
        let mut out: Vec<Matrix<T>> = Vec::new();
        let mut i: usize = 0;
        while i < self.in_channel
            invariant
                self@.turns_back(),
                next_delta@.len() == self@.out_channel,
                sample_shaped(next_delta.deep_view(), self@.output_width as int, self@.output_width as int),
                i <= self@.in_channel,
                out@.len() == i,
                forall|j: int|
                    0 <= j < i ==> (#[trigger] out@[j])@ == self@.channel_backward(
                        next_delta.deep_view(),
                        j,
                        self@.out_channel,
                    ),
            decreases self@.in_channel - i,
        {
            out.push(self.channel_backward(next_delta, i));
            i = i + 1;
        }
        assert(out.deep_view() =~= self@.sample_backward(next_delta.deep_view()));
        out
    }

    /// One step against the gradients of the batch, given as a square matrix for each
    /// output channel, and the gradients with respect to the inputs.
    fn backward_restored(&mut self, deltas: &Vec<Vec<Matrix<T>>>, inputs: &Vec<Vec<Matrix<T>>>) -> (out: Vec<
        Vec<Matrix<T>>,
    >)
        requires
            old(self)@.turns_back(),
            old(self)@.accepts(inputs.deep_view()),
            deltas@.len() == inputs@.len(),
            batch_channels(deltas.deep_view(), old(self)@.out_channel as int),
            batch_shaped(deltas.deep_view(), old(self)@.output_width as int, old(self)@.output_width as int),
        ensures
            final(self)@ == (Conv3DView {
                conv2d: old(self)@.updated_units(deltas.deep_view(), inputs.deep_view()),
                ..old(self)@
            }),
            out.deep_view() == Seq::new(
                deltas@.len(),
                |s: int| final(self)@.sample_backward(deltas.deep_view()[s]),
            ),
    {
        proof {
            use_type_invariant(&*self);
        }
        let gradients: Vec<Vec<Matrix<T>>> = self.filter_gradients(deltas, inputs);
        let averages: Vec<Matrix<T>> = self.average_deltas(deltas);
        let conv2d: Vec<Vec<Conv2D<T>>> = self.updated_units(&averages, &gradients);
        assert(conv2d.deep_view() =~~= self@.updated_units(deltas.deep_view(), inputs.deep_view()));
        *self = Conv3D {
            in_channel: self.in_channel,
            out_channel: self.out_channel,
            stride: self.stride,
            padding: self.padding,
            prev_width: self.prev_width,
            output_width: self.output_width,
            filter_width: self.filter_width,
            alpha: self.alpha,
            boundary: self.boundary,
            conv2d,
        };
        let count: usize = deltas.len();
        let mut out: Vec<Vec<Matrix<T>>> = Vec::new();
        let mut s: usize = 0;
        while s < count
            invariant
                self@.turns_back(),
                batch_channels(deltas.deep_view(), self@.out_channel as int),
                batch_shaped(deltas.deep_view(), self@.output_width as int, self@.output_width as int),
                count == deltas@.len(),
                s <= count,
                out@.len() == s,
                forall|j: int|
                    0 <= j < s ==> (#[trigger] out@[j]).deep_view() == self@.sample_backward(
                        deltas@[j].deep_view(),
                    ),
            decreases count - s,
        {
            assert(deltas.deep_view()[s as int].len() == self@.out_channel);
            assert(sample_shaped(deltas.deep_view()[s as int], self@.output_width as int, self@.output_width as int));
            out.push(self.cal_delta(&deltas[s]));
            s = s + 1;
        }
        assert(out.deep_view() =~= Seq::new(deltas@.len(), |s: int| self@.sample_backward(deltas.deep_view()[s])));
        out
    }

    /// One training step of the layer: the filters and biases of all units take one step
    /// against their gradients, and the gradients with respect to the inputs, computed
    /// with the new filters, are given back. Nothing changes where the shapes do not fit.
    pub fn backward(&mut self, next_deltas: &Vec<Vec<Matrix<T>>>, inputs: &Vec<Vec<Matrix<T>>>) -> (out: Result<
        Vec<Vec<Matrix<T>>>,
        NetError,
    >)
        ensures
            out is Ok <==> old(self)@.accepts_backward(next_deltas.deep_view(), inputs.deep_view()),
            out matches Ok(deltas) ==> deltas.deep_view() == old(self)@.backward_spec(
                next_deltas.deep_view(),
                inputs.deep_view(),
            ) && final(self)@ == old(self)@.updated_spec(next_deltas.deep_view(), inputs.deep_view()),
            out matches Err(e) ==> e == NetError::ShapeMismatch && final(self)@ == old(self)@,
    {
        if !self.turns_back() || !has_channels(inputs, self.in_channel) || !is_batch_shaped(
            inputs,
            self.prev_width,
            self.prev_width,
        ) || next_deltas.len() != inputs.len() || !self.all_restorable(next_deltas) {
            return Err(NetError::ShapeMismatch);
        }
        let ghost before = self@;
        if self.boundary == 1 {
            let restored: Vec<Vec<Matrix<T>>> = self.restore_all(next_deltas);
            let out: Vec<Vec<Matrix<T>>> = self.backward_restored(&restored, inputs);
            assert(out.deep_view() =~= before.backward_spec(next_deltas.deep_view(), inputs.deep_view()));
            Ok(out)
        } else {
            proof {
                assert(next_deltas.deep_view() =~= self@.restored_batch(next_deltas.deep_view()));
                assert forall|s: int| 0 <= s < next_deltas.deep_view().len() implies (
                #[trigger] next_deltas.deep_view()[s]).len() == self@.out_channel && sample_shaped(
                    next_deltas.deep_view()[s],
                    self@.output_width as int,
                    self@.output_width as int,
                ) by {
                    assert(self@.restorable(next_deltas.deep_view()[s]));
                }
            }
            let out: Vec<Vec<Matrix<T>>> = self.backward_restored(next_deltas, inputs);
            assert(out.deep_view() =~= before.backward_spec(next_deltas.deep_view(), inputs.deep_view()));
            Ok(out)
        }
    }

    /// Every sample of the batch convolved, if every sample has a square matrix of the
    /// input width for each input channel.
    pub fn forward(&self, inputs: &Vec<Vec<Matrix<T>>>) -> (out: Result<Vec<Vec<Matrix<T>>>, NetError>)
        ensures
            out is Ok <==> self@.accepts(inputs.deep_view()),
            out matches Ok(outputs) ==> outputs.deep_view() == self@.forward_spec(inputs.deep_view()),
            out matches Err(e) ==> e == NetError::ShapeMismatch,
    {
        if !has_channels(inputs, self.in_channel) || !is_batch_shaped(inputs, self.prev_width, self.prev_width) {
            return Err(NetError::ShapeMismatch);
        }
        let count: usize = inputs.len();
        let mut outputs: Vec<Vec<Matrix<T>>> = Vec::new();
        let mut s: usize = 0;
        while s < count
            invariant
                self@.accepts(inputs.deep_view()),
                count == inputs@.len(),
                s <= count,
                outputs@.len() == s,
                forall|j: int|
                    0 <= j < s ==> (#[trigger] outputs@[j]).deep_view() == self@.sample_forward(
                        inputs@[j].deep_view(),
                    ),
            decreases count - s,
        {
            assert(inputs.deep_view()[s as int].len() == self@.in_channel);
            assert(sample_shaped(inputs.deep_view()[s as int], self@.prev_width as int, self@.prev_width as int));
            outputs.push(self._forward(&inputs[s]));
            s = s + 1;
        }
        assert(outputs.deep_view() =~= self@.forward_spec(inputs.deep_view()));
        Ok(outputs)
    }
}

} // verus!
