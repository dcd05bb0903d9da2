//! Window geometry: how many positions a sliding window takes along one axis, and
//! where a cell of a window lies in the matrix that the window slides over.

use vstd::prelude::*;

verus! {

/// Number of window positions along one axis, as a mathematical integer.
pub open spec fn cal_shape_spec(input_width: int, filter_width: int, stride: int, padding: int) -> int {
    (input_width - filter_width + 2 * padding) / stride + 1
}

/// Width of the axis that yields `input_width` window positions: the inverse of
/// [`cal_shape_spec`] on geometries that divide evenly.
pub open spec fn cal_backward_shape_spec(input_width: int, width: int, stride: int, padding: int) -> int {
    (input_width - 1) * stride - 2 * padding + width
}

/// A geometry is valid when the stride is positive, the window fits into the padded
/// axis, and the stride divides the distance that the window can travel.
pub open spec fn data_check_spec(input_width: int, filter_width: int, pad: int, stride: int) -> bool {
    &&& stride > 0
    &&& filter_width <= input_width + 2 * pad
    &&& (input_width - filter_width + 2 * pad) % stride == 0
}

/// Flat index, in a matrix with `length` columns, of the cell at position `pos` of the
/// window number `index`, where `offset` windows lie side by side and each is `width` wide.
pub open spec fn restore_max_index_spec(
    offset: int,
    index: int,
    pos: int,
    stride: int,
    length: int,
    width: int,
) -> int {
    let row = index / offset * stride + pos / width;
    let col = index % offset * stride + pos % width;
    row * length + col
}

/// The product of two machine words, and a third word added to it, fit into 128 bits.
pub proof fn lemma_product_fits(a: int, b: int)
    requires
        0 <= a <= u64::MAX,
        0 <= b <= u64::MAX,
    ensures
        0 <= a * b,
        a * b + u64::MAX <= u128::MAX,
{
    assert(0 <= a * b <= 0xffff_ffff_ffff_ffff * 0xffff_ffff_ffff_ffff) by (nonlinear_arith)
        requires
            0 <= a <= 0xffff_ffff_ffff_ffff,
            0 <= b <= 0xffff_ffff_ffff_ffff,
    ;
}

/// Number of positions that a window of `filter_width` cells takes along an axis of
/// `input_width` cells with `padding` zero cells on each side, moving `stride` cells at a time.
pub fn cal_shape(input_width: usize, filter_width: usize, stride: usize, padding: usize) -> (width: usize)
    requires
        stride > 0,
        filter_width <= input_width + 2 * padding,
        cal_shape_spec(input_width as int, filter_width as int, stride as int, padding as int)
            <= usize::MAX,
    ensures
        width == cal_shape_spec(input_width as int, filter_width as int, stride as int, padding as int),
{
    let padded: u128 = input_width as u128 + 2 * (padding as u128);
    let travel: u128 = padded - filter_width as u128;
    let steps: u128 = travel / (stride as u128);
    (steps + 1) as usize
}

/// Width of the axis on which a window of `width` cells, moving `stride` cells at a time
/// over `padding` zero cells on each side, takes `input_width` positions.
pub fn cal_backward_shape(input_width: usize, width: usize, stride: usize, padding: usize) -> (axis: usize)
    requires
        0 <= cal_backward_shape_spec(input_width as int, width as int, stride as int, padding as int)
            <= usize::MAX,
        input_width >= 1,
    ensures
        axis == cal_backward_shape_spec(
            input_width as int,
            width as int,
            stride as int,
            padding as int,
        ),
{
    proof {
        lemma_product_fits((input_width - 1) as int, stride as int);
    }
    let travel: u128 = (input_width - 1) as u128 * (stride as u128);
    let grown: u128 = travel + width as u128;
    (grown - 2 * (padding as u128)) as usize
}

/// Whether the geometry is valid: see [`data_check_spec`]. Never fails, whatever the numbers.
#[allow(non_snake_case)]
pub fn DATA_CHECK(input_width: usize, filter_width: usize, pad: usize, stride: usize) -> (valid: bool)
    ensures
        valid == data_check_spec(input_width as int, filter_width as int, pad as int, stride as int),
{
    if stride == 0 {
        return false;
    }
    let padded: u128 = input_width as u128 + 2 * (pad as u128);
    if (filter_width as u128) > padded {
        return false;
    }
    (padded - filter_width as u128) % (stride as u128) == 0
}

/// A window that travels evenly over an axis takes as many positions as the geometry
/// says, and the axis is found again from the number of positions.
pub proof fn lemma_backward_shape_undoes_shape(input_width: int, filter_width: int, stride: int, padding: int)
    requires
        data_check_spec(input_width, filter_width, padding, stride),
    ensures
        cal_shape_spec(input_width, filter_width, stride, padding) >= 1,
        (cal_shape_spec(input_width, filter_width, stride, padding) - 1) * stride == input_width - filter_width + 2
            * padding,
        cal_backward_shape_spec(
            cal_shape_spec(input_width, filter_width, stride, padding),
            filter_width,
            stride,
            padding,
        ) == input_width,
{
    let travel = input_width - filter_width + 2 * padding;
    vstd::arithmetic::div_mod::lemma_fundamental_div_mod(travel, stride);
    vstd::arithmetic::div_mod::lemma_div_pos_is_pos(travel, stride);
    assert(stride * (travel / stride) == (travel / stride) * stride) by (nonlinear_arith);
}

/// Flat index of a window cell in the matrix under the window: see [`restore_max_index_spec`].
pub fn _restore_max_index(offset: usize, pair: (usize, usize), stride: usize, length: usize, width: usize) -> (flat: usize)
    requires
        offset > 0,
        width > 0,
        restore_max_index_spec(
            offset as int,
            pair.0 as int,
            pair.1 as int,
            stride as int,
            length as int,
            width as int,
        ) <= usize::MAX,
    ensures
        flat == restore_max_index_spec(
            offset as int,
            pair.0 as int,
            pair.1 as int,
            stride as int,
            length as int,
            width as int,
        ),
{
    proof {
        lemma_product_fits((pair.0 / offset) as int, stride as int);
        lemma_product_fits((pair.0 % offset) as int, stride as int);
    }
    let row: u128 = (pair.0 / offset) as u128 * (stride as u128) + (pair.1 / width) as u128;
    let col: u128 = (pair.0 % offset) as u128 * (stride as u128) + (pair.1 % width) as u128;
    if length == 0 {
        assert(row * 0 == 0);
        return col as usize;
    }
    assert(row <= row * length) by (nonlinear_arith)
        requires
            length >= 1,
            row >= 0,
    ;
    (row * (length as u128) + col) as usize
}

} // verus!
