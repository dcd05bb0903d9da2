use convnet::algebra::{column_sums, combine, plus_column, product, row_sums, scalar_with, transposed, with_scalar, Binary};
use convnet::matrix::Matrix;
use convnet::pooling::{_max_pool, _upsample, crop};
use convnet::reshape::{_flatten_withno_channel, _restore_with_channel, slice_cells, sum_nested_vector};
use convnet::rotate::{_rotate, rotation};
use convnet::scalar::Scalar;
use convnet::window::{_convolution, flip_matrix, im2col, im2col_filter, im2col_input, padding};

fn matrix(rows: usize, cols: usize, cells: Vec<i64>) -> Matrix<i64> {
    Matrix::from_shape_vec(rows, cols, cells).unwrap()
}

fn cells(m: &Matrix<i64>) -> Vec<i64> {
    m.copied().into_vec()
}

fn counting(side: usize) -> Matrix<i64> {
    matrix(side, side, (1..=(side * side) as i64).collect())
}

#[test]
fn from_shape_vec_wants_a_cell_for_each_place() {
    assert!(Matrix::from_shape_vec(2, 3, vec![1i64, 2, 3, 4, 5, 6]).is_some());
    assert!(Matrix::from_shape_vec(2, 3, vec![1i64, 2, 3, 4, 5]).is_none());
    assert!(Matrix::from_shape_vec(usize::MAX, 2, vec![1i64]).is_none());
    let m = matrix(2, 3, vec![1, 2, 3, 4, 5, 6]);
    assert_eq!(m.rows(), 2);
    assert_eq!(m.cols(), 3);
    assert_eq!(m.len(), 6);
    assert_eq!(m.get(1, 0), 4);
    assert_eq!(m.cell(5), 6);
}

#[test]
fn filled_and_reshaped() {
    let zeros = Matrix::filled(2, 2, 0i64);
    assert_eq!(cells(&zeros), vec![0, 0, 0, 0]);
    let row = counting(2).reshaped(1, 4);
    assert_eq!((row.rows(), row.cols()), (1, 4));
    assert_eq!(cells(&row), vec![1, 2, 3, 4]);
}

#[test]
fn integer_scalars_wrap_and_divide_towards_zero() {
    assert_eq!(i64::MAX.plus(1), i64::MIN);
    assert_eq!(i64::MIN.minus(1), i64::MAX);
    assert_eq!(7i64.over(2), 3);
    assert_eq!((-7i64).over(2), -3);
    assert_eq!(7i64.over(-2), -3);
    assert_eq!((-7i64).over(-2), 3);
    assert_eq!(7i64.over(0), 0);
    assert_eq!(i64::MIN.over(-1), i64::MIN);
    assert_eq!(i64::MIN.over(1), i64::MIN);
    assert_eq!(<i64 as Scalar>::count(5), 5);
    assert_eq!(3i64.times(-4), -12);
    assert!(3i64.exceeds(2));
    assert!(!3i64.exceeds(3));
    assert!(3i64.at_least(3));
}

#[test]
fn elementwise_arithmetic() {
    let a = matrix(2, 2, vec![1, 2, 3, 4]);
    let b = matrix(2, 2, vec![10, 20, 30, 40]);
    assert_eq!(cells(&combine(Binary::Plus, &a, &b)), vec![11, 22, 33, 44]);
    assert_eq!(cells(&combine(Binary::Minus, &a, &b)), vec![-9, -18, -27, -36]);
    assert_eq!(cells(&combine(Binary::Times, &a, &b)), vec![10, 40, 90, 160]);
    assert_eq!(cells(&combine(Binary::Over, &b, &a)), vec![10, 10, 10, 10]);
    assert_eq!(cells(&scalar_with(Binary::Minus, 10, &a)), vec![9, 8, 7, 6]);
    assert_eq!(cells(&with_scalar(Binary::Minus, &a, 10)), vec![-9, -8, -7, -6]);
}

#[test]
fn product_transpose_and_sums() {
    let a = matrix(2, 3, vec![1, 2, 3, 4, 5, 6]);
    let b = matrix(3, 2, vec![7, 8, 9, 10, 11, 12]);
    let ab = product(&a, &b);
    assert_eq!((ab.rows(), ab.cols()), (2, 2));
    assert_eq!(cells(&ab), vec![58, 64, 139, 154]);
    let at = transposed(&a);
    assert_eq!((at.rows(), at.cols()), (3, 2));
    assert_eq!(cells(&at), vec![1, 4, 2, 5, 3, 6]);
    let rows = row_sums(&a);
    assert_eq!((rows.rows(), rows.cols()), (2, 1));
    assert_eq!(cells(&rows), vec![6, 15]);
    let cols = column_sums(&a);
    assert_eq!((cols.rows(), cols.cols()), (3, 1));
    assert_eq!(cells(&cols), vec![5, 7, 9]);
    let shifted = plus_column(&a, &matrix(2, 1, vec![100, 200]));
    assert_eq!(cells(&shifted), vec![101, 102, 103, 204, 205, 206]);
}

#[test]
fn quarter_turns_of_a_three_by_three_matrix() {
    let m = counting(3);
    assert_eq!(cells(&_rotate(&m, 1)), vec![7, 4, 1, 8, 5, 2, 9, 6, 3]);
    assert_eq!(cells(&_rotate(&m, 2)), vec![9, 8, 7, 6, 5, 4, 3, 2, 1]);
    assert_eq!(cells(&_rotate(&m, 3)), vec![3, 6, 9, 2, 5, 8, 1, 4, 7]);
    assert_eq!(cells(&_rotate(&m, 0)), cells(&m));
    assert_eq!(cells(&_rotate(&m, 4)), cells(&m));
}

#[test]
fn four_quarter_turns_give_the_matrix_back() {
    for side in 0..6 {
        let m = counting(side);
        let back = _rotate(&_rotate(&_rotate(&_rotate(&m, 1), 1), 1), 1);
        assert_eq!(cells(&back), cells(&m));
        assert_eq!(cells(&_rotate(&_rotate(&m, 1), 1)), cells(&_rotate(&m, 2)));
    }
}

#[test]
fn rotation_turns_every_filter_once() {
    let turned = rotation(&vec![counting(2), counting(3)]);
    assert_eq!(turned.len(), 2);
    assert_eq!(cells(&turned[0]), vec![3, 1, 4, 2]);
    assert_eq!(cells(&turned[1]), vec![7, 4, 1, 8, 5, 2, 9, 6, 3]);
}

#[test]
fn padding_adds_a_border_of_zeros() {
    let padded = padding(&counting(2), 1);
    assert_eq!((padded.rows(), padded.cols()), (4, 4));
    assert_eq!(cells(&padded), vec![0, 0, 0, 0, 0, 1, 2, 0, 0, 3, 4, 0, 0, 0, 0, 0]);
    assert_eq!(cells(&padding(&counting(2), 0)), vec![1, 2, 3, 4]);
    assert_eq!(cells(&crop(&padded, 1)), vec![1, 2, 3, 4]);
}

#[test]
fn windows_of_a_three_by_three_matrix() {
    let windows = flip_matrix(&counting(3), 2, 1, 0);
    assert_eq!(windows, vec![vec![1, 2, 4, 5], vec![2, 3, 5, 6], vec![4, 5, 7, 8], vec![5, 6, 8, 9]]);
    let unrolled = im2col(&counting(3), 2, 1, 0);
    assert_eq!((unrolled.rows(), unrolled.cols()), (4, 4));
    assert_eq!(cells(&unrolled), vec![1, 2, 4, 5, 2, 3, 5, 6, 4, 5, 7, 8, 5, 6, 8, 9]);
    let reshaped = im2col_input(&counting(3), 2, 2);
    assert_eq!((reshaped.rows(), reshaped.cols()), (4, 4));
    assert_eq!(cells(&reshaped), cells(&unrolled));
    let column = im2col_filter(&counting(2), 2);
    assert_eq!((column.rows(), column.cols()), (4, 1));
    assert_eq!(cells(&column), vec![1, 2, 3, 4]);
}

#[test]
fn windows_with_stride_and_padding() {
    // a 2 by 2 matrix padded by 1 is 4 by 4; windows of 2 at stride 2 are its four corners
    let windows = flip_matrix(&counting(2), 2, 2, 1);
    assert_eq!(windows, vec![vec![0, 0, 0, 1], vec![0, 0, 2, 0], vec![0, 3, 0, 0], vec![4, 0, 0, 0]]);
}

fn naive_convolution(filter: &Matrix<i64>, input: &Matrix<i64>, stride: usize, pad: usize) -> Vec<i64> {
    let width = filter.rows();
    let padded = padding(input, pad);
    let across = (input.rows() + 2 * pad - width) / stride + 1;
    let mut out = Vec::new();
    for r in 0..across {
        for c in 0..across {
            let mut acc = 0i64;
            for i in 0..width {
                for j in 0..width {
                    acc += padded.get(r * stride + i, c * stride + j) * filter.get(i, j);
                }
            }
            out.push(acc);
        }
    }
    out
}

#[test]
fn convolution_of_four_by_four_with_three_by_three() {
    let input = counting(4);
    let filter = matrix(3, 3, vec![1, 0, -1, 2, 0, -2, 1, 0, -1]);
    let out = _convolution(&filter, &input, 1, 0);
    assert_eq!((out.rows(), out.cols()), (2, 2));
    assert_eq!(cells(&out), vec![-8, -8, -8, -8]);
    assert_eq!(cells(&out), naive_convolution(&filter, &input, 1, 0));
}

#[test]
fn convolution_with_padding_keeps_the_width() {
    let input = counting(4);
    let filter = matrix(3, 3, vec![1, 0, -1, 2, 0, -2, 1, 0, -1]);
    let out = _convolution(&filter, &input, 1, 1);
    assert_eq!((out.rows(), out.cols()), (4, 4));
    assert_eq!(cells(&out), vec![-10, -6, -6, 13, -24, -8, -8, 28, -40, -8, -8, 44, -38, -6, -6, 41]);
}

#[test]
fn convolution_by_unrolling_is_direct_convolution() {
    let filter = matrix(2, 2, vec![3, -1, 4, 2]);
    for side in 2..6 {
        for stride in 1..3 {
            for pad in 0..3 {
                let input = counting(side);
                let out = _convolution(&filter, &input, stride, pad);
                let across = (side + 2 * pad - 2) / stride + 1;
                assert_eq!((out.rows(), out.cols()), (across, across));
                assert_eq!(cells(&out), naive_convolution(&filter, &input, stride, pad));
            }
        }
    }
}

#[test]
fn max_pool_reports_the_first_largest_cell_of_each_window() {
    let input = matrix(4, 4, vec![1, 3, 2, 4, 5, 6, 8, 7, 9, 9, 1, 0, 2, 9, 3, 3]);
    let (pooled, positions) = _max_pool(&input, 2, 2, 0, 4);
    assert_eq!((pooled.rows(), pooled.cols()), (2, 2));
    assert_eq!(cells(&pooled), vec![6, 8, 9, 3]);
    assert_eq!(positions, vec![5, 6, 8, 14]);
}

#[test]
fn max_pool_with_windows_that_overlap() {
    let input = matrix(4, 4, vec![1, 3, 2, 4, 5, 6, 8, 7, 9, 9, 1, 0, 2, 9, 3, 3]);
    let (pooled, positions) = _max_pool(&input, 2, 1, 0, 4);
    assert_eq!(cells(&pooled), vec![6, 8, 8, 9, 9, 8, 9, 9, 3]);
    assert_eq!(positions, vec![5, 6, 6, 8, 9, 6, 8, 9, 14]);
}

#[test]
fn max_pool_positions_point_at_the_maximum() {
    let input = matrix(4, 4, vec![1, 3, 2, 4, 5, 6, 8, 7, 9, 9, 1, 0, 2, 9, 3, 3]);
    for (stride, pad) in [(2usize, 0usize), (1, 0), (2, 1), (1, 1)] {
        let padded = padding(&input, pad);
        let windows = flip_matrix(&input, 2, stride, pad);
        let (pooled, positions) = _max_pool(&input, 2, stride, pad, 4);
        assert_eq!(positions.len(), windows.len());
        for w in 0..windows.len() {
            assert_eq!(padded.cell(positions[w]), pooled.cell(w));
            for cell in &windows[w] {
                assert!(pooled.cell(w) >= *cell);
            }
        }
    }
}

#[test]
fn max_pool_of_negative_cells_with_padding_finds_the_zeros() {
    let input = matrix(2, 2, vec![-1, -2, -3, -4]);
    let (pooled, positions) = _max_pool(&input, 2, 2, 1, 2);
    assert_eq!(cells(&pooled), vec![0, 0, 0, 0]);
    assert_eq!(positions, vec![0, 2, 8, 11]);
}

#[test]
fn upsample_puts_each_cell_at_its_position() {
    let delta = matrix(2, 2, vec![10, 20, 30, 40]);
    let up = _upsample(&delta, &vec![5, 6, 8, 14], 4);
    assert_eq!((up.rows(), up.cols()), (4, 4));
    assert_eq!(cells(&up), vec![0, 0, 0, 0, 0, 10, 20, 0, 30, 0, 0, 0, 0, 0, 40, 0]);
    assert_eq!(cells(&up).iter().sum::<i64>(), cells(&delta).iter().sum::<i64>());
}

#[test]
fn upsample_keeps_the_later_cell_where_positions_meet() {
    let delta = matrix(1, 3, vec![10, 20, 30]);
    let up = _upsample(&delta, &vec![1, 3, 1], 2);
    assert_eq!(cells(&up), vec![0, 30, 0, 20]);
}

#[test]
fn flatten_lays_the_channels_of_each_sample_in_a_row() {
    let batch = vec![
        vec![matrix(2, 2, vec![1, 2, 3, 4]), matrix(2, 2, vec![5, 6, 7, 8])],
        vec![matrix(2, 2, vec![9, 10, 11, 12]), matrix(2, 2, vec![13, 14, 15, 16])],
    ];
    let flat = _flatten_withno_channel(&batch, 8);
    assert_eq!(flat.len(), 1);
    assert_eq!((flat[0].rows(), flat[0].cols()), (2, 8));
    assert_eq!(cells(&flat[0]), (1..=16).collect::<Vec<i64>>());
}

#[test]
fn restore_cuts_a_flat_matrix_into_channels() {
    let flat = vec![matrix(1, 8, vec![1, 2, 3, 4, 5, 6, 7, 8])];
    // a 3 by 3 input under a 2 by 2 filter at stride 1 gives 2 by 2 channels
    let restored = _restore_with_channel(&flat, 2, 3, 2, 1, 0, 1);
    assert_eq!(restored.len(), 2);
    assert_eq!((restored[0].rows(), restored[0].cols()), (2, 2));
    assert_eq!(cells(&restored[0]), vec![1, 2, 3, 4]);
    assert_eq!(cells(&restored[1]), vec![5, 6, 7, 8]);
    let kept = _restore_with_channel(&flat, 2, 3, 2, 1, 0, 0);
    assert_eq!(kept.len(), 1);
    assert_eq!(cells(&kept[0]), vec![1, 2, 3, 4, 5, 6, 7, 8]);
}

#[test]
fn sum_nested_vector_goes_as_far_as_the_shorter_list() {
    let a = vec![matrix(1, 2, vec![1, 2]), matrix(1, 2, vec![3, 4])];
    let b = vec![matrix(1, 2, vec![10, 20])];
    let sum = sum_nested_vector(&a, &b);
    assert_eq!(sum.len(), 1);
    assert_eq!(cells(&sum[0]), vec![11, 22]);
    let both = sum_nested_vector(&a, &a);
    assert_eq!(cells(&both[1]), vec![6, 8]);
}

#[test]
fn slice_cells_takes_a_run_of_cells() {
    let m = matrix(2, 4, vec![1, 2, 3, 4, 5, 6, 7, 8]);
    let part = slice_cells(&m, 2, 2, 2);
    assert_eq!(cells(&part), vec![3, 4, 5, 6]);
}
