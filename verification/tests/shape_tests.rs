use convnet::shape::{_restore_max_index, cal_backward_shape, cal_shape, DATA_CHECK};

#[test]
fn shape_of_same_convolution() {
    assert!(DATA_CHECK(28, 3, 1, 1));
    assert_eq!(cal_shape(28, 3, 1, 1), 28);
}

#[test]
fn shape_of_pooling() {
    assert!(DATA_CHECK(28, 4, 0, 2));
    assert_eq!(cal_shape(28, 4, 2, 0), 13);
    assert_eq!(cal_shape(13, 3, 2, 0), 6);
}

#[test]
fn shape_rounds_down_where_the_stride_does_not_divide() {
    assert!(!DATA_CHECK(8, 3, 0, 2));
    assert_eq!(cal_shape(8, 3, 2, 0), 3);
}

#[test]
fn data_check_rejects_without_panic() {
    assert!(!DATA_CHECK(2, 5, 1, 1));
    assert!(!DATA_CHECK(5, 3, 0, 0));
    assert!(DATA_CHECK(2, 4, 1, 1));
    assert!(!DATA_CHECK(usize::MAX, 1, usize::MAX, 7));
}

#[test]
fn backward_shape_undoes_shape() {
    assert_eq!(cal_backward_shape(13, 4, 2, 0), 28);
    assert_eq!(cal_backward_shape(28, 3, 1, 1), 28);
    assert_eq!(cal_backward_shape(cal_shape(13, 3, 2, 0), 3, 2, 0), 13);
}

#[test]
fn restore_max_index_follows_the_formula() {
    // window 5 of 3 across, stride 2, in a matrix of 8 columns, position 3 of a 2 by 2 window:
    // row = 5 / 3 * 2 + 3 / 2 = 3, col = 5 % 3 * 2 + 3 % 2 = 5
    assert_eq!(_restore_max_index(3, (5, 3), 2, 8, 2), 3 * 8 + 5);
    assert_eq!(_restore_max_index(1, (0, 0), 1, 4, 4), 0);
}
