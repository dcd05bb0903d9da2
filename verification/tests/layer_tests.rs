use convnet::activation::{_relu, _softmax, normalised, relu_derivate, shifted, Activation};
use convnet::convolution::{Conv2D, Conv3D};
use convnet::error::NetError;
use convnet::full_connected::{square_width, whole_root, FullLayer};
use convnet::matrix::Matrix;
use convnet::pooling::Pool;
use convnet::scalar::{Scalar, Transcendental};

#[derive(Clone, Copy, Debug, PartialEq)]
struct Real(f64);

impl Scalar for Real {
    fn zero_spec() -> Real {
        Real(0.0)
    }

    fn one_spec() -> Real {
        Real(1.0)
    }

    fn count_spec(n: usize) -> Real {
        Real(n as f64)
    }

    fn plus_spec(self, rhs: Real) -> Real {
        Real(self.0 + rhs.0)
    }

    fn minus_spec(self, rhs: Real) -> Real {
        Real(self.0 - rhs.0)
    }

    fn times_spec(self, rhs: Real) -> Real {
        Real(self.0 * rhs.0)
    }

    fn over_spec(self, rhs: Real) -> Real {
        Real(self.0 / rhs.0)
    }

    fn exceeds_spec(self, rhs: Real) -> bool {
        self.0 > rhs.0
    }

    fn at_least_spec(self, rhs: Real) -> bool {
        self.0 >= rhs.0
    }

    fn zero() -> Real {
        Real(0.0)
    }

    fn one() -> Real {
        Real(1.0)
    }

    fn count(n: usize) -> Real {
        Real(n as f64)
    }

    fn plus(self, rhs: Real) -> Real {
        Real(self.0 + rhs.0)
    }

    fn minus(self, rhs: Real) -> Real {
        Real(self.0 - rhs.0)
    }

    fn times(self, rhs: Real) -> Real {
        Real(self.0 * rhs.0)
    }

    fn over(self, rhs: Real) -> Real {
        Real(self.0 / rhs.0)
    }

    fn exceeds(self, rhs: Real) -> bool {
        self.0 > rhs.0
    }

    fn at_least(self, rhs: Real) -> bool {
        self.0 >= rhs.0
    }

    fn lemma_exceeds_irreflexive(_a: Real) {
    }

    fn lemma_exceeds_chain(_a: Real, _b: Real, _c: Real) {
    }
}

impl Transcendental for Real {
    fn exp_gives(self, r: Real) -> bool {
        r == self.exp()
    }

    fn ln_gives(self, r: Real) -> bool {
        r == self.ln()
    }

    fn lemma_exp_gives_something(_x: Real) {
    }

    fn exp(self) -> Real {
        Real(self.0.exp())
    }

    fn ln(self) -> Real {
        Real(self.0.ln())
    }
}

fn matrix(rows: usize, cols: usize, cells: Vec<i64>) -> Matrix<i64> {
    Matrix::from_shape_vec(rows, cols, cells).unwrap()
}

fn decimal(rows: usize, cols: usize, cells: Vec<f64>) -> Matrix<Real> {
    Matrix::from_shape_vec(rows, cols, cells.into_iter().map(Real).collect()).unwrap()
}

fn cells(m: &Matrix<i64>) -> Vec<i64> {
    m.copied().into_vec()
}

fn decimals(m: &Matrix<Real>) -> Vec<f64> {
    m.copied().into_vec().into_iter().map(|x| x.0).collect()
}

fn batch_cells(batch: &Vec<Vec<Matrix<i64>>>) -> Vec<Vec<Vec<i64>>> {
    batch.iter().map(|sample| sample.iter().map(cells).collect()).collect()
}

fn filters() -> Vec<Vec<Matrix<i64>>> {
    vec![
        vec![matrix(3, 3, vec![1, 0, -1, 0, 1, 0, 2, 0, 1]), matrix(3, 3, vec![0, 1, 0, 1, -1, 1, 0, 1, 0])],
        vec![matrix(3, 3, vec![1, 1, 1, 0, 0, 0, -1, -1, -1]), matrix(3, 3, vec![2, 0, 0, 0, 2, 0, 0, 0, 2])],
    ]
}

fn inputs() -> Vec<Vec<Matrix<i64>>> {
    vec![
        vec![matrix(3, 3, vec![1, 2, 3, 4, 5, 6, 7, 8, 9]), matrix(3, 3, vec![1, 0, 1, 0, 1, 0, 1, 0, 1])],
        vec![matrix(3, 3, vec![0, 1, 0, 2, 0, 2, 0, 3, 0]), matrix(3, 3, vec![1, 1, 1, 1, 1, 1, 1, 1, 1])],
    ]
}

fn deltas() -> Vec<Vec<Matrix<i64>>> {
    vec![
        vec![matrix(3, 3, vec![1, 0, 0, 0, 1, 0, 0, 0, 1]), matrix(3, 3, vec![1, 1, 0, 0, 0, 0, 0, 0, 2])],
        vec![matrix(3, 3, vec![0, 2, 0, 0, 0, 0, 1, 0, 0]), matrix(3, 3, vec![0, 0, 0, 0, 4, 0, 0, 0, 0])],
    ]
}

#[test]
fn convolution_unit_checks_its_geometry() {
    assert!(Conv2D::new(4, 3, 0, 1, 1i64, Matrix::filled(3, 3, 1i64)).is_ok());
    // the stride does not divide the distance that the filter can travel
    assert_eq!(Conv2D::new(8, 3, 0, 2, 1i64, Matrix::filled(3, 3, 1i64)).err(), Some(NetError::ShapeMismatch));
    // the filter is larger than the padded input
    assert_eq!(Conv2D::new(2, 5, 1, 1, 1i64, Matrix::filled(5, 5, 1i64)).err(), Some(NetError::ShapeMismatch));
    // no stride
    assert_eq!(Conv2D::new(4, 3, 0, 0, 1i64, Matrix::filled(3, 3, 1i64)).err(), Some(NetError::ShapeMismatch));
    // the filter does not have the width that was given
    assert_eq!(Conv2D::new(4, 3, 0, 1, 1i64, Matrix::filled(2, 2, 1i64)).err(), Some(NetError::ShapeMismatch));
    // an empty filter
    assert_eq!(Conv2D::new(4, 0, 0, 1, 1i64, Matrix::filled(0, 0, 1i64)).err(), Some(NetError::ShapeMismatch));
}

#[test]
fn convolution_unit_output_width_follows_the_formula() {
    for (prev, width, padding, stride) in [(4usize, 3usize, 0usize, 1usize), (28, 3, 1, 1), (7, 3, 1, 2), (9, 5, 0, 4)] {
        let unit = Conv2D::new(prev, width, padding, stride, 1i64, Matrix::filled(width, width, 1i64)).unwrap();
        let out = unit.forward(&Matrix::filled(prev, prev, 1i64));
        let expected = (prev - width + 2 * padding) / stride + 1;
        assert_eq!((out.rows(), out.cols()), (expected, expected));
        assert_eq!((unit.bias().rows(), unit.bias().cols()), (expected, 1));
    }
}

#[test]
fn convolution_unit_forward_adds_the_bias_to_each_row() {
    let filter = matrix(3, 3, vec![1, 0, -1, 2, 0, -2, 1, 0, -1]);
    let unit = Conv2D::assemble(4, 3, 0, 1, 1i64, filter, matrix(2, 1, vec![100, 200])).unwrap();
    let input = matrix(4, 4, (1..=16).collect());
    assert_eq!(cells(&unit.forward(&input)), vec![92, 92, 192, 192]);
}

#[test]
fn convolution_unit_keeps_the_turned_filter() {
    let unit = Conv2D::new(3, 3, 1, 1, 1i64, matrix(3, 3, (1..=9).collect())).unwrap();
    assert_eq!(cells(unit.transposed_filter()), vec![9, 8, 7, 6, 5, 4, 3, 2, 1]);
    let delta = matrix(3, 3, vec![0, 0, 0, 0, 1, 0, 0, 0, 0]);
    // a single one in the middle picks the turned filter, turned once more by the sliding
    assert_eq!(cells(&unit.cal_delta(&delta)), vec![1, 2, 3, 4, 5, 6, 7, 8, 9]);
}

#[test]
fn convolution_unit_update_steps_filter_and_bias() {
    let mut unit = Conv2D::new(3, 3, 1, 1, 1i64, matrix(3, 3, (1..=9).collect())).unwrap();
    let bias_gradient = matrix(3, 3, vec![3, 3, 3, 6, 0, 0, 0, 0, -9]);
    let filter_gradient = matrix(3, 3, vec![1, 1, 1, 2, 2, 2, 3, 3, 3]);
    unit.update(&bias_gradient, &filter_gradient);
    assert_eq!(cells(unit.filter()), vec![0, 1, 2, 2, 3, 4, 4, 5, 6]);
    assert_eq!(cells(unit.bias()), vec![-3, -2, 3]);
    assert_eq!(cells(unit.transposed_filter()), vec![6, 5, 4, 4, 3, 2, 2, 1, 0]);
}

#[test]
fn convolution_layer_checks_its_filters() {
    assert!(Conv3D::new(2, 2, 1, 1, 3, 3, 1i64, 0, &filters()).is_ok());
    assert_eq!(Conv3D::new(3, 2, 1, 1, 3, 3, 1i64, 0, &filters()).err(), Some(NetError::ShapeMismatch));
    assert_eq!(Conv3D::new(2, 1, 1, 1, 3, 3, 1i64, 0, &filters()).err(), Some(NetError::ShapeMismatch));
    assert_eq!(Conv3D::new(2, 2, 1, 1, 3, 2, 1i64, 0, &filters()).err(), Some(NetError::ShapeMismatch));
    assert_eq!(Conv3D::new(2, 2, 2, 0, 4, 3, 1i64, 0, &filters()).err(), Some(NetError::ShapeMismatch));
}

#[test]
fn convolution_layer_sums_over_the_input_channels() {
    let layer = Conv3D::new(2, 2, 1, 1, 3, 3, 1i64, 0, &filters()).unwrap();
    assert_eq!(layer.output_width(), 3);
    let out = layer.forward(&inputs()).unwrap();
    assert_eq!(
        batch_cells(&out),
        vec![
            vec![vec![5, 19, 12, 13, 25, 27, 1, 9, 13], vec![-5, -15, -9, -12, -12, -12, 11, 15, 15]],
            vec![vec![1, 9, 1, 6, 3, 11, 1, 5, 1], vec![2, 0, 0, 2, 4, 2, 4, 8, 6]],
        ]
    );
}

#[test]
fn convolution_layer_rejects_batches_of_another_shape() {
    let layer = Conv3D::new(2, 2, 1, 1, 3, 3, 1i64, 0, &filters()).unwrap();
    let one_channel = vec![vec![matrix(3, 3, vec![0; 9])]];
    assert_eq!(layer.forward(&one_channel).err(), Some(NetError::ShapeMismatch));
    let wide = vec![vec![matrix(4, 4, vec![0; 16]), matrix(4, 4, vec![0; 16])]];
    assert_eq!(layer.forward(&wide).err(), Some(NetError::ShapeMismatch));
    assert!(layer.forward(&Vec::new()).unwrap().is_empty());
}

#[test]
fn convolution_layer_backward_steps_and_hands_back() {
    let mut layer = Conv3D::new(2, 2, 1, 1, 3, 3, 1i64, 0, &filters()).unwrap();
    let handed = layer.backward(&deltas(), &inputs()).unwrap();
    assert_eq!(cells(layer.unit(0, 0).filter()), vec![-5, -10, -4, -12, -16, -11, -9, -12, -17]);
    assert_eq!(cells(layer.unit(0, 1).filter()), vec![-2, 0, -2, -1, -7, -2, -3, -1, -4]);
    assert_eq!(cells(layer.unit(1, 0).filter()), vec![-9, -15, 1, -25, -21, -13, -5, -22, -12]);
    assert_eq!(cells(layer.unit(1, 1).filter()), vec![-4, -4, -4, -5, -5, -5, -4, -5, -3]);
    assert_eq!(cells(layer.unit(0, 0).bias()), vec![0, 0, 0]);
    assert_eq!(cells(layer.unit(1, 1).transposed_filter()), vec![-3, -5, -4, -5, -5, -5, -4, -4, -4]);
    assert_eq!(
        batch_cells(&handed),
        vec![
            vec![vec![-67, -55, -17, -51, -90, -63, -9, -74, -75], vec![-19, -12, -7, -11, -29, -13, -3, -12, -21]],
            vec![
                vec![-60, -92, -18, -128, -112, -86, -36, -99, -48],
                vec![-18, -30, -20, -26, -24, -28, -23, -22, -12],
            ],
        ]
    );
}

#[test]
fn convolution_layer_backward_rejects_and_leaves_the_layer() {
    let mut layer = Conv3D::new(2, 2, 1, 1, 3, 3, 1i64, 0, &filters()).unwrap();
    let short = vec![deltas().remove(0)];
    assert_eq!(layer.backward(&short, &inputs()).err(), Some(NetError::ShapeMismatch));
    assert_eq!(cells(layer.unit(0, 0).filter()), vec![1, 0, -1, 0, 1, 0, 2, 0, 1]);
    // a geometry that gives a smaller output cannot hand gradients back
    let mut narrow = Conv3D::new(1, 1, 1, 0, 4, 3, 1i64, 0, &vec![vec![matrix(3, 3, vec![1; 9])]]).unwrap();
    let given = vec![vec![matrix(4, 4, vec![1; 16])]];
    let out = narrow.forward(&given).unwrap();
    assert_eq!(narrow.backward(&out, &given).err(), Some(NetError::ShapeMismatch));
}

#[test]
fn convolution_layer_restores_flat_gradients_at_the_boundary() {
    let mut flat_layer = Conv3D::new(2, 2, 1, 1, 3, 3, 1i64, 1, &filters()).unwrap();
    let mut layer = Conv3D::new(2, 2, 1, 1, 3, 3, 1i64, 0, &filters()).unwrap();
    let flat: Vec<Vec<Matrix<i64>>> = deltas()
        .iter()
        .map(|sample| {
            let mut all = cells(&sample[0]);
            all.extend(cells(&sample[1]));
            vec![matrix(1, 18, all)]
        })
        .collect();
    let from_flat = flat_layer.backward(&flat, &inputs()).unwrap();
    let from_channels = layer.backward(&deltas(), &inputs()).unwrap();
    assert_eq!(batch_cells(&from_flat), batch_cells(&from_channels));
    assert_eq!(cells(flat_layer.unit(1, 0).filter()), cells(layer.unit(1, 0).filter()));
}

#[test]
fn pooling_layer_checks_its_geometry() {
    assert!(Pool::new(4, 2, 0, 3, 28, 0).is_ok());
    assert!(Pool::new(3, 2, 0, 10, 13, 1).is_ok());
    assert_eq!(Pool::new(3, 2, 0, 3, 28, 0).err(), Some(NetError::ShapeMismatch));
    assert_eq!(Pool::new(0, 2, 0, 3, 28, 0).err(), Some(NetError::ShapeMismatch));
    assert_eq!(Pool::new(2, 0, 0, 3, 28, 0).err(), Some(NetError::ShapeMismatch));
    assert_eq!(Pool::new(30, 1, 0, 3, 28, 0).err(), Some(NetError::ShapeMismatch));
    let layer = Pool::new(4, 2, 0, 3, 28, 1).unwrap();
    assert_eq!(
        (layer.width(), layer.stride(), layer.padding(), layer.out_channel(), layer.input_width(), layer.boundary()),
        (4, 2, 0, 3, 28, 1)
    );
}

#[test]
fn pooling_layer_forward_and_backward() {
    let layer = Pool::new(2, 2, 0, 1, 4, 0).unwrap();
    let input = vec![vec![matrix(4, 4, vec![1, 3, 2, 4, 5, 6, 8, 7, 9, 9, 1, 0, 2, 9, 3, 3])]];
    let out = layer.forward(&input).unwrap();
    assert_eq!(batch_cells(&out), vec![vec![vec![6, 8, 9, 3]]]);
    let (pooled, positions) = layer.single_max_pool(&input[0]);
    assert_eq!(cells(&pooled[0]), vec![6, 8, 9, 3]);
    assert_eq!(positions, vec![vec![5, 6, 8, 14]]);
    let delta = vec![vec![matrix(2, 2, vec![10, 20, 30, 40])]];
    let back = layer.backward(&input, &delta).unwrap();
    assert_eq!(batch_cells(&back), vec![vec![vec![0, 0, 0, 0, 0, 10, 20, 0, 30, 0, 0, 0, 0, 0, 40, 0]]]);
    let sum: i64 = batch_cells(&back)[0][0].iter().sum();
    assert_eq!(sum, 100);
}

#[test]
fn pooling_layer_with_padding_cuts_the_border_off_again() {
    let layer = Pool::new(2, 2, 1, 1, 2, 0).unwrap();
    let input = vec![vec![matrix(2, 2, vec![1, 2, 3, 4])]];
    let out = layer.forward(&input).unwrap();
    assert_eq!(batch_cells(&out), vec![vec![vec![1, 2, 3, 4]]]);
    let delta = vec![vec![matrix(2, 2, vec![10, 20, 30, 40])]];
    let back = layer.backward(&input, &delta).unwrap();
    assert_eq!(batch_cells(&back), vec![vec![vec![10, 20, 30, 40]]]);
}

#[test]
fn pooling_layer_rejects_other_shapes() {
    let layer = Pool::new(2, 2, 0, 1, 4, 0).unwrap();
    let small = vec![vec![matrix(2, 2, vec![1, 2, 3, 4])]];
    assert_eq!(layer.forward(&small).err(), Some(NetError::ShapeMismatch));
    let input = vec![vec![matrix(4, 4, vec![0; 16])]];
    let wrong_delta = vec![vec![matrix(4, 4, vec![0; 16])]];
    assert_eq!(layer.backward(&input, &wrong_delta).err(), Some(NetError::ShapeMismatch));
    let no_delta: Vec<Vec<Matrix<i64>>> = Vec::new();
    assert_eq!(layer.backward(&input, &no_delta).err(), Some(NetError::ShapeMismatch));
}

#[test]
fn whole_roots_and_square_widths() {
    assert_eq!(whole_root(0), 0);
    assert_eq!(whole_root(1), 1);
    assert_eq!(whole_root(35), 5);
    assert_eq!(whole_root(36), 6);
    assert_eq!(whole_root(usize::MAX), 4294967295);
    assert_eq!(square_width(216, 6), Some(6));
    assert_eq!(square_width(100, 0), Some(0));
    assert_eq!(square_width(217, 6), None);
    assert_eq!(square_width(30, 6), None);
}

#[test]
fn dense_layer_checks_its_weights() {
    assert!(FullLayer::new(2, 3, 1i64, 0, Matrix::filled(2, 3, 0i64)).is_ok());
    assert_eq!(FullLayer::new(2, 3, 1i64, 0, Matrix::filled(3, 2, 0i64)).err(), Some(NetError::ShapeMismatch));
    assert!(FullLayer::new(2, 8, 1i64, 2, Matrix::filled(2, 8, 0i64)).is_ok());
    assert_eq!(FullLayer::new(2, 6, 1i64, 2, Matrix::filled(2, 6, 0i64)).err(), Some(NetError::ShapeMismatch));
}

fn two_samples() -> Vec<Vec<Matrix<i64>>> {
    vec![vec![matrix(1, 3, vec![1, 0, 2])], vec![matrix(1, 3, vec![3, 1, 0])]]
}

#[test]
fn dense_layer_forward_is_affine() {
    let layer = FullLayer::new(2, 3, 2i64, 0, matrix(2, 3, vec![1, 2, 3, 0, -1, 1])).unwrap();
    let out = layer.forward(&two_samples()).unwrap();
    assert_eq!(out.len(), 1);
    assert_eq!(out[0].len(), 1);
    // a row for each neuron, a column for each sample
    assert_eq!((out[0][0].rows(), out[0][0].cols()), (2, 2));
    assert_eq!(cells(&out[0][0]), vec![7, 5, 2, -1]);
    let with_bias =
        FullLayer::assemble(2, 3, 2i64, 0, matrix(2, 3, vec![1, 2, 3, 0, -1, 1]), matrix(2, 1, vec![10, 20])).unwrap();
    assert_eq!(cells(&with_bias.forward(&two_samples()).unwrap()[0][0]), vec![17, 15, 22, 19]);
    let three = FullLayer::new(3, 2, 1i64, 0, matrix(3, 2, vec![1, 0, 0, 1, 1, 1])).unwrap();
    let one = three.forward(&vec![vec![matrix(1, 2, vec![5, 7])]]).unwrap();
    assert_eq!((one[0][0].rows(), one[0][0].cols()), (3, 1));
    assert_eq!(cells(&one[0][0]), vec![5, 7, 12]);
}

#[test]
fn dense_layer_backward_steps_and_hands_back() {
    let mut layer = FullLayer::new(2, 3, 2i64, 0, matrix(2, 3, vec![1, 2, 3, 0, -1, 1])).unwrap();
    let delta = vec![vec![matrix(2, 2, vec![1, -1, 2, 4])]];
    let handed = layer.backward(&two_samples(), &delta).unwrap();
    assert_eq!(batch_cells(&handed), vec![vec![vec![1, 3, 2]], vec![vec![2, 0, 10]]]);
    assert_eq!((handed[0][0].rows(), handed[0][0].cols()), (1, 3));
    assert_eq!(cells(layer.weights()), vec![-6, 0, 1, -11, -5, 3]);
    assert_eq!(cells(layer.bias()), vec![-3, -3]);
}

#[test]
fn dense_layers_chain_for_a_single_sample() {
    let first = FullLayer::new(3, 2, 1i64, 0, matrix(3, 2, vec![1, 0, 0, 1, 1, 1])).unwrap();
    let mut second = FullLayer::new(2, 3, 1i64, 0, matrix(2, 3, vec![1, 1, 1, 0, 2, 0])).unwrap();
    let input = vec![vec![matrix(1, 2, vec![5, 7])]];
    let hidden = first.forward(&input).unwrap();
    assert_eq!((hidden[0][0].rows(), hidden[0][0].cols()), (3, 1));
    let out = second.forward(&hidden).unwrap();
    assert_eq!((out[0][0].rows(), out[0][0].cols()), (2, 1));
    assert_eq!(cells(&out[0][0]), vec![24, 14]);
    // the gradient of a single sample may come as a row or as a column
    let mut same = FullLayer::new(2, 3, 1i64, 0, matrix(2, 3, vec![1, 1, 1, 0, 2, 0])).unwrap();
    let as_row = second.backward(&hidden, &vec![vec![matrix(1, 2, vec![1, 2])]]).unwrap();
    let as_column = same.backward(&hidden, &vec![vec![matrix(2, 1, vec![1, 2])]]).unwrap();
    assert_eq!(batch_cells(&as_row), vec![vec![vec![1, 5, 1]]]);
    assert_eq!(batch_cells(&as_column), batch_cells(&as_row));
    // the gradient goes back in the shape of what the layer was given
    assert_eq!((as_row[0][0].rows(), as_row[0][0].cols()), (3, 1));
    assert_eq!(cells(second.weights()), cells(same.weights()));
    // what a dense layer gives for two samples is no batch for another dense layer
    let two = first.forward(&vec![vec![matrix(1, 2, vec![5, 7])], vec![matrix(1, 2, vec![1, 1])]]).unwrap();
    assert_eq!((two[0][0].rows(), two[0][0].cols()), (3, 2));
    assert_eq!(second.forward(&two).err(), Some(NetError::ShapeMismatch));
}

#[test]
fn dense_layer_at_the_boundary_flattens_and_restores() {
    let mut layer = FullLayer::new(1, 8, 1i64, 2, matrix(1, 8, vec![1, 2, 3, 4, 5, 6, 7, 8])).unwrap();
    let input = vec![
        vec![matrix(2, 2, vec![1, 0, 0, 0]), matrix(2, 2, vec![0, 0, 0, 1])],
        vec![matrix(2, 2, vec![0, 1, 0, 0]), matrix(2, 2, vec![1, 0, 0, 0])],
    ];
    let out = layer.forward(&input).unwrap();
    assert_eq!((out[0][0].rows(), out[0][0].cols()), (1, 2));
    assert_eq!(cells(&out[0][0]), vec![9, 7]);
    let delta = vec![vec![matrix(2, 1, vec![1, 2])]];
    let handed = layer.backward(&input, &delta).unwrap();
    assert_eq!(
        batch_cells(&handed),
        vec![vec![vec![1, 2, 3, 4], vec![5, 6, 7, 8]], vec![vec![2, 4, 6, 8], vec![10, 12, 14, 16]]]
    );
    // the gradient of the weights is [1, 2, 0, 0, 2, 0, 0, 1]
    assert_eq!(cells(layer.weights()), vec![0, 0, 3, 4, 3, 6, 7, 7]);
}

#[test]
fn dense_layer_rejects_other_shapes() {
    let mut layer = FullLayer::new(2, 3, 2i64, 0, matrix(2, 3, vec![1, 2, 3, 0, -1, 1])).unwrap();
    let narrow = vec![vec![matrix(1, 2, vec![1, 0])]];
    assert_eq!(layer.forward(&narrow).err(), Some(NetError::ShapeMismatch));
    let stacked = vec![vec![matrix(2, 3, vec![1, 0, 2, 3, 1, 0])]];
    assert_eq!(layer.forward(&stacked).err(), Some(NetError::ShapeMismatch));
    let two_matrices = vec![vec![matrix(1, 2, vec![1, 0]), matrix(1, 1, vec![2])]];
    assert_eq!(layer.forward(&two_matrices).err(), Some(NetError::ShapeMismatch));
    let none: Vec<Vec<Matrix<i64>>> = Vec::new();
    let empty = layer.forward(&none).unwrap();
    assert_eq!((empty[0][0].rows(), empty[0][0].cols()), (2, 0));
    let delta = vec![vec![matrix(1, 2, vec![1, -1])]];
    assert_eq!(layer.backward(&two_samples(), &delta).err(), Some(NetError::ShapeMismatch));
    let turned = vec![vec![matrix(4, 1, vec![1, -1, 2, 4])]];
    assert_eq!(layer.backward(&two_samples(), &turned).err(), Some(NetError::ShapeMismatch));
    assert_eq!(cells(layer.weights()), vec![1, 2, 3, 0, -1, 1]);
}

#[test]
fn rectifier_and_its_slope() {
    let m = matrix(2, 2, vec![-3, 0, 5, -1]);
    assert_eq!(cells(&_relu(&m)), vec![0, 0, 5, 0]);
    assert_eq!(cells(&relu_derivate(&m)), vec![0, 1, 1, 0]);
    let layer = Activation::new(0);
    let input = vec![vec![decimal(1, 3, vec![-1.0, 0.0, 2.0])]];
    let out = layer.forward(&input).unwrap();
    assert_eq!(decimals(&out[0][0]), vec![0.0, 0.0, 2.0]);
    let delta = vec![vec![decimal(1, 3, vec![7.0, 8.0, 9.0])]];
    let back = layer.backward(&input, &delta).unwrap();
    assert_eq!(decimals(&back[0][0]), vec![0.0, 8.0, 9.0]);
    let wrong = vec![vec![decimal(3, 1, vec![7.0, 8.0, 9.0])]];
    assert_eq!(layer.backward(&input, &wrong).err(), Some(NetError::ShapeMismatch));
}

#[test]
fn normalised_divides_each_cell_by_the_sum_of_its_row() {
    let m = matrix(2, 2, vec![6, 2, 10, 10]);
    assert_eq!(cells(&normalised(&m)), vec![0, 0, 0, 0]);
    let r = decimal(2, 2, vec![1.0, 3.0, 2.0, 2.0]);
    assert_eq!(decimals(&normalised(&r)), vec![0.25, 0.75, 0.5, 0.5]);
}

#[test]
fn softmax_rows_sum_to_one() {
    let layer = Activation::new(1);
    // four classes in the rows, three samples in the columns
    let input = vec![
        vec![decimal(4, 3, vec![0.1, 10.0, -50.0, -2.0, 10.0, 20.0, 3.5, 10.0, 0.3, 0.0, 10.0, 1.0])],
        vec![decimal(3, 2, vec![700.0, 100.0, -700.0, -100.0, 100.0, 100.0])],
    ];
    let out = layer.forward(&input).unwrap();
    assert_eq!(out.len(), 2);
    assert_eq!((out[0][0].rows(), out[0][0].cols()), (3, 4));
    assert_eq!((out[1][0].rows(), out[1][0].cols()), (2, 3));
    for sample in &out {
        assert_eq!(sample.len(), 1);
        let m = &sample[0];
        for r in 0..m.rows() {
            let mut sum = 0.0;
            for c in 0..m.cols() {
                assert!(m.get(r, c).0.is_finite());
                assert!(m.get(r, c).0 >= 0.0 && m.get(r, c).0 <= 1.0);
                sum += m.get(r, c).0;
            }
            assert!((sum - 1.0).abs() < 1e-9);
        }
    }
    assert_eq!(decimals(&out[0][0])[4..8], [0.25, 0.25, 0.25, 0.25]);
    let first = decimals(&out[0][0]);
    let total = (0.1f64 - 3.5).exp() + (-2.0f64 - 3.5).exp() + 1.0 + (0.0f64 - 3.5).exp();
    assert!((first[2] - 1.0 / total).abs() < 1e-12);
    // the exponential of 700 is too large for a float; the largest cell is taken off first
    assert!((decimals(&out[1][0])[0] - 1.0).abs() < 1e-12);
    assert!((decimals(&out[1][0])[3] - 0.5).abs() < 1e-12);
}

#[test]
fn softmax_of_two_zeros_for_one_sample() {
    let given = _softmax(&decimal(2, 1, vec![0.0, 0.0]));
    assert_eq!(given.len(), 1);
    assert_eq!((given[0].rows(), given[0].cols()), (1, 2));
    assert_eq!(decimals(&given[0]), vec![0.5, 0.5]);
    // the cell in row r and column k of the result belongs to the cell in row k and column r
    let turned = _softmax(&decimal(2, 3, vec![0.0, 1.0, 2.0, 0.0, 1.0, 5.0]));
    assert_eq!((turned[0].rows(), turned[0].cols()), (3, 2));
    let cells = decimals(&turned[0]);
    assert_eq!(cells[0..4], [0.5, 0.5, 0.5, 0.5]);
    assert!((cells[4] - (-3.0f64).exp() / ((-3.0f64).exp() + 1.0)).abs() < 1e-12);
    assert!((cells[5] - 1.0 / ((-3.0f64).exp() + 1.0)).abs() < 1e-12);
}

#[test]
fn shifted_takes_the_largest_cell_of_the_row_from_the_row() {
    let m = matrix(2, 3, vec![1, 5, 3, -4, -2, -9]);
    assert_eq!(cells(&shifted(&m)), vec![-4, 0, -2, -2, 0, -7]);
}

#[test]
fn softmax_needs_a_matrix_and_hands_gradients_back_unchanged() {
    let layer = Activation::new(1);
    let empty: Vec<Vec<Matrix<Real>>> = vec![Vec::new()];
    assert_eq!(layer.forward(&empty).err(), Some(NetError::ShapeMismatch));
    let delta = vec![vec![decimal(1, 2, vec![0.25, -0.25])]];
    let back = layer.backward(&empty, &delta).unwrap();
    assert_eq!(decimals(&back[0][0]), vec![0.25, -0.25]);
}
