use convnet::activation::Activation;
use convnet::error::NetError;
use convnet::full_connected::FullLayer;
use convnet::loss::{compute_loss, evaluate, loss_from_logs, row_argmax};
use convnet::matrix::Matrix;
use convnet::network::{
    backward, epoch_one_by_one, forward, nn, parse_config, predict, train, train_one_by_one, train_step, wanted,
    wanted_by, LayerConfig,
};
use convnet::pooling::Pool;
use convnet::propagation::Propagation;
use convnet::scalar::{Scalar, Transcendental};

#[derive(Clone, Copy, Debug, PartialEq)]
struct Single(f32);

impl Scalar for Single {
    fn zero_spec() -> Single {
        Single(0.0)
    }

    fn one_spec() -> Single {
        Single(1.0)
    }

    fn count_spec(n: usize) -> Single {
        Single(n as f32)
    }

    fn plus_spec(self, rhs: Single) -> Single {
        Single(self.0 + rhs.0)
    }

    fn minus_spec(self, rhs: Single) -> Single {
        Single(self.0 - rhs.0)
    }

    fn times_spec(self, rhs: Single) -> Single {
        Single(self.0 * rhs.0)
    }

    fn over_spec(self, rhs: Single) -> Single {
        Single(self.0 / rhs.0)
    }

    fn exceeds_spec(self, rhs: Single) -> bool {
        self.0 > rhs.0
    }

    fn at_least_spec(self, rhs: Single) -> bool {
        self.0 >= rhs.0
    }

    fn zero() -> Single {
        Single(0.0)
    }

    fn one() -> Single {
        Single(1.0)
    }

    fn count(n: usize) -> Single {
        Single(n as f32)
    }

    fn plus(self, rhs: Single) -> Single {
        Single(self.0 + rhs.0)
    }

    fn minus(self, rhs: Single) -> Single {
        Single(self.0 - rhs.0)
    }

    fn times(self, rhs: Single) -> Single {
        Single(self.0 * rhs.0)
    }

    fn over(self, rhs: Single) -> Single {
        Single(self.0 / rhs.0)
    }

    fn exceeds(self, rhs: Single) -> bool {
        self.0 > rhs.0
    }

    fn at_least(self, rhs: Single) -> bool {
        self.0 >= rhs.0
    }

    fn lemma_exceeds_irreflexive(_a: Single) {
    }

    fn lemma_exceeds_chain(_a: Single, _b: Single, _c: Single) {
    }
}

impl Transcendental for Single {
    fn exp_gives(self, r: Single) -> bool {
        r == self.exp()
    }

    fn ln_gives(self, r: Single) -> bool {
        r == self.ln()
    }

    fn lemma_exp_gives_something(_x: Single) {
    }

    fn exp(self) -> Single {
        Single(self.0.exp())
    }

    fn ln(self) -> Single {
        Single(self.0.ln())
    }
}

fn single(rows: usize, cols: usize, cells: Vec<f32>) -> Matrix<Single> {
    Matrix::from_shape_vec(rows, cols, cells.into_iter().map(Single).collect()).unwrap()
}

fn singles(m: &Matrix<Single>) -> Vec<f32> {
    m.copied().into_vec().into_iter().map(|x| x.0).collect()
}

fn samples() -> Vec<Vec<Matrix<Single>>> {
    vec![
        vec![single(1, 2, vec![1.0, 2.0])],
        vec![single(1, 2, vec![2.0, 1.0])],
        vec![single(1, 2, vec![-1.0, -2.0])],
        vec![single(1, 2, vec![-2.0, -1.0])],
    ]
}

fn targets() -> Matrix<Single> {
    single(4, 2, vec![1.0, 0.0, 1.0, 0.0, 0.0, 1.0, 0.0, 1.0])
}

fn first_weights() -> Vec<f32> {
    vec![0.05, -0.02, 0.01, 0.03]
}

fn dense_and_softmax(alpha: f32) -> Vec<nn<Single>> {
    vec![
        nn::Full(FullLayer::new(2, 2, Single(alpha), 0, single(2, 2, first_weights())).unwrap()),
        nn::Activation(Activation::new(1)),
    ]
}

fn two_dense_layers(alpha: f32) -> Vec<nn<Single>> {
    let first = single(3, 2, vec![0.05, -0.02, 0.01, 0.03, -0.04, 0.02]);
    let second = single(2, 3, vec![0.02, -0.03, 0.01, -0.01, 0.04, 0.05]);
    vec![
        nn::Full(FullLayer::new(3, 2, Single(alpha), 0, first).unwrap()),
        nn::Activation(Activation::new(0)),
        nn::Full(FullLayer::new(2, 3, Single(alpha), 0, second).unwrap()),
        nn::Activation(Activation::new(1)),
    ]
}

#[test]
fn forward_keeps_every_intermediate_batch() {
    let network = dense_and_softmax(0.5);
    let history = forward(&network, &samples()).unwrap();
    assert_eq!(history.len(), 3);
    assert_eq!(singles(&history[0][2][0]), vec![-1.0, -2.0]);
    // the dense layer gives a column for each sample
    assert_eq!((history[1][0][0].rows(), history[1][0][0].cols()), (2, 4));
    // 0.05 * 1 - 0.02 * 2 = 0.01
    assert!((history[1][0][0].get(0, 0).0 - 0.01).abs() < 1e-6);
    // the normalised exponential gives a row for each sample
    assert_eq!((history[2][0][0].rows(), history[2][0][0].cols()), (4, 2));
    for r in 0..4 {
        let row = history[2][0][0].get(r, 0).0 + history[2][0][0].get(r, 1).0;
        assert!((row - 1.0).abs() < 1e-6);
    }
    let one = forward(&two_dense_layers(0.5), &vec![vec![single(1, 2, vec![1.0, 2.0])]]).unwrap();
    assert_eq!(one.len(), 5);
    assert_eq!((one[1][0][0].rows(), one[1][0][0].cols()), (3, 1));
    assert!(singles(&one[2][0][0]).iter().all(|x| *x >= 0.0));
    assert_eq!((one[4][0][0].rows(), one[4][0][0].cols()), (1, 2));
}

#[test]
fn forward_stops_at_the_layer_that_does_not_fit() {
    let network = dense_and_softmax(0.5);
    let wide = vec![vec![single(1, 3, vec![0.0; 3])]];
    assert_eq!(forward(&network, &wide).err(), Some(NetError::ShapeMismatch));
    // two dense layers take one sample at a time only
    assert_eq!(forward(&two_dense_layers(0.5), &samples()).err(), Some(NetError::ShapeMismatch));
    let empty: Vec<nn<Single>> = Vec::new();
    let history = forward(&empty, &samples()).unwrap();
    assert_eq!(history.len(), 1);
}

#[test]
fn backward_needs_a_batch_for_each_layer() {
    let mut network = dense_and_softmax(0.5);
    let mut history = forward(&network, &samples()).unwrap();
    let delta = vec![vec![single(4, 2, vec![0.0; 8])]];
    assert_eq!(backward(&mut network, &history, &delta).err(), Some(NetError::ShapeMismatch));
    history.pop();
    assert_eq!(backward(&mut network, &history, &delta), Ok(()));
    let wrong = vec![vec![single(2, 4, vec![0.0; 8])]];
    assert_eq!(backward(&mut network, &history, &wrong).err(), Some(NetError::ShapeMismatch));
}

#[test]
fn backward_with_no_gradient_changes_nothing() {
    let mut network = dense_and_softmax(0.5);
    let mut history = forward(&network, &samples()).unwrap();
    history.pop();
    let delta = vec![vec![single(4, 2, vec![0.0; 8])]];
    backward(&mut network, &history, &delta).unwrap();
    match &network[0] {
        nn::Full(layer) => assert_eq!(singles(layer.weights()), first_weights()),
        _ => panic!("the first layer is dense"),
    }
}

#[test]
fn training_two_dense_layers_on_four_separable_samples() {
    let mut network = two_dense_layers(0.5);
    let metrics = train_one_by_one(&mut network, 40, &samples(), &targets()).unwrap();
    assert_eq!(metrics.len(), 40);
    assert!((metrics[0].0 .0 - 3.1736).abs() < 1e-3);
    for epoch in 1..39 {
        assert!(metrics[epoch + 1].0 .0 < metrics[epoch].0 .0);
    }
    assert_eq!(metrics[39].1, 4);
    assert!(metrics[39].0 .0 < 0.05);
    assert!((metrics[39].0 .0 - 0.0070).abs() < 1e-3);
    for (sample, row) in samples().into_iter().zip([[1.0, 0.0], [1.0, 0.0], [0.0, 1.0], [0.0, 1.0]]) {
        let accuracy = predict(&network, &vec![sample], &single(1, 2, row.to_vec())).unwrap();
        assert_eq!(accuracy, Single(1.0));
    }
}

#[test]
fn training_one_dense_layer_reaches_every_sample() {
    let mut network = dense_and_softmax(0.1);
    let metrics = train(&mut network, 30, &samples(), &samples(), &targets(), &targets()).unwrap();
    assert!((metrics[0].0 .0 - 0.7009).abs() < 1e-3);
    assert_eq!(metrics[0].1, 2);
    assert!((metrics[1].0 .0 - 0.3437).abs() < 1e-3);
    for epoch in 0..29 {
        assert!(metrics[epoch + 1].0 .0 < metrics[epoch].0 .0);
    }
    assert_eq!(metrics[29].1, 4);
    assert!(metrics[29].0 .0 < 0.02);
    assert_eq!(predict(&network, &samples(), &targets()).unwrap(), Single(1.0));
}

#[test]
fn one_training_step_is_forward_loss_and_backward() {
    let mut stepped = dense_and_softmax(0.5);
    let (loss, correct) = train_step(&mut stepped, &samples(), &targets()).unwrap();
    let mut by_hand = dense_and_softmax(0.5);
    let mut history = forward(&by_hand, &samples()).unwrap();
    let last = history.pop().unwrap();
    assert_eq!(loss, compute_loss(&last[0][0], &targets()));
    assert_eq!(correct, evaluate(&last[0][0], &targets()));
    let delta = vec![vec![convnet::algebra::combine(convnet::algebra::Binary::Minus, &last[0][0], &targets())]];
    backward(&mut by_hand, &history, &delta).unwrap();
    for (a, b) in stepped.iter().zip(by_hand.iter()) {
        if let (nn::Full(a), nn::Full(b)) = (a, b) {
            assert_eq!(singles(a.weights()), singles(b.weights()));
            assert_eq!(singles(a.bias()), singles(b.bias()));
            assert!(singles(a.weights()) != first_weights());
        }
    }
}

#[test]
fn training_step_rejects_a_target_of_another_shape() {
    let mut network = dense_and_softmax(0.5);
    let wrong = single(4, 3, vec![0.0; 12]);
    assert_eq!(train_step(&mut network, &samples(), &wrong).err(), Some(NetError::ShapeMismatch));
    assert_eq!(train(&mut network, 2, &samples(), &samples(), &wrong, &wrong).err(), Some(NetError::ShapeMismatch));
    assert_eq!(predict(&network, &samples(), &wrong).err(), Some(NetError::ShapeMismatch));
    let mut empty: Vec<nn<Single>> = Vec::new();
    assert_eq!(train_step(&mut empty, &Vec::new(), &targets()).err(), Some(NetError::ShapeMismatch));
}

#[test]
fn training_sample_by_sample() {
    let weights = single(2, 2, vec![0.05, -0.02, 0.01, 0.03]);
    let mut network =
        vec![nn::Full(FullLayer::new(2, 2, Single(0.1), 0, weights).unwrap()), nn::Activation(Activation::new(1))];
    let inputs = vec![
        vec![single(1, 2, vec![1.0, 2.0])],
        vec![single(1, 2, vec![2.0, 1.0])],
        vec![single(1, 2, vec![-1.0, -2.0])],
        vec![single(1, 2, vec![-2.0, -1.0])],
    ];
    let metrics = train_one_by_one(&mut network, 20, &inputs, &targets()).unwrap();
    assert_eq!(metrics.len(), 20);
    assert_eq!(metrics[19].1, 4);
    assert!(metrics[19].0 .0 < metrics[0].0 .0);
    assert!(metrics[19].0 .0 < 0.2);
    let few_rows = single(2, 2, vec![1.0, 0.0, 1.0, 0.0]);
    assert_eq!(train_one_by_one(&mut network, 1, &inputs, &few_rows).err(), Some(NetError::ShapeMismatch));
}

#[test]
fn loss_is_the_mean_of_the_negative_logarithms_of_the_right_classes() {
    let output = single(2, 2, vec![0.5, 0.5, 0.25, 0.75]);
    let labels = single(2, 2, vec![1.0, 0.0, 0.0, 1.0]);
    let loss = compute_loss(&output, &labels);
    let expected = -((0.5f32).ln() + (0.75f32).ln()) / 2.0;
    assert!((loss.0 - expected).abs() < 1e-6);
    let logs = single(2, 2, vec![-1.0, -2.0, -3.0, -4.0]);
    assert_eq!(loss_from_logs(&logs, &labels), Single(2.5));
    let integer_logs = Matrix::from_shape_vec(1, 3, vec![2i64, 3, 4]).unwrap();
    let integer_labels = Matrix::from_shape_vec(1, 3, vec![1i64, 0, 5]).unwrap();
    assert_eq!(loss_from_logs(&integer_logs, &integer_labels), -22);
}

#[test]
fn evaluate_counts_the_rows_with_the_largest_cell_in_the_right_column() {
    let output = single(3, 3, vec![0.1, 0.7, 0.2, 0.5, 0.4, 0.1, 0.3, 0.3, 0.4]);
    let target = single(3, 3, vec![0.0, 1.0, 0.0, 0.0, 0.0, 1.0, 0.0, 0.0, 1.0]);
    assert_eq!(evaluate(&output, &target), 2);
    assert_eq!(row_argmax(&output, 0), 1);
    assert_eq!(row_argmax(&output, 1), 0);
    // of two largest cells the first one counts
    assert_eq!(row_argmax(&single(1, 3, vec![0.4, 0.4, 0.2]), 0), 0);
}

#[test]
fn layers_by_name() {
    let filters = vec![vec![single(3, 3, vec![0.0; 9])]];
    let conv = nn::new("Conv".to_string(), vec![1, 1, 1, 1, 4, 3, 0], Single(0.1), &filters);
    assert!(matches!(conv, Ok(nn::Conv(_))));
    let pool: Result<nn<Single>, NetError> = nn::new("Pool".to_string(), vec![4, 2, 0, 3, 28, 0], Single(0.1), &Vec::new());
    match pool {
        Ok(nn::Pool(layer)) => assert_eq!((layer.width(), layer.stride(), layer.input_width()), (4, 2, 28)),
        _ => panic!("a pooling layer was asked for"),
    }
    let weights = vec![vec![single(2, 4, vec![0.0; 8])]];
    let full = nn::new("Full".to_string(), vec![2, 4, 1], Single(0.1), &weights);
    match full {
        Ok(nn::Full(layer)) => assert_eq!((layer.neurons(), layer.prev_neurons(), layer.boundary()), (2, 4, 1)),
        _ => panic!("a dense layer was asked for"),
    }
    let softmax: Result<nn<Single>, NetError> = nn::new("Softmax".to_string(), vec![1], Single(0.1), &Vec::new());
    match softmax {
        Ok(nn::Activation(layer)) => assert_eq!(layer.end, 1),
        _ => panic!("an activation layer was asked for"),
    }
    let relu: Result<nn<Single>, NetError> = nn::new("Relu".to_string(), vec![0], Single(0.1), &Vec::new());
    assert!(matches!(relu, Ok(nn::Activation(_))));
}

#[test]
fn layers_by_name_reject_what_does_not_describe_a_layer() {
    let none: Vec<Vec<Matrix<Single>>> = Vec::new();
    assert_eq!(nn::new("Conv".to_string(), vec![1, 1, 1, 1, 4, 3], Single(0.1), &none).err(), Some(NetError::ShapeMismatch));
    assert_eq!(nn::new("Conv".to_string(), vec![1, 1, 1, 1, 4, 3, 0], Single(0.1), &none).err(), Some(NetError::ShapeMismatch));
    assert_eq!(nn::new("Pool".to_string(), vec![3, 2, 0, 3, 28, 0], Single(0.1), &none).err(), Some(NetError::ShapeMismatch));
    assert_eq!(nn::new("Pool".to_string(), vec![4, 2, 0], Single(0.1), &none).err(), Some(NetError::ShapeMismatch));
    assert_eq!(nn::new("Full".to_string(), vec![2, 4, 0], Single(0.1), &none).err(), Some(NetError::ShapeMismatch));
    assert_eq!(nn::new("Relu".to_string(), Vec::new(), Single(0.1), &none).err(), Some(NetError::ShapeMismatch));
}

#[test]
fn wanted_parameters() {
    assert_eq!(wanted(&"Conv".to_string(), &vec![1, 3, 1, 1, 28, 3, 0]), (3, 1, 3, 3));
    assert_eq!(wanted(&"Full".to_string(), &vec![100, 216, 6]), (1, 1, 100, 216));
    assert_eq!(wanted(&"Pool".to_string(), &vec![4, 2, 0, 3, 28, 0]), (0, 0, 0, 0));
    assert_eq!(wanted(&"Conv".to_string(), &vec![1, 3]), (0, 0, 0, 0));
}

#[test]
fn a_small_convolutional_network_trains() {
    let filters = vec![vec![single(3, 3, vec![0.1, -0.2, 0.05, 0.0, 0.3, -0.1, 0.2, 0.1, -0.05])]];
    let weights = vec![vec![single(2, 4, vec![0.1, -0.1, 0.2, 0.05, -0.2, 0.1, 0.0, 0.1])]];
    let mut network = vec![
        nn::new("Conv".to_string(), vec![1, 1, 1, 1, 4, 3, 0], Single(0.01), &filters).unwrap(),
        nn::new("Relu".to_string(), vec![0], Single(0.01), &Vec::new()).unwrap(),
        nn::Pool(Pool::new(2, 2, 0, 1, 4, 1).unwrap()),
        nn::new("Full".to_string(), vec![2, 4, 1], Single(0.5), &weights).unwrap(),
        nn::new("Softmax".to_string(), vec![1], Single(0.5), &Vec::new()).unwrap(),
    ];
    let bright = single(4, 4, vec![1.0, 1.0, 0.0, 0.0, 1.0, 1.0, 0.0, 0.0, 0.0, 0.0, 0.0, 0.0, 0.0, 0.0, 0.0, 0.0]);
    let dark = single(4, 4, vec![0.0, 0.0, 0.0, 0.0, 0.0, 0.0, 0.0, 0.0, 0.0, 0.0, 1.0, 1.0, 0.0, 0.0, 1.0, 1.0]);
    let inputs = vec![vec![bright], vec![dark]];
    let target = single(2, 2, vec![1.0, 0.0, 0.0, 1.0]);
    let history = forward(&network, &inputs).unwrap();
    assert_eq!(history.len(), 6);
    assert_eq!((history[1][0][0].rows(), history[1][0][0].cols()), (4, 4));
    assert_eq!((history[3][0][0].rows(), history[3][0][0].cols()), (2, 2));
    assert_eq!((history[4][0][0].rows(), history[4][0][0].cols()), (2, 2));
    let metrics = train(&mut network, 60, &inputs, &inputs, &target, &target).unwrap();
    assert!(metrics[59].0 .0 < metrics[0].0 .0);
    assert_eq!(metrics[59].1, 2);
    assert_eq!(predict(&network, &inputs, &target).unwrap(), Single(1.0));
}

#[test]
fn one_pass_sample_by_sample_adds_up_the_losses() {
    let weights = single(2, 2, vec![0.05, -0.02, 0.01, 0.03]);
    let mut passed =
        vec![nn::Full(FullLayer::new(2, 2, Single(0.1), 0, weights).unwrap()), nn::Activation(Activation::new(1))];
    let weights = single(2, 2, vec![0.05, -0.02, 0.01, 0.03]);
    let mut stepped =
        vec![nn::Full(FullLayer::new(2, 2, Single(0.1), 0, weights).unwrap()), nn::Activation(Activation::new(1))];
    let inputs = vec![vec![single(1, 2, vec![1.0, 2.0])], vec![single(1, 2, vec![-1.0, -2.0])]];
    let target = single(2, 2, vec![1.0, 0.0, 0.0, 1.0]);
    let (loss, correct) = epoch_one_by_one(&mut passed, &inputs, &target).unwrap();
    let (first, hit) = train_step(&mut stepped, &vec![vec![single(1, 2, vec![1.0, 2.0])]], &single(1, 2, vec![1.0, 0.0])).unwrap();
    let (second, again) =
        train_step(&mut stepped, &vec![vec![single(1, 2, vec![-1.0, -2.0])]], &single(1, 2, vec![0.0, 1.0])).unwrap();
    assert_eq!(loss, Single((0.0 + first.0) + second.0));
    assert_eq!(correct, hit + again);
    // no samples, no loss
    let none: Vec<Vec<Matrix<Single>>> = Vec::new();
    assert_eq!(epoch_one_by_one(&mut passed, &none, &target), Ok((Single(0.0), 0)));
    assert_eq!(train_one_by_one(&mut passed, 0, &inputs, &single(1, 1, vec![0.0])), Ok(Vec::new()));
}

#[test]
fn layers_without_parameters_share_a_way_forward_and_back() {
    fn through<L: Propagation<Single>>(layer: &L, inputs: &Vec<Vec<Matrix<Single>>>) -> Vec<f32> {
        let out = layer.forward(inputs).unwrap();
        let back = layer.backward(inputs, &out).unwrap();
        singles(&back[0][0])
    }
    let inputs = vec![vec![single(2, 2, vec![1.0, -2.0, 3.0, 0.5])]];
    assert_eq!(through(&Activation::new(0), &inputs), vec![1.0, 0.0, 3.0, 0.5]);
    assert_eq!(through(&Pool::new(2, 2, 0, 1, 2, 0).unwrap(), &inputs), vec![0.0, 0.0, 3.0, 0.0]);
    let wide = vec![vec![single(1, 4, vec![1.0, -2.0, 3.0, 0.5])]];
    let refused: Result<Vec<Vec<Matrix<Single>>>, NetError> = Propagation::forward(&Pool::new(2, 2, 0, 1, 2, 0).unwrap(), &wide);
    assert_eq!(refused.err(), Some(NetError::ShapeMismatch));
}

#[test]
fn names_and_numbers_stand_for_configurations() {
    let conv = parse_config(&"Conv".to_string(), &vec![3, 6, 1, 1, 13, 3, 0]);
    assert_eq!(
        conv,
        Some(LayerConfig::Conv {
            in_channel: 3,
            out_channel: 6,
            stride: 1,
            padding: 1,
            input_width: 13,
            filter_width: 3,
            boundary: 0
        })
    );
    assert_eq!(wanted_by(conv.unwrap()), (6, 3, 3, 3));
    assert_eq!(
        parse_config(&"Pool".to_string(), &vec![3, 2, 0, 10, 13, 1]),
        Some(LayerConfig::Pool { width: 3, stride: 2, padding: 0, out_channel: 10, input_width: 13, boundary: 1 })
    );
    assert_eq!(
        parse_config(&"Full".to_string(), &vec![100, 216, 6]),
        Some(LayerConfig::Full { neurons: 100, prev_neurons: 216, boundary: 6 })
    );
    assert_eq!(parse_config(&"Softmax".to_string(), &vec![1]), Some(LayerConfig::Activation { end: 1 }));
    assert_eq!(parse_config(&"Full".to_string(), &vec![100, 216]), None);
    let weights = vec![vec![single(2, 4, vec![0.0; 8])]];
    let dense = nn::configure(LayerConfig::Full { neurons: 2, prev_neurons: 4, boundary: 0 }, Single(0.1), &weights);
    assert!(matches!(dense, Ok(nn::Full(_))));
    let refused = nn::configure(LayerConfig::Full { neurons: 3, prev_neurons: 4, boundary: 0 }, Single(0.1), &weights);
    assert_eq!(refused.err(), Some(NetError::ShapeMismatch));
}
