use convnet::activation::Activation;
use convnet::convolution::Conv3D;
use convnet::full_connected::FullLayer;
use convnet::loss::compute_loss;
use convnet::matrix::Matrix;
use convnet::network::{forward, nn, train_step};
use convnet::scalar::{Scalar, Transcendental};

#[derive(Clone, Copy, Debug, PartialEq)]
struct Double(f64);

impl Scalar for Double {
    fn zero_spec() -> Double {
        Double(0.0)
    }

    fn one_spec() -> Double {
        Double(1.0)
    }

    fn count_spec(n: usize) -> Double {
        Double(n as f64)
    }

    fn plus_spec(self, rhs: Double) -> Double {
        Double(self.0 + rhs.0)
    }

    fn minus_spec(self, rhs: Double) -> Double {
        Double(self.0 - rhs.0)
    }

    fn times_spec(self, rhs: Double) -> Double {
        Double(self.0 * rhs.0)
    }

    fn over_spec(self, rhs: Double) -> Double {
        Double(self.0 / rhs.0)
    }

    fn exceeds_spec(self, rhs: Double) -> bool {
        self.0 > rhs.0
    }

    fn at_least_spec(self, rhs: Double) -> bool {
        self.0 >= rhs.0
    }

    fn zero() -> Double {
        Double(0.0)
    }

    fn one() -> Double {
        Double(1.0)
    }

    fn count(n: usize) -> Double {
        Double(n as f64)
    }

    fn plus(self, rhs: Double) -> Double {
        Double(self.0 + rhs.0)
    }

    fn minus(self, rhs: Double) -> Double {
        Double(self.0 - rhs.0)
    }

    fn times(self, rhs: Double) -> Double {
        Double(self.0 * rhs.0)
    }

    fn over(self, rhs: Double) -> Double {
        Double(self.0 / rhs.0)
    }

    fn exceeds(self, rhs: Double) -> bool {
        self.0 > rhs.0
    }

    fn at_least(self, rhs: Double) -> bool {
        self.0 >= rhs.0
    }

    fn lemma_exceeds_irreflexive(_a: Double) {
    }

    fn lemma_exceeds_chain(_a: Double, _b: Double, _c: Double) {
    }
}

impl Transcendental for Double {
    fn exp_gives(self, r: Double) -> bool {
        r == self.exp()
    }

    fn ln_gives(self, r: Double) -> bool {
        r == self.ln()
    }

    fn lemma_exp_gives_something(_x: Double) {
    }

    fn exp(self) -> Double {
        Double(self.0.exp())
    }

    fn ln(self) -> Double {
        Double(self.0.ln())
    }
}

fn double(rows: usize, cols: usize, cells: Vec<f64>) -> Matrix<Double> {
    Matrix::from_shape_vec(rows, cols, cells.into_iter().map(Double).collect()).unwrap()
}

fn doubles(m: &Matrix<Double>) -> Vec<f64> {
    m.copied().into_vec().into_iter().map(|x| x.0).collect()
}

fn close(found: f64, expected: f64) -> bool {
    (found - expected).abs() <= 1e-3 * expected.abs().max(1e-6)
}

fn dense_weights() -> Vec<f64> {
    vec![0.3, -0.2, 0.5, 0.1, -0.4, 0.25, 0.05, -0.15, 0.2, 0.35, -0.3, 0.45]
}

fn dense_inputs() -> Vec<Vec<Matrix<Double>>> {
    vec![vec![double(1, 4, vec![0.5, -1.0, 2.0, 0.25])], vec![double(1, 4, vec![1.5, 0.75, -0.5, 1.0])]]
}

fn dense_targets() -> Matrix<Double> {
    double(2, 3, vec![0.0, 1.0, 0.0, 1.0, 0.0, 0.0])
}

// The summed loss of a dense layer followed by the normalised exponential.
fn dense_loss(weights: Vec<f64>, bias: Vec<f64>) -> f64 {
    let layer = FullLayer::assemble(3, 4, Double(1.0), 0, double(3, 4, weights), double(3, 1, bias)).unwrap();
    let network = vec![nn::Full(layer), nn::Activation(Activation::new(1))];
    let history = forward(&network, &dense_inputs()).unwrap();
    2.0 * compute_loss(&history[2][0][0], &dense_targets()).0
}

#[test]
fn dense_gradients_match_finite_differences() {
    let layer = FullLayer::new(3, 4, Double(1.0), 0, double(3, 4, dense_weights())).unwrap();
    let mut network = vec![nn::Full(layer), nn::Activation(Activation::new(1))];
    train_step(&mut network, &dense_inputs(), &dense_targets()).unwrap();
    let (after_weights, after_bias) = match &network[0] {
        nn::Full(layer) => (doubles(layer.weights()), doubles(layer.bias())),
        _ => panic!("the first layer is dense"),
    };
    let step = 1e-5;
    for k in 0..12 {
        // the weights lose alpha * gradient / neurons
        let analytic = (dense_weights()[k] - after_weights[k]) * 3.0;
        let mut up = dense_weights();
        up[k] += step;
        let mut down = dense_weights();
        down[k] -= step;
        let numeric = (dense_loss(up, vec![0.0; 3]) - dense_loss(down, vec![0.0; 3])) / (2.0 * step);
        assert!(close(analytic, numeric), "weight {}: {} against {}", k, analytic, numeric);
    }
    for k in 0..3 {
        // the bias loses alpha * gradient / samples
        let analytic = (0.0 - after_bias[k]) * 2.0;
        let mut up = vec![0.0; 3];
        up[k] += step;
        let mut down = vec![0.0; 3];
        down[k] -= step;
        let numeric = (dense_loss(dense_weights(), up) - dense_loss(dense_weights(), down)) / (2.0 * step);
        assert!(close(analytic, numeric), "bias {}: {} against {}", k, analytic, numeric);
    }
}

fn conv_filter() -> Vec<f64> {
    vec![0.2, -0.1, 0.4, 0.3, 0.05, -0.25, -0.3, 0.15, 0.1]
}

fn conv_input() -> Vec<f64> {
    vec![0.5, 1.0, -0.5, 2.0, 1.5, -1.0, 0.25, 0.75, -2.0, 0.5, 1.25, -0.75, 1.0, -1.5, 0.5, 0.0]
}

fn conv_weight() -> Vec<f64> {
    vec![1.0, -2.0, 0.5, 0.0, 0.25, 1.5, -1.0, 2.0, -0.5, 0.75, 1.0, -1.25, 2.0, 0.0, -0.75, 0.5]
}

// A loss that is linear in what the layer gives: the sum of its cells, each times a weight.
fn conv_loss(filter: Vec<f64>, input: Vec<f64>) -> f64 {
    let layer = Conv3D::new(1, 1, 1, 1, 4, 3, Double(1.0), 0, &vec![vec![double(3, 3, filter)]]).unwrap();
    let out = layer.forward(&vec![vec![double(4, 4, input)]]).unwrap();
    doubles(&out[0][0]).iter().zip(conv_weight().iter()).map(|(o, w)| o * w).sum()
}

#[test]
fn convolution_gradients_match_finite_differences() {
    let mut layer = Conv3D::new(1, 1, 1, 1, 4, 3, Double(1.0), 0, &vec![vec![double(3, 3, conv_filter())]]).unwrap();
    let inputs = vec![vec![double(4, 4, conv_input())]];
    let deltas = vec![vec![double(4, 4, conv_weight())]];
    let handed = layer.backward(&deltas, &inputs).unwrap();
    let after = doubles(layer.unit(0, 0).filter());
    let step = 1e-5;
    for k in 0..9 {
        // the filter loses alpha * gradient
        let analytic = conv_filter()[k] - after[k];
        let mut up = conv_filter();
        up[k] += step;
        let mut down = conv_filter();
        down[k] -= step;
        let numeric = (conv_loss(up, conv_input()) - conv_loss(down, conv_input())) / (2.0 * step);
        assert!(close(analytic, numeric), "filter {}: {} against {}", k, analytic, numeric);
    }
    // the gradient that is handed back is that of the layer after its step
    let back = doubles(&handed[0][0]);
    for k in 0..16 {
        let mut up = conv_input();
        up[k] += step;
        let mut down = conv_input();
        down[k] -= step;
        let numeric = (conv_loss(after.clone(), up) - conv_loss(after.clone(), down)) / (2.0 * step);
        assert!(close(back[k], numeric), "input {}: {} against {}", k, back[k], numeric);
    }
}
