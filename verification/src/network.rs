//! Networks: a list of layers, run forwards while every intermediate batch is kept, and
//! backwards while every layer takes its step.

use crate::activation::Activation;
use crate::algebra::{combine, combine_spec, Binary};
use crate::batch::{batch_channels, batch_shaped};
use crate::convolution::{conv_geometry, layer_of, units_of, Conv3D, Conv3DView};
use crate::error::NetError;
use crate::full_connected::{full_of, squares, FullLayer, FullView};
use crate::loss::{compute_loss, evaluate, evaluate_spec, lemma_evaluate_bound, loss_result};
use crate::matrix::{filled_spec, Grid, Matrix};
use crate::reshape::{copied_batch, copied_sample, slice_cells};
use crate::pooling::{Pool, PoolView};
use crate::scalar::{Scalar, Transcendental};
use vstd::prelude::*;

verus! {

/// A layer of one of the four kinds.
#[allow(non_camel_case_types)]
pub enum nn<T: Scalar> {
    Conv(Conv3D<T>),
    Pool(Pool),
    Activation(Activation),
    Full(FullLayer<T>),
}

/// What a layer is made of.
pub ghost enum LayerView<T> {
    Conv(Conv3DView<T>),
    Pool(PoolView),
    Activation(Activation),
    Full(FullView<T>),
}

impl<T: Scalar> View for nn<T> {
    type V = LayerView<T>;

    open spec fn view(&self) -> LayerView<T> {
        match self {
            nn::Conv(conv) => LayerView::Conv(conv@),
            nn::Pool(p) => LayerView::Pool(p@),
            nn::Activation(a) => LayerView::Activation(*a),
            nn::Full(f) => LayerView::Full(f@),
        }
    }
}

impl<T: Scalar> DeepView for nn<T> {
    type V = LayerView<T>;

    open spec fn deep_view(&self) -> LayerView<T> {
        self@
    }
}

impl<T: Scalar> LayerView<T> {
    /// The layer is well formed, as every layer is that was made by this library.
    pub open spec fn wf(self) -> bool {
        match self {
            LayerView::Conv(conv) => conv.wf(),
            LayerView::Pool(p) => p.wf(),
            LayerView::Activation(a) => true,
            LayerView::Full(f) => f.wf(),
        }
    }

    /// The layer takes this batch.
    pub open spec fn accepts(self, inputs: Seq<Seq<Grid<T>>>) -> bool {
        match self {
            LayerView::Conv(conv) => conv.accepts(inputs),
            LayerView::Pool(p) => p.accepts(inputs),
            LayerView::Activation(a) => a.accepts(inputs),
            LayerView::Full(f) => f.accepts(inputs),
        }
    }

    /// The layer takes this gradient back for the inputs that its forward pass was given.
    pub open spec fn accepts_backward(self, inputs: Seq<Seq<Grid<T>>>, deltas: Seq<Seq<Grid<T>>>) -> bool {
        match self {
            LayerView::Conv(conv) => conv.accepts_backward(deltas, inputs),
            LayerView::Pool(p) => p.accepts_backward(inputs, deltas),
            LayerView::Activation(a) => a.accepts_backward(inputs, deltas),
            LayerView::Full(f) => f.accepts_backward(inputs, deltas),
        }
    }

    /// The gradient with respect to the inputs of the layer.
    pub open spec fn backward_spec(self, inputs: Seq<Seq<Grid<T>>>, deltas: Seq<Seq<Grid<T>>>) -> Seq<Seq<Grid<T>>> {
        match self {
            LayerView::Conv(conv) => conv.backward_spec(deltas, inputs),
            LayerView::Pool(p) => p.backward_spec(inputs, deltas),
            LayerView::Activation(a) => a.backward_spec(inputs, deltas),
            LayerView::Full(f) => f.backward_spec(inputs, deltas),
        }
    }

    /// The layer after its training step. Pooling and activation layers have nothing to
    /// train.
    pub open spec fn updated_spec(self, inputs: Seq<Seq<Grid<T>>>, deltas: Seq<Seq<Grid<T>>>) -> LayerView<T> {
        match self {
            LayerView::Conv(conv) => LayerView::Conv(conv.updated_spec(deltas, inputs)),
            LayerView::Pool(p) => self,
            LayerView::Activation(a) => self,
            LayerView::Full(f) => LayerView::Full(f.trained_spec(inputs, deltas)),
        }
    }
}

impl<T: Transcendental> LayerView<T> {
    /// `outputs` is what the layer may give for `inputs`. Only the normalised
    /// exponential can give more than one batch for the same inputs.
    pub open spec fn produces(self, inputs: Seq<Seq<Grid<T>>>, outputs: Seq<Seq<Grid<T>>>) -> bool {
        match self {
            LayerView::Conv(conv) => outputs == conv.forward_spec(inputs),
            LayerView::Pool(p) => outputs == p.forward_spec(inputs),
            LayerView::Activation(a) => a.produces(inputs, outputs),
            LayerView::Full(f) => outputs == f.forward_spec(inputs),
        }
    }
}

/// What a layer of each kind is configured with.
#[derive(Clone, Copy, Debug, PartialEq, Eq, Structural)]
pub enum LayerConfig {
    Conv {
        in_channel: usize,
        out_channel: usize,
        stride: usize,
        padding: usize,
        input_width: usize,
        filter_width: usize,
        boundary: usize,
    },
    Pool { width: usize, stride: usize, padding: usize, out_channel: usize, input_width: usize, boundary: usize },
    Full { neurons: usize, prev_neurons: usize, boundary: usize },
    Activation { end: usize },
}

/// The configuration that a name and a list of numbers stand for, if there are enough
/// numbers.
///
/// With the name `Conv` the numbers are the input channels, the output channels, the
/// stride, the padding, the input width, the filter width and the boundary flag. With
/// `Pool` they are the window width, the stride, the padding, the channels, the input
/// width and the boundary flag. With `Full` they are the neurons, the inputs and the
/// boundary. With any other name the layer is an activation layer and the first number
/// says which.
pub open spec fn config_of(name: Seq<char>, config: Seq<usize>) -> Option<LayerConfig> {
    if name == "Conv"@ {
        if config.len() >= 7 {
            Some(
                LayerConfig::Conv {
                    in_channel: config[0],
                    out_channel: config[1],
                    stride: config[2],
                    padding: config[3],
                    input_width: config[4],
                    filter_width: config[5],
                    boundary: config[6],
                },
            )
        } else {
            None
        }
    } else if name == "Pool"@ {
        if config.len() >= 6 {
            Some(
                LayerConfig::Pool {
                    width: config[0],
                    stride: config[1],
                    padding: config[2],
                    out_channel: config[3],
                    input_width: config[4],
                    boundary: config[5],
                },
            )
        } else {
            None
        }
    } else if name == "Full"@ {
        if config.len() >= 3 {
            Some(LayerConfig::Full { neurons: config[0], prev_neurons: config[1], boundary: config[2] })
        } else {
            None
        }
    } else {
        if config.len() >= 1 {
            Some(LayerConfig::Activation { end: config[0] })
        } else {
            None
        }
    }
}

/// The layer that a configuration, a learning rate and a grid of parameters describe, if
/// they describe one: the geometry must be valid, and the parameters must be the
/// filters of a convolution layer, a list for each output channel, or the matrix of
/// weights of a dense layer.
pub open spec fn layer_for<T: Scalar>(config: LayerConfig, alpha: T, parameters: Seq<Seq<Grid<T>>>) -> Option<
    LayerView<T>,
> {
    match config {
        LayerConfig::Conv { in_channel, out_channel, stride, padding, input_width, filter_width, boundary } => {
            if conv_geometry(input_width as int, filter_width as int, stride as int, padding as int)
                && parameters.len() == out_channel && batch_channels(parameters, in_channel as int)
                && batch_shaped(parameters, filter_width as int, filter_width as int) {
                Some(
                    LayerView::Conv(
                        layer_of(
                            in_channel as nat,
                            out_channel as nat,
                            stride as nat,
                            padding as nat,
                            input_width as nat,
                            filter_width as nat,
                            alpha,
                            boundary as nat,
                            units_of(
                                input_width as nat,
                                filter_width as nat,
                                padding as nat,
                                stride as nat,
                                alpha,
                                parameters,
                            ),
                        ),
                    ),
                )
            } else {
                None
            }
        },
        LayerConfig::Pool { width, stride, padding, out_channel, input_width, boundary } => {
            let pool = PoolView {
                width: width as nat,
                stride: stride as nat,
                padding: padding as nat,
                boundary: boundary as nat,
                out_channel: out_channel as nat,
                input_width: input_width as nat,
            };
            if pool.wf() {
                Some(LayerView::Pool(pool))
            } else {
                None
            }
        },
        LayerConfig::Full { neurons, prev_neurons, boundary } => {
            if parameters.len() >= 1 && parameters[0].len() >= 1 && parameters[0][0].wf()
                && parameters[0][0].has_shape(neurons as int, prev_neurons as int) && squares(
                prev_neurons as nat,
                boundary as nat,
            ) {
                Some(
                    LayerView::Full(
                        full_of(
                            neurons as nat,
                            prev_neurons as nat,
                            alpha,
                            boundary as nat,
                            parameters[0][0],
                            filled_spec(neurons as nat, 1, T::zero_spec()),
                        ),
                    ),
                )
            } else {
                None
            }
        },
        LayerConfig::Activation { end } => Some(LayerView::Activation(Activation { end })),
    }
}

/// The layer that a name, a list of numbers, a learning rate and a grid of parameters
/// describe, if they describe one: see [`config_of`] and [`layer_for`].
pub open spec fn configured<T: Scalar>(
    name: Seq<char>,
    config: Seq<usize>,
    alpha: T,
    parameters: Seq<Seq<Grid<T>>>,
) -> Option<LayerView<T>> {
    match config_of(name, config) {
        Some(known) => layer_for(known, alpha, parameters),
        None => None,
    }
}

/// The shape of the grid of parameters that a layer of this configuration needs: so
/// many lists of so many matrices of so many rows and columns. Layers without parameters
/// need an empty grid.
pub open spec fn wanted_for(config: LayerConfig) -> (usize, usize, usize, usize) {
    match config {
        LayerConfig::Conv { in_channel, out_channel, stride, padding, input_width, filter_width, boundary } => (
            out_channel,
            in_channel,
            filter_width,
            filter_width,
        ),
        LayerConfig::Full { neurons, prev_neurons, boundary } => (1, 1, neurons, prev_neurons),
        _ => (0, 0, 0, 0),
    }
}

/// The shape of the grid of parameters that a layer of this name and these numbers
/// needs; an empty grid where they stand for no configuration.
pub open spec fn wanted_spec(name: Seq<char>, config: Seq<usize>) -> (usize, usize, usize, usize) {
    match config_of(name, config) {
        Some(known) => wanted_for(known),
        None => (0, 0, 0, 0),
    }
}

/// Whether the name is the given word.
pub fn named(name: &String, word: &str) -> (same: bool)
    ensures
        same == (name@ == word@),
{
    let other: String = word.to_string();
    *name == other
}

/// The configuration that the name and the numbers stand for: see [`config_of`].
pub fn parse_config(name: &String, config: &Vec<usize>) -> (known: Option<LayerConfig>)
    ensures
        known == config_of(name@, config@),
{
    if named(name, "Conv") {
        if config.len() >= 7 {
            Some(
                LayerConfig::Conv {
                    in_channel: config[0],
                    out_channel: config[1],
                    stride: config[2],
                    padding: config[3],
                    input_width: config[4],
                    filter_width: config[5],
                    boundary: config[6],
                },
            )
        } else {
            None
        }
    } else if named(name, "Pool") {
        if config.len() >= 6 {
            Some(
                LayerConfig::Pool {
                    width: config[0],
                    stride: config[1],
                    padding: config[2],
                    out_channel: config[3],
                    input_width: config[4],
                    boundary: config[5],
                },
            )
        } else {
            None
        }
    } else if named(name, "Full") {
        if config.len() >= 3 {
            Some(LayerConfig::Full { neurons: config[0], prev_neurons: config[1], boundary: config[2] })
        } else {
            None
        }
    } else {
        if config.len() >= 1 {
            Some(LayerConfig::Activation { end: config[0] })
        } else {
            None
        }
    }
}

/// The shape of the grid of parameters that a layer of this configuration needs: see
/// [`wanted_for`].
pub fn wanted_by(config: LayerConfig) -> (shape: (usize, usize, usize, usize))
    ensures
        shape == wanted_for(config),
{
    match config {
        LayerConfig::Conv { in_channel, out_channel, stride, padding, input_width, filter_width, boundary } => (
            out_channel,
            in_channel,
            filter_width,
            filter_width,
        ),
        LayerConfig::Full { neurons, prev_neurons, boundary } => (1, 1, neurons, prev_neurons),
        _ => (0, 0, 0, 0),
    }
}

/// The shape of the grid of parameters that a layer of this name and these numbers
/// needs: see [`wanted_spec`].
pub fn wanted(name: &String, config: &Vec<usize>) -> (shape: (usize, usize, usize, usize))
    ensures
        shape == wanted_spec(name@, config@),
{
    match parse_config(name, config) {
        Some(known) => wanted_by(known),
        None => (0, 0, 0, 0),
    }
}

impl<T: Scalar> nn<T> {
    /// The layer that the name, the numbers, the learning rate and the parameters
    /// describe: see [`configured`].
    pub fn new(name: String, config: Vec<usize>, alpha: T, parameters: &Vec<Vec<Matrix<T>>>) -> (made: Result<
        nn<T>,
        NetError,
    >)
        ensures
            made is Ok <==> configured(name@, config@, alpha, parameters.deep_view()) is Some,
            made matches Ok(layer) ==> Some(layer@) == configured(name@, config@, alpha, parameters.deep_view()),
            made matches Err(e) ==> e == NetError::ShapeMismatch,
    {
        match parse_config(&name, &config) {
            Some(known) => nn::configure(known, alpha, parameters),
            None => Err(NetError::ShapeMismatch),
        }
    }

    /// The layer that the configuration, the learning rate and the parameters describe:
    /// see [`layer_for`].
    pub fn configure(config: LayerConfig, alpha: T, parameters: &Vec<Vec<Matrix<T>>>) -> (made: Result<
        nn<T>,
        NetError,
    >)
        ensures
            made is Ok <==> layer_for(config, alpha, parameters.deep_view()) is Some,
            made matches Ok(layer) ==> Some(layer@) == layer_for(config, alpha, parameters.deep_view()),
            made matches Err(e) ==> e == NetError::ShapeMismatch,
    {
        match config {
            LayerConfig::Conv { in_channel, out_channel, stride, padding, input_width, filter_width, boundary } => {
                match Conv3D::new(
                    in_channel,
                    out_channel,
                    stride,
                    padding,
                    input_width,
                    filter_width,
                    alpha,
                    boundary,
                    parameters,
                ) {
                    Ok(layer) => Ok(nn::Conv(layer)),
                    Err(e) => Err(NetError::ShapeMismatch),
                }
            },
            LayerConfig::Pool { width, stride, padding, out_channel, input_width, boundary } => {
                match Pool::new(width, stride, padding, out_channel, input_width, boundary) {
                    Ok(layer) => Ok(nn::Pool(layer)),
                    Err(e) => Err(NetError::ShapeMismatch),
                }
            },
            LayerConfig::Full { neurons, prev_neurons, boundary } => {
                if parameters.len() == 0 || parameters[0].len() == 0 {
                    return Err(NetError::ShapeMismatch);
                }
                assert(parameters.deep_view()[0][0] == parameters@[0]@[0]@);
                let rows: usize = parameters[0][0].rows();
                match FullLayer::new(neurons, prev_neurons, alpha, boundary, parameters[0][0].copied()) {
                    Ok(layer) => Ok(nn::Full(layer)),
                    Err(e) => Err(NetError::ShapeMismatch),
                }
            },
            LayerConfig::Activation { end } => Ok(nn::Activation(Activation::new(end))),
        }
    }
}

impl<T: Transcendental> nn<T> {
    /// What the layer gives for the batch, if it takes the batch.
    pub fn forward(&self, input: &Vec<Vec<Matrix<T>>>) -> (out: Result<Vec<Vec<Matrix<T>>>, NetError>)
        ensures
            out is Ok <==> self@.accepts(input.deep_view()),
            out matches Ok(outputs) ==> self@.produces(input.deep_view(), outputs.deep_view()),
            out matches Err(e) ==> e == NetError::ShapeMismatch,
    {
        match self {
            nn::Conv(conv) => conv.forward(input),
            nn::Pool(p) => p.forward(input),
            nn::Activation(a) => a.forward(input),
            nn::Full(f) => f.forward(input),
        }
    }
}

impl<T: Scalar> nn<T> {
    /// One training step of the layer: the gradient with respect to its inputs, and the
    /// layer after its step. Nothing changes where the shapes do not fit.
    pub fn backward(&mut self, input: &Vec<Vec<Matrix<T>>>, deltas: &Vec<Vec<Matrix<T>>>) -> (out: Result<
        Vec<Vec<Matrix<T>>>,
        NetError,
    >)
        ensures
            out is Ok <==> old(self)@.accepts_backward(input.deep_view(), deltas.deep_view()),
            out matches Ok(given) ==> given.deep_view() == old(self)@.backward_spec(
                input.deep_view(),
                deltas.deep_view(),
            ) && final(self)@ == old(self)@.updated_spec(input.deep_view(), deltas.deep_view()),
            out matches Err(e) ==> e == NetError::ShapeMismatch && final(self)@ == old(self)@,
    {
        match self {
            nn::Conv(conv) => conv.backward(deltas, input),
            nn::Pool(p) => p.backward(input, deltas),
            nn::Activation(a) => a.backward(input, deltas),
            nn::Full(f) => f.backward(input, deltas),
        }
    }
}

/// The first `k` layers of the network ran: `history` holds the batch that went in and,
/// after it, what each of the `k` layers gave for what stands before it.
pub open spec fn runs<T: Transcendental>(net: Seq<LayerView<T>>, history: Seq<Seq<Seq<Grid<T>>>>, k: nat) -> bool {
    &&& k <= net.len()
    &&& history.len() == k + 1
    &&& forall|i: int|
        0 <= i < k ==> (#[trigger] net[i]).accepts(history[i]) && net[i].produces(history[i], history[i + 1])
}

/// The network ran up to layer `k`, which does not take what the layers before it gave.
pub open spec fn stalls<T: Transcendental>(
    net: Seq<LayerView<T>>,
    input: Seq<Seq<Grid<T>>>,
    history: Seq<Seq<Seq<Grid<T>>>>,
    k: nat,
) -> bool {
    &&& k < net.len()
    &&& runs(net, history, k)
    &&& history[0] == input
    &&& !net[k as int].accepts(history[k as int])
}

/// Some run on the batch goes through the whole network.
pub open spec fn completes<T: Transcendental>(net: Seq<LayerView<T>>, input: Seq<Seq<Grid<T>>>) -> bool {
    exists|history: Seq<Seq<Seq<Grid<T>>>>| #[trigger] runs(net, history, net.len()) && history[0] == input
}

/// The network and the gradient after the layers from the last down to layer `k` took
/// their steps, each for the batch that its forward pass was given; nothing where one of
/// them does not take the gradient that the layer after it hands back.
pub open spec fn back<T: Scalar>(
    net: Seq<LayerView<T>>,
    inputs: Seq<Seq<Seq<Grid<T>>>>,
    delta: Seq<Seq<Grid<T>>>,
    k: nat,
) -> Option<(Seq<LayerView<T>>, Seq<Seq<Grid<T>>>)>
    decreases net.len() - k,
{
    if k >= net.len() {
        Some((net, delta))
    } else {
        match back(net, inputs, delta, k + 1) {
            None => None,
            Some((after, given)) => if after[k as int].accepts_backward(inputs[k as int], given) {
                Some(
                    (
                        after.update(k as int, after[k as int].updated_spec(inputs[k as int], given)),
                        after[k as int].backward_spec(inputs[k as int], given),
                    ),
                )
            } else {
                None
            },
        }
    }
}

/// The network that the way back leaves, where it leaves one.
pub open spec fn back_net<T>(left: Option<(Seq<LayerView<T>>, Seq<Seq<Grid<T>>>)>) -> Seq<LayerView<T>> {
    match left {
        Some(pair) => pair.0,
        None => Seq::empty(),
    }
}

/// The gradient that comes out at the front of the way back, where one comes out.
pub open spec fn back_delta<T>(left: Option<(Seq<LayerView<T>>, Seq<Seq<Grid<T>>>)>) -> Seq<Seq<Grid<T>>> {
    match left {
        Some(pair) => pair.1,
        None => Seq::empty(),
    }
}

/// The layers from the last down to layer `k + 1` took their steps and left the network
/// as `after`, and layer `k` does not take the gradient that they hand back.
pub open spec fn back_stalls<T: Scalar>(
    net: Seq<LayerView<T>>,
    inputs: Seq<Seq<Seq<Grid<T>>>>,
    delta: Seq<Seq<Grid<T>>>,
    k: nat,
    after: Seq<LayerView<T>>,
) -> bool {
    &&& k < net.len()
    &&& back(net, inputs, delta, k) is None
    &&& back(net, inputs, delta, k + 1) matches Some((left, given)) && left == after
}

/// The batch through every layer of the network in turn: the batch itself and, after
/// it, what every layer gave. The run ends with an error at the first layer that does
/// not take what it is given.
pub fn forward<T: Transcendental>(network: &Vec<nn<T>>, input: &Vec<Vec<Matrix<T>>>) -> (out: Result<
    Vec<Vec<Vec<Matrix<T>>>>,
    NetError,
>)
    ensures
        out is Ok <==> completes(network.deep_view(), input.deep_view()),
        out matches Ok(outputs) ==> runs(network.deep_view(), outputs.deep_view(), network@.len() as nat)
            && outputs.deep_view()[0] == input.deep_view(),
        out matches Err(e) ==> e == NetError::ShapeMismatch && exists|history: Seq<Seq<Seq<Grid<T>>>>, k: nat|
            stalls(network.deep_view(), input.deep_view(), history, k),
{
    let mut outputs: Vec<Vec<Vec<Matrix<T>>>> = Vec::new();
    outputs.push(crate::reshape::copied_batch(input));
    let count: usize = network.len();
    let mut i: usize = 0;
    while i < count
        invariant
            count == network@.len(),
            i <= count,
            runs(network.deep_view(), outputs.deep_view(), i as nat),
            outputs.deep_view()[0] == input.deep_view(),
        decreases count - i,
    {
        let ghost before = outputs.deep_view();
        assert(network.deep_view()[i as int] == network@[i as int]@);
        assert(outputs.deep_view()[i as int] == outputs@[i as int].deep_view());
        let given = network[i].forward(&outputs[i]);
        match given {
            Ok(output) => {
                outputs.push(output);
                proof {
                    assert forall|j: int| 0 <= j <= i implies (#[trigger] outputs.deep_view()[j]) == before[j] by {}
                    assert(outputs.deep_view()[i + 1] == output.deep_view());
                }
            },
            Err(e) => {
                assert(stalls(network.deep_view(), input.deep_view(), before, i as nat));
                proof {
                    crate::alike::lemma_stalled_never_completes(
                        network.deep_view(),
                        input.deep_view(),
                        before,
                        i as nat,
                    );
                }
                return Err(NetError::ShapeMismatch);
            },
        }
        i = i + 1;
    }
    Ok(outputs)
}

/// Every layer, from the last to the first, takes its training step for the batch that
/// its forward pass was given (`inputs`, one batch for each layer) and hands the
/// gradient on to the layer before it, starting from `output`, the gradient of the loss
/// with respect to what the network gave. The run ends with an error at the first layer
/// that does not take the gradient; the layers after it have then taken their steps.
pub fn backward<T: Scalar>(
    network: &mut Vec<nn<T>>,
    inputs: &Vec<Vec<Vec<Matrix<T>>>>,
    output: &Vec<Vec<Matrix<T>>>,
) -> (out: Result<(), NetError>)
    ensures
        inputs@.len() != old(network)@.len() ==> out is Err && final(network).deep_view() == old(
            network,
        ).deep_view(),
        inputs@.len() == old(network)@.len() ==> (out is Ok <==> back(
            old(network).deep_view(),
            inputs.deep_view(),
            output.deep_view(),
            0,
        ) is Some),
        out is Ok ==> (back(old(network).deep_view(), inputs.deep_view(), output.deep_view(), 0) matches Some(
            (after, given),
        ) && final(network).deep_view() == after),
        out matches Err(e) ==> e == NetError::ShapeMismatch,
        out is Err && inputs@.len() == old(network)@.len() ==> exists|k: nat|
            back_stalls(
                old(network).deep_view(),
                inputs.deep_view(),
                output.deep_view(),
                k,
                final(network).deep_view(),
            ),
{
    let count: usize = network.len();
    if inputs.len() != count {
        return Err(NetError::ShapeMismatch);
    }
    let ghost start = network.deep_view();
    let mut deltas: Vec<Vec<Matrix<T>>> = crate::reshape::copied_batch(output);
    let mut i: usize = count;
    while i > 0
        invariant
            start == old(network).deep_view(),
            count == old(network)@.len(),
            count == start.len(),
            count == network@.len(),
            count == inputs@.len(),
            i <= count,
            back(start, inputs.deep_view(), output.deep_view(), i as nat) == Some(
                (network.deep_view(), deltas.deep_view()),
            ),
        decreases i,
    {
        let ghost before = network.deep_view();
        let ghost held = deltas.deep_view();
        i = i - 1;
        assert(inputs.deep_view()[i as int] == inputs@[i as int].deep_view());
        assert(before[i as int] == network@[i as int]@);
        let given = network[i].backward(&inputs[i], &deltas);
        match given {
            Ok(handed) => {
                deltas = handed;
                assert(network.deep_view() =~= before.update(
                    i as int,
                    before[i as int].updated_spec(inputs.deep_view()[i as int], held),
                ));
            },
            Err(e) => {
                assert(network.deep_view() =~= before);
                assert(back_stalls(start, inputs.deep_view(), output.deep_view(), i as nat, network.deep_view()));
                proof {
                    lemma_back_stays_stalled(start, inputs.deep_view(), output.deep_view(), i as nat);
                }
                return Err(NetError::ShapeMismatch);
            },
        }
    }
    Ok(())
}

/// Once a layer did not take its gradient, no layer before it takes a step.
pub proof fn lemma_back_stays_stalled<T: Scalar>(
    net: Seq<LayerView<T>>,
    inputs: Seq<Seq<Seq<Grid<T>>>>,
    delta: Seq<Seq<Grid<T>>>,
    k: nat,
)
    requires
        k <= net.len(),
        back(net, inputs, delta, k) is None,
    ensures
        back(net, inputs, delta, 0) is None,
    decreases k,
{
    if k > 0 {
        lemma_back_stays_stalled(net, inputs, delta, (k - 1) as nat);
    }
}

/// The gradient that training starts from: the output minus the target, which is the
/// gradient of the cross-entropy loss taken together with the normalised exponential.
pub open spec fn first_delta<T: Scalar>(given: Grid<T>, target: Grid<T>) -> Seq<Seq<Grid<T>>> {
    seq![seq![combine_spec(Binary::Minus, given, target)]]
}

/// The network ran on the inputs as `history` says, and gave one matrix of the shape of
/// the target.
pub open spec fn answers<T: Transcendental>(
    net: Seq<LayerView<T>>,
    inputs: Seq<Seq<Grid<T>>>,
    target: Grid<T>,
    history: Seq<Seq<Seq<Grid<T>>>>,
) -> bool {
    let last = history[net.len() as int];
    &&& runs(net, history, net.len())
    &&& history[0] == inputs
    &&& last.len() >= 1
    &&& last[0].len() >= 1
    &&& last[0][0].wf()
    &&& last[0][0].rows == target.rows
    &&& last[0][0].cols == target.cols
}

/// Some run of the network on the inputs gives one matrix of the shape of the target.
pub open spec fn answerable<T: Transcendental>(net: Seq<LayerView<T>>, inputs: Seq<Seq<Grid<T>>>, target: Grid<T>) -> bool {
    exists|history: Seq<Seq<Seq<Grid<T>>>>| #[trigger] answers(net, inputs, target, history)
}

/// The network ran on the inputs as `history` says and gave one matrix of the shape of
/// the target, and every layer takes its step on the way back.
pub open spec fn steps<T: Transcendental>(
    net: Seq<LayerView<T>>,
    inputs: Seq<Seq<Grid<T>>>,
    target: Grid<T>,
    history: Seq<Seq<Seq<Grid<T>>>>,
) -> bool {
    &&& answers(net, inputs, target, history)
    &&& back(
        net,
        history.take(net.len() as int),
        first_delta(history[net.len() as int][0][0], target),
        0,
    ) is Some
}

/// The network can take a training step on the inputs and the target: the shapes fit
/// all the way forward and all the way back.
pub open spec fn can_step<T: Transcendental>(net: Seq<LayerView<T>>, inputs: Seq<Seq<Grid<T>>>, target: Grid<T>) -> bool {
    exists|history: Seq<Seq<Seq<Grid<T>>>>| #[trigger] steps(net, inputs, target, history)
}

/// The network can take a training step on every sample by itself, against the
/// sample's row of the target.
pub open spec fn can_pass<T: Transcendental>(net: Seq<LayerView<T>>, inputs: Seq<Seq<Grid<T>>>, target: Grid<T>) -> bool {
    &&& inputs.len() <= target.rows
    &&& forall|i: int| 0 <= i < inputs.len() ==> can_step(net, seq![#[trigger] inputs[i]], row_spec(target, i))
}

/// One training step took the network from `before` to `after` along `history`, with
/// this loss and this many right answers.
pub open spec fn step_follows<T: Transcendental>(
    before: Seq<LayerView<T>>,
    inputs: Seq<Seq<Grid<T>>>,
    target: Grid<T>,
    after: Seq<LayerView<T>>,
    loss: T,
    correct: nat,
    history: Seq<Seq<Seq<Grid<T>>>>,
) -> bool {
    let n = before.len();
    let given = history[n as int][0][0];
    &&& answers(before, inputs, target, history)
    &&& loss_result(given, target, loss)
    &&& correct == evaluate_spec(given, target, given.rows)
    &&& back(before, history.take(n as int), first_delta(given, target), 0) matches Some((left, handed)) && left
        == after
}

/// One training step on the inputs and the target can take the network from `before`
/// to `after`, with this loss and this many right answers.
pub open spec fn step_result<T: Transcendental>(
    before: Seq<LayerView<T>>,
    inputs: Seq<Seq<Grid<T>>>,
    target: Grid<T>,
    after: Seq<LayerView<T>>,
    loss: T,
    correct: nat,
) -> bool {
    exists|history: Seq<Seq<Seq<Grid<T>>>>| step_follows(before, inputs, target, after, loss, correct, history)
}

/// A training step that failed left the network as it was, or, where the failure was on
/// the way back, with the steps of the layers behind the one that failed.
pub open spec fn step_fails<T: Transcendental>(
    before: Seq<LayerView<T>>,
    inputs: Seq<Seq<Grid<T>>>,
    target: Grid<T>,
    after: Seq<LayerView<T>>,
) -> bool {
    ||| after == before
    ||| exists|history: Seq<Seq<Seq<Grid<T>>>>, k: nat|
        answers(before, inputs, target, history) && #[trigger] back_stalls(
            before,
            history.take(before.len() as int),
            first_delta(history[before.len() as int][0][0], target),
            k,
            after,
        )
}

/// `epochs` training steps, one after the other, took the network from `before` to
/// `after`; `metrics` holds the loss and the right answers of each.
pub open spec fn trained<T: Transcendental>(
    before: Seq<LayerView<T>>,
    inputs: Seq<Seq<Grid<T>>>,
    target: Grid<T>,
    after: Seq<LayerView<T>>,
    metrics: Seq<(T, usize)>,
    epochs: nat,
) -> bool
    decreases epochs,
{
    if epochs == 0 {
        after == before
    } else {
        exists|mid: Seq<LayerView<T>>|
            trained(before, inputs, target, mid, metrics, (epochs - 1) as nat) && #[trigger] step_result(
                mid,
                inputs,
                target,
                after,
                metrics[epochs - 1].0,
                metrics[epochs - 1].1 as nat,
            )
    }
}

/// Row `r` of the grid as a grid of one row.
pub open spec fn row_spec<T>(m: Grid<T>, r: int) -> Grid<T> {
    Grid { rows: 1, cols: m.cols, cells: m.cells.subrange(r * m.cols, r * m.cols + m.cols) }
}

/// Training steps on the first `n` samples, one sample at a time, each against its row
/// of the target, took the network from `before` to `after`; `loss` is the sum of the
/// losses, added from the left to zero, and `correct` the number of right answers.
pub open spec fn epoch_result<T: Transcendental>(
    before: Seq<LayerView<T>>,
    inputs: Seq<Seq<Grid<T>>>,
    target: Grid<T>,
    after: Seq<LayerView<T>>,
    loss: T,
    correct: nat,
    n: nat,
) -> bool
    decreases n,
{
    if n == 0 {
        after == before && loss == T::zero_spec() && correct == 0
    } else {
        exists|mid: Seq<LayerView<T>>, so_far: T, more: T, right: nat, hit: nat|
            epoch_result(before, inputs, target, mid, so_far, right, (n - 1) as nat) && #[trigger] epoch_extends(
                inputs,
                target,
                after,
                loss,
                correct,
                n,
                mid,
                so_far,
                more,
                right,
                hit,
            )
    }
}

/// Sample `n - 1` took the network from `mid` to `after`, with the loss `more` and `hit`
/// right answers, which make `loss` and `correct` with the loss `so_far` and the `right`
/// right answers of the samples before it.
pub open spec fn epoch_extends<T: Transcendental>(
    inputs: Seq<Seq<Grid<T>>>,
    target: Grid<T>,
    after: Seq<LayerView<T>>,
    loss: T,
    correct: nat,
    n: nat,
    mid: Seq<LayerView<T>>,
    so_far: T,
    more: T,
    right: nat,
    hit: nat,
) -> bool
{
    &&& n > 0
    &&& step_result(mid, seq![inputs[n - 1]], row_spec(target, n - 1), after, more, hit)
    &&& loss == so_far.plus_spec(more)
    &&& correct == right + hit
}

/// `epochs` passes over the samples, one sample at a time, took the network from
/// `before` to `after`; `metrics` holds the loss and the right answers of each pass.
pub open spec fn trained_one_by_one<T: Transcendental>(
    before: Seq<LayerView<T>>,
    inputs: Seq<Seq<Grid<T>>>,
    target: Grid<T>,
    after: Seq<LayerView<T>>,
    metrics: Seq<(T, usize)>,
    epochs: nat,
) -> bool
    decreases epochs,
{
    if epochs == 0 {
        after == before
    } else {
        exists|mid: Seq<LayerView<T>>|
            trained_one_by_one(before, inputs, target, mid, metrics, (epochs - 1) as nat) && #[trigger] epoch_result(
                mid,
                inputs,
                target,
                after,
                metrics[epochs - 1].0,
                metrics[epochs - 1].1 as nat,
                inputs.len(),
            )
    }
}

/// A pass over the samples that failed left the network as it was where there are more
/// samples than rows of the target, and otherwise as the training steps on the samples
/// before the one that failed and the failed step left it.
pub open spec fn pass_fails<T: Transcendental>(
    before: Seq<LayerView<T>>,
    inputs: Seq<Seq<Grid<T>>>,
    target: Grid<T>,
    after: Seq<LayerView<T>>,
) -> bool {
    ||| inputs.len() > target.rows && after == before
    ||| exists|mid: Seq<LayerView<T>>, loss: T, correct: nat, i: nat|
        #[trigger] epoch_result(before, inputs, target, mid, loss, correct, i) && i < inputs.len() && step_fails(
            mid,
            seq![inputs[i as int]],
            row_spec(target, i as int),
            after,
        )
}

/// `accuracy` is what the network may give as the share of right answers: the number
/// of right answers over the number of samples.
pub open spec fn predict_result<T: Transcendental>(
    net: Seq<LayerView<T>>,
    inputs: Seq<Seq<Grid<T>>>,
    target: Grid<T>,
    accuracy: T,
) -> bool {
    exists|history: Seq<Seq<Seq<Grid<T>>>>|
        #[trigger] answers(net, inputs, target, history) && accuracy == T::count_spec(
            evaluate_spec(history[net.len() as int][0][0], target, target.rows) as usize,
        ).over_spec(T::count_spec(inputs.len() as usize))
}

/// One training step: the batch goes through the network, the loss and the number of
/// right answers are taken from what the network gave, and the gradient, what the
/// network gave minus the target, goes back through the layers, each of which takes its
/// step. The network must end in a layer that gives one matrix of the shape of the
/// target. The loss and the number of right answers are handed back.
pub fn train_step<T: Transcendental>(
    network: &mut Vec<nn<T>>,
    inputs: &Vec<Vec<Matrix<T>>>,
    target: &Matrix<T>,
) -> (out: Result<(T, usize), NetError>)
    ensures
        out is Ok <==> can_step(old(network).deep_view(), inputs.deep_view(), target@),
        out matches Ok(metrics) ==> step_result(
            old(network).deep_view(),
            inputs.deep_view(),
            target@,
            final(network).deep_view(),
            metrics.0,
            metrics.1 as nat,
        ),
        out matches Err(e) ==> e == NetError::ShapeMismatch && step_fails(
            old(network).deep_view(),
            inputs.deep_view(),
            target@,
            final(network).deep_view(),
        ),
{
    let ghost before = network.deep_view();
    let count: usize = network.len();
    let ran = forward(network, inputs);
    let mut outputs: Vec<Vec<Vec<Matrix<T>>>> = match ran {
        Ok(outputs) => outputs,
        Err(e) => {
            proof {
                crate::alike::lemma_no_run_no_step(before, inputs.deep_view(), target@);
            }
            return Err(NetError::ShapeMismatch);
        },
    };
    let ghost history = outputs.deep_view();
    assert(outputs@.len() == count + 1);
    let final_output: Vec<Vec<Matrix<T>>> = match outputs.pop() {
        Some(last) => last,
        None => {
            return Err(NetError::ShapeMismatch);
        },
    };
    assert(final_output.deep_view() == history[count as int]);
    assert(outputs.deep_view() =~= history.take(count as int));
    if final_output.len() == 0 || final_output[0].len() == 0 {
        proof {
            crate::alike::lemma_answers_settled(before, inputs.deep_view(), target@, history);
        }
        return Err(NetError::ShapeMismatch);
    }
    let given: &Matrix<T> = &final_output[0][0];
    assert(given@ == history[count as int][0][0]);
    if given.rows() != target.rows() || given.cols() != target.cols() {
        proof {
            crate::alike::lemma_answers_settled(before, inputs.deep_view(), target@, history);
        }
        return Err(NetError::ShapeMismatch);
    }
    let loss: T = compute_loss(given, target);
    let correct: usize = evaluate(given, target);
    let mut sample: Vec<Matrix<T>> = Vec::new();
    sample.push(combine(Binary::Minus, given, target));
    let mut deltas: Vec<Vec<Matrix<T>>> = Vec::new();
    deltas.push(sample);
    assert(deltas.deep_view() =~~= first_delta(given@, target@));
    assert(answers(before, inputs.deep_view(), target@, history));
    match backward(network, &outputs, &deltas) {
        Ok(()) => {
            assert(step_follows(
                before,
                inputs.deep_view(),
                target@,
                network.deep_view(),
                loss,
                correct as nat,
                history,
            ));
            assert(steps(before, inputs.deep_view(), target@, history));
            Ok((loss, correct))
        },
        Err(e) => {
            proof {
                crate::alike::lemma_steps_settled(before, inputs.deep_view(), target@, history);
            }
            Err(NetError::ShapeMismatch)
        },
    }
}

/// `epochs` training steps on the whole batch, one after the other; the loss and the
/// number of right answers of each step are handed back. Training ends at the first
/// step that fails. The test set is not looked at.
pub fn train<T: Transcendental>(
    network: &mut Vec<nn<T>>,
    epochs: usize,
    inputs: &Vec<Vec<Matrix<T>>>,
    test_inputs: &Vec<Vec<Matrix<T>>>,
    train_target: &Matrix<T>,
    test_target: &Matrix<T>,
) -> (out: Result<Vec<(T, usize)>, NetError>)
    ensures
        out is Ok <==> epochs == 0 || can_step(old(network).deep_view(), inputs.deep_view(), train_target@),
        out matches Ok(metrics) ==> metrics@.len() == epochs && trained(
            old(network).deep_view(),
            inputs.deep_view(),
            train_target@,
            final(network).deep_view(),
            metrics@,
            epochs as nat,
        ),
        out matches Err(e) ==> e == NetError::ShapeMismatch && step_fails(
            old(network).deep_view(),
            inputs.deep_view(),
            train_target@,
            final(network).deep_view(),
        ),
{
    let mut metrics: Vec<(T, usize)> = Vec::new();
    let mut epoch: usize = 0;
    proof {
        crate::alike::lemma_nets_alike_is_an_equivalence(
            network.deep_view(),
            network.deep_view(),
            network.deep_view(),
        );
    }
    while epoch < epochs
        invariant
            epoch <= epochs,
            metrics@.len() == epoch,
            crate::alike::nets_alike(old(network).deep_view(), network.deep_view()),
            epoch > 0 ==> can_step(old(network).deep_view(), inputs.deep_view(), train_target@),
            epoch == 0 ==> network.deep_view() == old(network).deep_view(),
            trained(
                old(network).deep_view(),
                inputs.deep_view(),
                train_target@,
                network.deep_view(),
                metrics@,
                epoch as nat,
            ),
        decreases epochs - epoch,
    {
        let ghost mid = network.deep_view();
        let ghost so_far = metrics@;
        proof {
            crate::alike::lemma_can_step_carries_over(
                old(network).deep_view(),
                mid,
                inputs.deep_view(),
                train_target@,
            );
        }
        match train_step(network, inputs, train_target) {
            Ok(step) => {
                metrics.push(step);
                proof {
                    crate::alike::lemma_step_keeps_net_geometry(
                        mid,
                        inputs.deep_view(),
                        train_target@,
                        network.deep_view(),
                        step.0,
                        step.1 as nat,
                    );
                    crate::alike::lemma_nets_alike_is_an_equivalence(
                        old(network).deep_view(),
                        mid,
                        network.deep_view(),
                    );
                    lemma_trained_extends(
                        old(network).deep_view(),
                        inputs.deep_view(),
                        train_target@,
                        mid,
                        so_far,
                        metrics@,
                        epoch as nat,
                    );
                    assert(metrics@[epoch as int] == step);
                    assert(step_result(
                        mid,
                        inputs.deep_view(),
                        train_target@,
                        network.deep_view(),
                        metrics@[epoch + 1 - 1].0,
                        metrics@[epoch + 1 - 1].1 as nat,
                    ));
                    assert(trained(
                        old(network).deep_view(),
                        inputs.deep_view(),
                        train_target@,
                        network.deep_view(),
                        metrics@,
                        (epoch + 1) as nat,
                    ));
                }
            },
            Err(e) => {
                return Err(NetError::ShapeMismatch);
            },
        }
        epoch = epoch + 1;
    }
    Ok(metrics)
}

/// What was trained stays trained when more metrics are written down.
pub proof fn lemma_trained_extends<T: Transcendental>(
    before: Seq<LayerView<T>>,
    inputs: Seq<Seq<Grid<T>>>,
    target: Grid<T>,
    after: Seq<LayerView<T>>,
    metrics: Seq<(T, usize)>,
    longer: Seq<(T, usize)>,
    epochs: nat,
)
    requires
        trained(before, inputs, target, after, metrics, epochs),
        epochs <= metrics.len() <= longer.len(),
        forall|i: int| 0 <= i < metrics.len() ==> metrics[i] == longer[i],
    ensures
        trained(before, inputs, target, after, longer, epochs),
    decreases epochs,
{
    if epochs > 0 {
        let mid = choose|mid: Seq<LayerView<T>>|
            trained(before, inputs, target, mid, metrics, (epochs - 1) as nat) && #[trigger] step_result(
                mid,
                inputs,
                target,
                after,
                metrics[epochs - 1].0,
                metrics[epochs - 1].1 as nat,
            );
        lemma_trained_extends(before, inputs, target, mid, metrics, longer, (epochs - 1) as nat);
        assert(step_result(mid, inputs, target, after, longer[epochs - 1].0, longer[epochs - 1].1 as nat));
    }
}

/// One pass over the samples, one sample at a time: each sample goes through the
/// network by itself and the network takes a training step against the sample's row of
/// the target. The sum of the losses and the number of right answers are handed back.
pub fn epoch_one_by_one<T: Transcendental>(
    network: &mut Vec<nn<T>>,
    inputs: &Vec<Vec<Matrix<T>>>,
    target: &Matrix<T>,
) -> (out: Result<(T, usize), NetError>)
    ensures
        out is Ok <==> can_pass(old(network).deep_view(), inputs.deep_view(), target@),
        out matches Ok(metrics) ==> epoch_result(
            old(network).deep_view(),
            inputs.deep_view(),
            target@,
            final(network).deep_view(),
            metrics.0,
            metrics.1 as nat,
            inputs@.len() as nat,
        ),
        out matches Err(e) ==> e == NetError::ShapeMismatch && pass_fails(
            old(network).deep_view(),
            inputs.deep_view(),
            target@,
            final(network).deep_view(),
        ),
{
    let samples: usize = inputs.len();
    let rows: usize = target.rows();
    let cols: usize = target.cols();
    let held: usize = target.len();
    if samples > rows {
        return Err(NetError::ShapeMismatch);
    }
    let mut correct: usize = 0;
    let mut loss: T = T::zero();
    let mut i: usize = 0;
    proof {
        crate::alike::lemma_nets_alike_is_an_equivalence(
            network.deep_view(),
            network.deep_view(),
            network.deep_view(),
        );
    }
    while i < samples
        invariant
            crate::alike::nets_alike(old(network).deep_view(), network.deep_view()),
            forall|j: int|
                0 <= j < i ==> can_step(
                    old(network).deep_view(),
                    seq![#[trigger] inputs.deep_view()[j]],
                    row_spec(target@, j),
                ),
            samples == inputs@.len(),
            samples <= rows,
            rows == target@.rows,
            cols == target@.cols,
            target@.wf(),
            target@.cells.len() <= usize::MAX,
            i <= samples,
            correct <= i,
            epoch_result(
                old(network).deep_view(),
                inputs.deep_view(),
                target@,
                network.deep_view(),
                loss,
                correct as nat,
                i as nat,
            ),
        decreases samples - i,
    {
        let ghost mid = network.deep_view();
        let ghost so_far = loss;
        let ghost right = correct;
        let mut batch: Vec<Vec<Matrix<T>>> = Vec::new();
        batch.push(copied_sample(&inputs[i]));
        assert(batch.deep_view() =~= seq![inputs.deep_view()[i as int]]);
        proof {
            assert((i + 1) * cols <= rows * cols) by (nonlinear_arith)
                requires
                    i + 1 <= rows,
                    cols >= 0,
            ;
            assert((i + 1) * cols == i * cols + cols) by (nonlinear_arith);
            assert(0 <= i * cols) by (nonlinear_arith)
                requires
                    0 <= i,
                    0 <= cols,
            ;
            assert(1 * cols == cols);
        }
        let label: Matrix<T> = slice_cells(target, i * cols, 1, cols);
        assert(label@ == row_spec(target@, i as int));
        proof {
            crate::alike::lemma_can_step_carries_over(old(network).deep_view(), mid, batch.deep_view(), label@);
        }
        match train_step(network, &batch, &label) {
            Ok(step) => {
                proof {
                    crate::alike::lemma_step_keeps_net_geometry(
                        mid,
                        batch.deep_view(),
                        label@,
                        network.deep_view(),
                        step.0,
                        step.1 as nat,
                    );
                    crate::alike::lemma_nets_alike_is_an_equivalence(
                        old(network).deep_view(),
                        mid,
                        network.deep_view(),
                    );
                    let history = choose|history: Seq<Seq<Seq<Grid<T>>>>|
                        step_follows(
                            mid,
                            batch.deep_view(),
                            label@,
                            network.deep_view(),
                            step.0,
                            step.1 as nat,
                            history,
                        );
                    lemma_evaluate_bound(history[mid.len() as int][0][0], label@, 1);
                }
                loss = loss.plus(step.0);
                correct = correct + step.1;
                proof {
                    assert(epoch_extends(
                        inputs.deep_view(),
                        target@,
                        network.deep_view(),
                        loss,
                        correct as nat,
                        (i + 1) as nat,
                        mid,
                        so_far,
                        step.0,
                        right as nat,
                        step.1 as nat,
                    ));
                    assert(epoch_result(
                        old(network).deep_view(),
                        inputs.deep_view(),
                        target@,
                        network.deep_view(),
                        loss,
                        correct as nat,
                        (i + 1) as nat,
                    ));
                }
            },
            Err(e) => {
                return Err(NetError::ShapeMismatch);
            },
        }
        i = i + 1;
    }
    Ok((loss, correct))
}

/// `epochs` passes over the samples, one sample at a time; the summed loss and the
/// number of right answers of each pass are handed back. Training ends at the first
/// step that fails.
pub fn train_one_by_one<T: Transcendental>(
    network: &mut Vec<nn<T>>,
    epochs: usize,
    inputs: &Vec<Vec<Matrix<T>>>,
    target: &Matrix<T>,
) -> (out: Result<Vec<(T, usize)>, NetError>)
    ensures
        out is Ok <==> epochs == 0 || can_pass(old(network).deep_view(), inputs.deep_view(), target@),
        out matches Ok(metrics) ==> metrics@.len() == epochs && trained_one_by_one(
            old(network).deep_view(),
            inputs.deep_view(),
            target@,
            final(network).deep_view(),
            metrics@,
            epochs as nat,
        ),
        out matches Err(e) ==> e == NetError::ShapeMismatch && pass_fails(
            old(network).deep_view(),
            inputs.deep_view(),
            target@,
            final(network).deep_view(),
        ),
{
    let mut metrics: Vec<(T, usize)> = Vec::new();
    let mut epoch: usize = 0;
    proof {
        crate::alike::lemma_nets_alike_is_an_equivalence(
            network.deep_view(),
            network.deep_view(),
            network.deep_view(),
        );
    }
    while epoch < epochs
        invariant
            epoch <= epochs,
            metrics@.len() == epoch,
            crate::alike::nets_alike(old(network).deep_view(), network.deep_view()),
            epoch > 0 ==> can_pass(old(network).deep_view(), inputs.deep_view(), target@),
            epoch == 0 ==> network.deep_view() == old(network).deep_view(),
            trained_one_by_one(
                old(network).deep_view(),
                inputs.deep_view(),
                target@,
                network.deep_view(),
                metrics@,
                epoch as nat,
            ),
        decreases epochs - epoch,
    {
        let ghost mid = network.deep_view();
        let ghost so_far = metrics@;
        proof {
            crate::alike::lemma_can_pass_carries_over(old(network).deep_view(), mid, inputs.deep_view(), target@);
        }
        match epoch_one_by_one(network, inputs, target) {
            Ok(pass) => {
                metrics.push(pass);
                proof {
                    crate::alike::lemma_pass_keeps_net_geometry(
                        mid,
                        inputs.deep_view(),
                        target@,
                        network.deep_view(),
                        pass.0,
                        pass.1 as nat,
                        inputs.deep_view().len(),
                    );
                    crate::alike::lemma_nets_alike_is_an_equivalence(
                        old(network).deep_view(),
                        mid,
                        network.deep_view(),
                    );
                    lemma_trained_one_by_one_extends(
                        old(network).deep_view(),
                        inputs.deep_view(),
                        target@,
                        mid,
                        so_far,
                        metrics@,
                        epoch as nat,
                    );
                    assert(metrics@[epoch as int] == pass);
                    assert(epoch_result(
                        mid,
                        inputs.deep_view(),
                        target@,
                        network.deep_view(),
                        metrics@[epoch + 1 - 1].0,
                        metrics@[epoch + 1 - 1].1 as nat,
                        inputs.deep_view().len(),
                    ));
                    assert(trained_one_by_one(
                        old(network).deep_view(),
                        inputs.deep_view(),
                        target@,
                        network.deep_view(),
                        metrics@,
                        (epoch + 1) as nat,
                    ));
                }
            },
            Err(e) => {
                return Err(NetError::ShapeMismatch);
            },
        }
        epoch = epoch + 1;
    }
    Ok(metrics)
}

/// What was trained stays trained when more metrics are written down.
pub proof fn lemma_trained_one_by_one_extends<T: Transcendental>(
    before: Seq<LayerView<T>>,
    inputs: Seq<Seq<Grid<T>>>,
    target: Grid<T>,
    after: Seq<LayerView<T>>,
    metrics: Seq<(T, usize)>,
    longer: Seq<(T, usize)>,
    epochs: nat,
)
    requires
        trained_one_by_one(before, inputs, target, after, metrics, epochs),
        epochs <= metrics.len() <= longer.len(),
        forall|i: int| 0 <= i < metrics.len() ==> metrics[i] == longer[i],
    ensures
        trained_one_by_one(before, inputs, target, after, longer, epochs),
    decreases epochs,
{
    if epochs > 0 {
        let mid = choose|mid: Seq<LayerView<T>>|
            trained_one_by_one(before, inputs, target, mid, metrics, (epochs - 1) as nat) && #[trigger] epoch_result(
                mid,
                inputs,
                target,
                after,
                metrics[epochs - 1].0,
                metrics[epochs - 1].1 as nat,
                inputs.len(),
            );
        lemma_trained_one_by_one_extends(before, inputs, target, mid, metrics, longer, (epochs - 1) as nat);
        assert(epoch_result(
            mid,
            inputs,
            target,
            after,
            longer[epochs - 1].0,
            longer[epochs - 1].1 as nat,
            inputs.len(),
        ));
    }
}

/// The share of right answers of the network on the inputs: the number of rows of what
/// the network gives in which the largest cell stands where the largest cell of the
/// target's row stands, over the number of samples.
pub fn predict<T: Transcendental>(network: &Vec<nn<T>>, test_inputs: &Vec<Vec<Matrix<T>>>, target: &Matrix<T>) -> (out:
    Result<T, NetError>)
    ensures
        out is Ok <==> answerable(network.deep_view(), test_inputs.deep_view(), target@),
        out matches Ok(accuracy) ==> predict_result(
            network.deep_view(),
            test_inputs.deep_view(),
            target@,
            accuracy,
        ),
        out matches Err(e) ==> e == NetError::ShapeMismatch,
{
    let samples: usize = test_inputs.len();
    let count: usize = network.len();
    let ran = forward(network, test_inputs);
    let mut outputs: Vec<Vec<Vec<Matrix<T>>>> = match ran {
        Ok(outputs) => outputs,
        Err(e) => {
            proof {
                crate::alike::lemma_no_run_no_step(network.deep_view(), test_inputs.deep_view(), target@);
            }
            return Err(NetError::ShapeMismatch);
        },
    };
    let ghost history = outputs.deep_view();
    assert(outputs@.len() == count + 1);
    let output: Vec<Vec<Matrix<T>>> = match outputs.pop() {
        Some(last) => last,
        None => {
            return Err(NetError::ShapeMismatch);
        },
    };
    assert(output.deep_view() == history[count as int]);
    if output.len() == 0 || output[0].len() == 0 {
        proof {
            crate::alike::lemma_answers_settled(network.deep_view(), test_inputs.deep_view(), target@, history);
        }
        return Err(NetError::ShapeMismatch);
    }
    let given: &Matrix<T> = &output[0][0];
    assert(given@ == history[count as int][0][0]);
    if given.rows() != target.rows() || given.cols() != target.cols() {
        proof {
            crate::alike::lemma_answers_settled(network.deep_view(), test_inputs.deep_view(), target@, history);
        }
        return Err(NetError::ShapeMismatch);
    }
    let correct: usize = evaluate(given, target);
    assert(answers(network.deep_view(), test_inputs.deep_view(), target@, history));
    Ok(T::count(correct).over(T::count(samples)))
}

} // verus!
