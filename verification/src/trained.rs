//! Layers as plain data, as they are written to and read from a store: numbers and
//! lists of numbers. What a layer derives from its parameters is not stored and is made
//! anew when the layer is read.

use crate::activation::Activation;
use crate::convolution::{conv_geometry, layer_of, unit_of, Conv2D, Conv2DView, Conv3D, Conv3DView};
use crate::error::NetError;
use crate::full_connected::{full_of, squares, FullLayer, FullView};
use crate::matrix::{Grid, Matrix};
use crate::network::{nn, LayerView};
use crate::pooling::{Pool, PoolView};
use crate::scalar::{Scalar, Transcendental};
use crate::shape::cal_shape_spec;
use vstd::prelude::*;

verus! {

/// The two ways between a layer and its stored form.
pub trait Convert<T, U> {
    /// The stored form of the layer.
    fn new(p: T) -> U;

    /// The layer that the stored form describes, if it describes one.
    fn to_layer(self) -> Result<T, NetError>;
}

/// A stored activation layer.
#[derive(Debug)]
pub struct ActivationJson {
    pub end: usize,
}

/// A stored pooling layer.
#[derive(Debug)]
pub struct PoolJson {
    pub width: usize,
    pub stride: usize,
    pub padding: usize,
    pub boundary: usize,
    pub out_channel: usize,
    pub input_width: usize,
}

/// A stored convolution unit: its filter and its bias, each row by row.
#[derive(Debug)]
pub struct Conv2DJson<T> {
    pub prev: usize,
    pub filter_width: usize,
    pub filter: Vec<T>,
    pub bias: Vec<T>,
    pub stride: usize,
    pub padding: usize,
    pub alpha: T,
}

/// A stored convolution layer.
#[derive(Debug)]
pub struct Conv3DJson<T> {
    pub in_channel: usize,
    pub out_channel: usize,
    pub stride: usize,
    pub padding: usize,
    pub prev_width: usize,
    pub output_width: usize,
    pub filter_width: usize,
    pub alpha: T,
    pub boundary: usize,
    pub conv2d: Vec<Vec<Conv2DJson<T>>>,
}

/// A stored dense layer: its weights and its bias, each row by row.
#[derive(Debug)]
pub struct FullJson<T> {
    pub neurons: usize,
    pub prev_neurons: usize,
    pub alpha: T,
    pub boundary: usize,
    pub weights: Vec<T>,
    pub bias: Vec<T>,
}

/// What a stored convolution unit holds.
pub ghost struct Conv2DStored<T> {
    pub prev: nat,
    pub filter_width: nat,
    pub filter: Seq<T>,
    pub bias: Seq<T>,
    pub stride: nat,
    pub padding: nat,
    pub alpha: T,
}

/// What a stored convolution layer holds.
pub ghost struct Conv3DStored<T> {
    pub in_channel: nat,
    pub out_channel: nat,
    pub stride: nat,
    pub padding: nat,
    pub prev_width: nat,
    pub output_width: nat,
    pub filter_width: nat,
    pub alpha: T,
    pub boundary: nat,
    pub conv2d: Seq<Seq<Conv2DStored<T>>>,
}

/// What a stored dense layer holds.
pub ghost struct FullStored<T> {
    pub neurons: nat,
    pub prev_neurons: nat,
    pub alpha: T,
    pub boundary: nat,
    pub weights: Seq<T>,
    pub bias: Seq<T>,
}

impl<T> View for Conv2DJson<T> {
    type V = Conv2DStored<T>;

    open spec fn view(&self) -> Conv2DStored<T> {
        Conv2DStored {
            prev: self.prev as nat,
            filter_width: self.filter_width as nat,
            filter: self.filter@,
            bias: self.bias@,
            stride: self.stride as nat,
            padding: self.padding as nat,
            alpha: self.alpha,
        }
    }
}

impl<T> DeepView for Conv2DJson<T> {
    type V = Conv2DStored<T>;

    open spec fn deep_view(&self) -> Conv2DStored<T> {
        self@
    }
}

impl<T> View for Conv3DJson<T> {
    type V = Conv3DStored<T>;

    open spec fn view(&self) -> Conv3DStored<T> {
        Conv3DStored {
            in_channel: self.in_channel as nat,
            out_channel: self.out_channel as nat,
            stride: self.stride as nat,
            padding: self.padding as nat,
            prev_width: self.prev_width as nat,
            output_width: self.output_width as nat,
            filter_width: self.filter_width as nat,
            alpha: self.alpha,
            boundary: self.boundary as nat,
            conv2d: self.conv2d.deep_view(),
        }
    }
}

impl<T> View for FullJson<T> {
    type V = FullStored<T>;

    open spec fn view(&self) -> FullStored<T> {
        FullStored {
            neurons: self.neurons as nat,
            prev_neurons: self.prev_neurons as nat,
            alpha: self.alpha,
            boundary: self.boundary as nat,
            weights: self.weights@,
            bias: self.bias@,
        }
    }
}

/// What is stored of a convolution unit.
pub open spec fn stored_unit<T>(unit: Conv2DView<T>) -> Conv2DStored<T> {
    Conv2DStored {
        prev: unit.prev,
        filter_width: unit.filter_width,
        filter: unit.filter.cells,
        bias: unit.bias.cells,
        stride: unit.stride,
        padding: unit.padding,
        alpha: unit.alpha,
    }
}

/// The filter that a stored unit describes.
pub open spec fn read_filter<T>(stored: Conv2DStored<T>) -> Grid<T> {
    Grid { rows: stored.filter_width, cols: stored.filter_width, cells: stored.filter }
}

/// The bias that a stored unit describes.
pub open spec fn read_bias<T>(stored: Conv2DStored<T>) -> Grid<T> {
    Grid {
        rows: cal_shape_spec(
            stored.prev as int,
            stored.filter_width as int,
            stored.stride as int,
            stored.padding as int,
        ) as nat,
        cols: 1,
        cells: stored.bias,
    }
}

/// The unit that a stored unit describes, if it describes one: its geometry must be
/// valid and it must hold a number for each cell of the filter and of the bias.
pub open spec fn read_unit<T: Scalar>(stored: Conv2DStored<T>) -> Option<Conv2DView<T>> {
    if conv_geometry(
        stored.prev as int,
        stored.filter_width as int,
        stored.stride as int,
        stored.padding as int,
    ) && read_filter(stored).wf() && read_bias(stored).wf() {
        Some(
            unit_of(
                stored.prev,
                stored.filter_width,
                stored.padding,
                stored.stride,
                stored.alpha,
                read_filter(stored),
                read_bias(stored),
            ),
        )
    } else {
        None
    }
}

/// What is stored of a convolution layer.
pub open spec fn stored_layer<T>(layer: Conv3DView<T>) -> Conv3DStored<T> {
    Conv3DStored {
        in_channel: layer.in_channel,
        out_channel: layer.out_channel,
        stride: layer.stride,
        padding: layer.padding,
        prev_width: layer.prev_width,
        output_width: layer.output_width,
        filter_width: layer.filter_width,
        alpha: layer.alpha,
        boundary: layer.boundary,
        conv2d: Seq::new(
            layer.conv2d.len(),
            |o: int| Seq::new(layer.conv2d[o].len(), |i: int| stored_unit(layer.conv2d[o][i])),
        ),
    }
}

/// The units that the stored units describe, where each describes one.
pub open spec fn read_units<T: Scalar>(stored: Seq<Seq<Conv2DStored<T>>>) -> Seq<Seq<Conv2DView<T>>> {
    Seq::new(stored.len(), |o: int| Seq::new(stored[o].len(), |i: int| read_unit(stored[o][i])->0))
}

/// Every stored unit describes a unit.
pub open spec fn units_readable<T: Scalar>(stored: Seq<Seq<Conv2DStored<T>>>) -> bool {
    forall|o: int, i: int|
        0 <= o < stored.len() && 0 <= i < stored[o].len() ==> read_unit(#[trigger] stored[o][i]) is Some
}

/// The layer that a stored layer describes, if it describes one: every stored unit
/// must describe a unit, and the layer made of them must be well formed and have the
/// output width that is stored.
pub open spec fn read_layer<T: Scalar>(stored: Conv3DStored<T>) -> Option<Conv3DView<T>> {
    let layer = layer_of(
        stored.in_channel,
        stored.out_channel,
        stored.stride,
        stored.padding,
        stored.prev_width,
        stored.filter_width,
        stored.alpha,
        stored.boundary,
        read_units(stored.conv2d),
    );
    if units_readable(stored.conv2d) && layer.wf() && layer.output_width == stored.output_width {
        Some(layer)
    } else {
        None
    }
}

/// What is stored of a dense layer.
pub open spec fn stored_full<T>(layer: FullView<T>) -> FullStored<T> {
    FullStored {
        neurons: layer.neurons,
        prev_neurons: layer.prev_neurons,
        alpha: layer.alpha,
        boundary: layer.boundary,
        weights: layer.weights.cells,
        bias: layer.bias.cells,
    }
}

/// The dense layer that a stored layer describes, if it describes one: it must hold a
/// number for each weight and for each cell of the bias, and its inputs must make
/// squares where it follows a spatial layer.
pub open spec fn read_full<T: Scalar>(stored: FullStored<T>) -> Option<FullView<T>> {
    let weights = Grid { rows: stored.neurons, cols: stored.prev_neurons, cells: stored.weights };
    let bias = Grid { rows: stored.neurons, cols: 1, cells: stored.bias };
    if weights.wf() && bias.wf() && squares(stored.prev_neurons, stored.boundary) {
        Some(full_of(stored.neurons, stored.prev_neurons, stored.alpha, stored.boundary, weights, bias))
    } else {
        None
    }
}

/// A unit that is stored and read again is the unit that was stored.
pub proof fn lemma_unit_round_trip<T: Scalar>(unit: Conv2DView<T>)
    requires
        unit.wf(),
    ensures
        read_unit(stored_unit(unit)) == Some(unit),
{
}

/// A convolution layer that is stored and read again is the layer that was stored, and
/// so gives what the stored layer gave for every batch.
pub proof fn lemma_layer_round_trip<T: Scalar>(layer: Conv3DView<T>, inputs: Seq<Seq<Grid<T>>>)
    requires
        layer.wf(),
    ensures
        read_layer(stored_layer(layer)) == Some(layer),
        read_layer(stored_layer(layer))->0.forward_spec(inputs) == layer.forward_spec(inputs),
{
    let stored = stored_layer(layer);
    assert forall|o: int, i: int| 0 <= o < stored.conv2d.len() && 0 <= i < stored.conv2d[o].len() implies read_unit(
        #[trigger] stored.conv2d[o][i],
    ) == Some(layer.conv2d[o][i]) by {
        assert(layer.holds(layer.conv2d[o][i]));
        lemma_unit_round_trip(layer.conv2d[o][i]);
    }
    assert(read_units(stored.conv2d) =~~= layer.conv2d) by {
        assert forall|o: int| 0 <= o < layer.conv2d.len() implies #[trigger] read_units(stored.conv2d)[o]
            =~= layer.conv2d[o] by {
            assert forall|i: int| 0 <= i < layer.conv2d[o].len() implies #[trigger] read_units(
                stored.conv2d,
            )[o][i] == layer.conv2d[o][i] by {
                assert(read_unit(stored.conv2d[o][i]) == Some(layer.conv2d[o][i]));
            }
        }
    }
}

/// A dense layer that is stored and read again is the layer that was stored, and so
/// gives what the stored layer gave for every batch.
pub proof fn lemma_full_round_trip<T: Scalar>(layer: FullView<T>, inputs: Seq<Seq<Grid<T>>>)
    requires
        layer.wf(),
    ensures
        read_full(stored_full(layer)) == Some(layer),
        read_full(stored_full(layer))->0.forward_spec(inputs) == layer.forward_spec(inputs),
{
    if layer.boundary != 0 {
        assert(layer.prev_neurons == crate::full_connected::cells_of_squares(layer.boundary, layer.width));
        crate::full_connected::lemma_square_width_unique(layer.prev_neurons, layer.boundary, layer.width);
    }
}

/// A layer of any kind that is stored and read again is the layer that was stored, and
/// so takes the same batches and gives the same for each.
pub proof fn lemma_any_round_trip<T: Transcendental>(
    layer: LayerView<T>,
    stored: LayerJson<T>,
    inputs: Seq<Seq<Grid<T>>>,
    outputs: Seq<Seq<Grid<T>>>,
)
    requires
        layer.wf(),
        stored_any(layer, stored),
    ensures
        read_any(stored) == Some(layer),
        read_any(stored)->0.accepts(inputs) == layer.accepts(inputs),
        read_any(stored)->0.produces(inputs, outputs) == layer.produces(inputs, outputs),
{
    match layer {
        LayerView::Conv(conv) => {
            lemma_layer_round_trip(conv, inputs);
        },
        LayerView::Full(f) => {
            lemma_full_round_trip(f, inputs);
        },
        _ => {},
    }
}

impl Convert<Activation, ActivationJson> for ActivationJson {
    fn new(activation: Activation) -> (stored: ActivationJson)
        ensures
            stored.end == activation.end,
    {
        ActivationJson { end: activation.end }
    }

    fn to_layer(self) -> (read: Result<Activation, NetError>)
        ensures
            read matches Ok(layer) && layer.end == self.end,
    {
        Ok(Activation { end: self.end })
    }
}

impl Convert<Pool, PoolJson> for PoolJson {
    fn new(pool: Pool) -> (stored: PoolJson)
        ensures
            stored.view_of() == pool@,
    {
        PoolJson {
            width: pool.width(),
            stride: pool.stride(),
            padding: pool.padding(),
            boundary: pool.boundary(),
            out_channel: pool.out_channel(),
            input_width: pool.input_width(),
        }
    }

    fn to_layer(self) -> (read: Result<Pool, NetError>)
        ensures
            read is Ok <==> self.view_of().wf(),
            read matches Ok(layer) ==> layer@ == self.view_of(),
            read matches Err(e) ==> e == NetError::Serialization,
    {
        match Pool::new(self.width, self.stride, self.padding, self.out_channel, self.input_width, self.boundary) {
            Ok(layer) => Ok(layer),
            Err(e) => Err(NetError::Serialization),
        }
    }
}

impl PoolJson {
    /// The pooling layer that the stored layer describes, before it has been checked.
    pub open spec fn view_of(self) -> PoolView {
        PoolView {
            width: self.width as nat,
            stride: self.stride as nat,
            padding: self.padding as nat,
            boundary: self.boundary as nat,
            out_channel: self.out_channel as nat,
            input_width: self.input_width as nat,
        }
    }
}

impl<T: Scalar> Convert<Conv2D<T>, Conv2DJson<T>> for Conv2DJson<T> {
    fn new(conv: Conv2D<T>) -> (stored: Conv2DJson<T>)
        ensures
            stored@ == stored_unit(conv@),
    {
        Conv2DJson {
            prev: conv.prev(),
            filter_width: conv.filter_width(),
            filter: conv.filter().copied().into_vec(),
            bias: conv.bias().copied().into_vec(),
            stride: conv.stride(),
            padding: conv.padding(),
            alpha: conv.alpha(),
        }
    }

    fn to_layer(self) -> (read: Result<Conv2D<T>, NetError>)
        ensures
            read is Ok <==> read_unit(self@) is Some,
            read matches Ok(unit) ==> Some(unit@) == read_unit(self@),
            read matches Err(e) ==> e == NetError::Serialization,
    {
        self.read()
    }
}

/// A copy of the list.
pub fn copied_list<T: Copy>(list: &Vec<T>) -> (out: Vec<T>)
    ensures
        out@ == list@,
{
    let count: usize = list.len();
    let mut out: Vec<T> = Vec::new();
    let mut k: usize = 0;
    while k < count
        invariant
            count == list@.len(),
            k <= count,
            out@.len() == k,
            forall|i: int| 0 <= i < k ==> out@[i] == list@[i],
        decreases count - k,
    {
        out.push(list[k]);
        k = k + 1;
    }
    assert(out@ =~= list@);
    out
}

impl<T: Scalar> Conv2DJson<T> {
    /// The unit that the stored unit describes, if it describes one.
    pub fn read(&self) -> (read: Result<Conv2D<T>, NetError>)
        ensures
            read is Ok <==> read_unit(self@) is Some,
            read matches Ok(unit) ==> Some(unit@) == read_unit(self@),
            read matches Err(e) ==> e == NetError::Serialization,
    {
        if !crate::convolution::conv_geometry_check(self.prev, self.filter_width, self.stride, self.padding) {
            return Err(NetError::Serialization);
        }
        proof {
            crate::window::lemma_across(
                self.prev as int,
                self.filter_width as int,
                self.stride as int,
                self.padding as int,
            );
        }
        let output_width: usize = crate::shape::cal_shape(self.prev, self.filter_width, self.stride, self.padding);
        let filter: Matrix<T> = match Matrix::from_shape_vec(
            self.filter_width,
            self.filter_width,
            copied_list(&self.filter),
        ) {
            Some(filter) => filter,
            None => {
                return Err(NetError::Serialization);
            },
        };
        let bias: Matrix<T> = match Matrix::from_shape_vec(output_width, 1, copied_list(&self.bias)) {
            Some(bias) => bias,
            None => {
                return Err(NetError::Serialization);
            },
        };
        match Conv2D::assemble(self.prev, self.filter_width, self.padding, self.stride, self.alpha, filter, bias) {
            Ok(unit) => Ok(unit),
            Err(e) => Err(NetError::Serialization),
        }
    }
}

impl<T: Scalar> Convert<Conv3D<T>, Conv3DJson<T>> for Conv3DJson<T> {
    fn new(conv: Conv3D<T>) -> (stored: Conv3DJson<T>)
        ensures
            stored@ == stored_layer(conv@),
    {
        let in_channel: usize = conv.in_channel();
        let out_channel: usize = conv.out_channel();
        let ghost target = stored_layer(conv@).conv2d;
        let mut conv2d: Vec<Vec<Conv2DJson<T>>> = Vec::new();
        let mut o: usize = 0;
        while o < out_channel
            invariant
                conv@.wf(),
                in_channel == conv@.in_channel,
                out_channel == conv@.out_channel,
                target == stored_layer(conv@).conv2d,
                o <= out_channel,
                conv2d@.len() == o,
                forall|j: int| 0 <= j < o ==> (#[trigger] conv2d@[j]).deep_view() == target[j],
            decreases out_channel - o,
        {
            let mut row: Vec<Conv2DJson<T>> = Vec::new();
            let mut i: usize = 0;
            while i < in_channel
                invariant
                    conv@.wf(),
                    in_channel == conv@.in_channel,
                    out_channel == conv@.out_channel,
                    target == stored_layer(conv@).conv2d,
                    o < out_channel,
                    i <= in_channel,
                    row@.len() == i,
                    forall|j: int| 0 <= j < i ==> (#[trigger] row@[j])@ == target[o as int][j],
                decreases in_channel - i,
            {
                let unit: &Conv2D<T> = conv.unit(o, i);
                row.push(
                    Conv2DJson {
                        prev: unit.prev(),
                        filter_width: unit.filter_width(),
                        filter: unit.filter().copied().into_vec(),
                        bias: unit.bias().copied().into_vec(),
                        stride: unit.stride(),
                        padding: unit.padding(),
                        alpha: unit.alpha(),
                    },
                );
                i = i + 1;
            }
            assert(row.deep_view() =~= target[o as int]);
            conv2d.push(row);
            o = o + 1;
        }
        assert(conv2d.deep_view() =~= target);
        Conv3DJson {
            in_channel,
            out_channel,
            stride: conv.stride(),
            padding: conv.padding(),
            prev_width: conv.prev_width(),
            output_width: conv.output_width(),
            filter_width: conv.filter_width(),
            alpha: conv.alpha(),
            boundary: conv.boundary(),
            conv2d,
        }
    }

    fn to_layer(self) -> (read: Result<Conv3D<T>, NetError>)
        ensures
            read is Ok <==> read_layer(self@) is Some,
            read matches Ok(layer) ==> Some(layer@) == read_layer(self@),
            read matches Err(e) ==> e == NetError::Serialization,
    {
        let lines: usize = self.conv2d.len();
        let mut units: Vec<Vec<Conv2D<T>>> = Vec::new();
        let mut o: usize = 0;
        while o < lines
            invariant
                lines == self.conv2d@.len(),
                o <= lines,
                units@.len() == o,
                forall|j: int| 0 <= j < o ==> (#[trigger] units@[j]).deep_view() == read_units(self@.conv2d)[j],
                forall|j: int, i: int|
                    0 <= j < o && 0 <= i < self@.conv2d[j].len() ==> read_unit(#[trigger] self@.conv2d[j][i])
                        is Some,
            decreases lines - o,
        {
            let count: usize = self.conv2d[o].len();
            assert(self@.conv2d[o as int] == self.conv2d@[o as int].deep_view());
            let mut row: Vec<Conv2D<T>> = Vec::new();
            let mut i: usize = 0;
            while i < count
                invariant
                    o < self.conv2d@.len(),
                    count == self.conv2d@[o as int]@.len(),
                    self@.conv2d[o as int] == self.conv2d@[o as int].deep_view(),
                    i <= count,
                    row@.len() == i,
                    forall|j: int|
                        0 <= j < i ==> Some((#[trigger] row@[j])@) == read_unit(self@.conv2d[o as int][j]),
                decreases count - i,
            {
                assert(self@.conv2d[o as int][i as int] == self.conv2d@[o as int]@[i as int]@);
                match self.conv2d[o][i].read() {
                    Ok(unit) => {
                        row.push(unit);
                    },
                    Err(e) => {
                        assert(read_unit(self@.conv2d[o as int][i as int]) is None);
                        assert(!units_readable(self@.conv2d));
                        return Err(NetError::Serialization);
                    },
                }
                i = i + 1;
            }
            assert(row.deep_view() =~= read_units(self@.conv2d)[o as int]);
            assert forall|i: int| 0 <= i < self@.conv2d[o as int].len() implies read_unit(
                #[trigger] self@.conv2d[o as int][i],
            ) is Some by {
                assert(Some(row@[i]@) == read_unit(self@.conv2d[o as int][i]));
            }
            units.push(row);
            o = o + 1;
        }
        assert(units.deep_view() =~= read_units(self@.conv2d));
        assert(units_readable(self@.conv2d));
        match Conv3D::assemble(
            self.in_channel,
            self.out_channel,
            self.stride,
            self.padding,
            self.prev_width,
            self.filter_width,
            self.alpha,
            self.boundary,
            units,
        ) {
            Ok(layer) => {
                if layer.output_width() != self.output_width {
                    return Err(NetError::Serialization);
                }
                Ok(layer)
            },
            Err(e) => Err(NetError::Serialization),
        }
    }
}

impl<T: Scalar> Convert<FullLayer<T>, FullJson<T>> for FullJson<T> {
    fn new(full: FullLayer<T>) -> (stored: FullJson<T>)
        ensures
            stored@ == stored_full(full@),
    {
        FullJson {
            neurons: full.neurons(),
            prev_neurons: full.prev_neurons(),
            alpha: full.alpha(),
            boundary: full.boundary(),
            weights: full.weights().copied().into_vec(),
            bias: full.bias().copied().into_vec(),
        }
    }

    fn to_layer(self) -> (read: Result<FullLayer<T>, NetError>)
        ensures
            read is Ok <==> read_full(self@) is Some,
            read matches Ok(layer) ==> Some(layer@) == read_full(self@),
            read matches Err(e) ==> e == NetError::Serialization,
    {
        let weights: Matrix<T> = match Matrix::from_shape_vec(
            self.neurons,
            self.prev_neurons,
            copied_list(&self.weights),
        ) {
            Some(weights) => weights,
            None => {
                return Err(NetError::Serialization);
            },
        };
        let bias: Matrix<T> = match Matrix::from_shape_vec(self.neurons, 1, copied_list(&self.bias)) {
            Some(bias) => bias,
            None => {
                return Err(NetError::Serialization);
            },
        };
        match FullLayer::assemble(self.neurons, self.prev_neurons, self.alpha, self.boundary, weights, bias) {
            Ok(layer) => Ok(layer),
            Err(e) => Err(NetError::Serialization),
        }
    }
}

/// A stored layer of one of the four kinds.
#[derive(Debug)]
pub enum LayerJson<T> {
    Conv(Conv3DJson<T>),
    Pool(PoolJson),
    Activation(ActivationJson),
    Full(FullJson<T>),
}

/// The layer that a stored layer of any kind describes, if it describes one.
pub open spec fn read_any<T: Scalar>(stored: LayerJson<T>) -> Option<LayerView<T>> {
    match stored {
        LayerJson::Conv(conv) => match read_layer(conv@) {
            Some(layer) => Some(LayerView::Conv(layer)),
            None => None,
        },
        LayerJson::Pool(p) => if p.view_of().wf() {
            Some(LayerView::Pool(p.view_of()))
        } else {
            None
        },
        LayerJson::Activation(a) => Some(LayerView::Activation(Activation { end: a.end })),
        LayerJson::Full(f) => match read_full(f@) {
            Some(layer) => Some(LayerView::Full(layer)),
            None => None,
        },
    }
}

/// What is stored of a layer of any kind.
pub open spec fn stored_any<T: Scalar>(layer: LayerView<T>, stored: LayerJson<T>) -> bool {
    match layer {
        LayerView::Conv(conv) => stored matches LayerJson::Conv(j) && j@ == stored_layer(conv),
        LayerView::Pool(p) => stored matches LayerJson::Pool(j) && j.view_of() == p,
        LayerView::Activation(a) => stored matches LayerJson::Activation(j) && j.end == a.end,
        LayerView::Full(f) => stored matches LayerJson::Full(j) && j@ == stored_full(f),
    }
}

impl<T: Scalar> Convert<nn<T>, LayerJson<T>> for LayerJson<T> {
    fn new(layer: nn<T>) -> (stored: LayerJson<T>)
        ensures
            stored_any(layer@, stored),
    {
        match layer {
            nn::Conv(conv) => LayerJson::Conv(Conv3DJson::new(conv)),
            nn::Pool(p) => LayerJson::Pool(PoolJson::new(p)),
            nn::Activation(a) => LayerJson::Activation(ActivationJson::new(a)),
            nn::Full(f) => LayerJson::Full(FullJson::new(f)),
        }
    }

    fn to_layer(self) -> (read: Result<nn<T>, NetError>)
        ensures
            read is Ok <==> read_any(self) is Some,
            read matches Ok(layer) ==> Some(layer@) == read_any(self),
            read matches Err(e) ==> e == NetError::Serialization,
    {
        match self {
            LayerJson::Conv(conv) => match conv.to_layer() {
                Ok(layer) => Ok(nn::Conv(layer)),
                Err(e) => Err(NetError::Serialization),
            },
            LayerJson::Pool(p) => match p.to_layer() {
                Ok(layer) => Ok(nn::Pool(layer)),
                Err(e) => Err(NetError::Serialization),
            },
            LayerJson::Activation(a) => match a.to_layer() {
                Ok(layer) => Ok(nn::Activation(layer)),
                Err(e) => Err(NetError::Serialization),
            },
            LayerJson::Full(f) => match f.to_layer() {
                Ok(layer) => Ok(nn::Full(layer)),
                Err(e) => Err(NetError::Serialization),
            },
        }
    }
}

/// A stored network of two rounds of convolution, rectifier and pooling, followed by two
/// dense layers with a rectifier between them and the normalised exponential at the end.
#[derive(Debug)]
pub struct NetworkGraph<T> {
    pub conv1: Conv3DJson<T>,
    pub activation1: ActivationJson,
    pub pool1: PoolJson,
    pub conv2: Conv3DJson<T>,
    pub activation2: ActivationJson,
    pub pool2: PoolJson,
    pub full1: FullJson<T>,
    pub activation3: ActivationJson,
    pub full2: FullJson<T>,
    pub activation: ActivationJson,
}

impl<T: Scalar> NetworkGraph<T> {
    /// Every stored layer of the network describes a layer.
    pub open spec fn readable(self) -> bool {
        &&& read_layer(self.conv1@) is Some
        &&& self.pool1.view_of().wf()
        &&& read_layer(self.conv2@) is Some
        &&& self.pool2.view_of().wf()
        &&& read_full(self.full1@) is Some
        &&& read_full(self.full2@) is Some
    }

    /// The layers that the stored network describes, in the order in which a batch goes
    /// through them.
    pub open spec fn layers(self) -> Seq<LayerView<T>> {
        seq![
            LayerView::Conv(read_layer(self.conv1@)->0),
            LayerView::Activation(Activation { end: self.activation1.end }),
            LayerView::Pool(self.pool1.view_of()),
            LayerView::Conv(read_layer(self.conv2@)->0),
            LayerView::Activation(Activation { end: self.activation2.end }),
            LayerView::Pool(self.pool2.view_of()),
            LayerView::Full(read_full(self.full1@)->0),
            LayerView::Activation(Activation { end: self.activation3.end }),
            LayerView::Full(read_full(self.full2@)->0),
            LayerView::Activation(Activation { end: self.activation.end }),
        ]
    }

    /// The network that the stored network describes, if every stored layer describes a
    /// layer.
    pub fn to_layer(self) -> (read: Result<Vec<nn<T>>, NetError>)
        ensures
            read is Ok <==> self.readable(),
            read matches Ok(network) ==> network.deep_view() == self.layers(),
            read matches Err(e) ==> e == NetError::Serialization,
    {
        let conv1 = match self.conv1.to_layer() {
            Ok(layer) => layer,
            Err(e) => {
                return Err(NetError::Serialization);
            },
        };
        let pool1 = match self.pool1.to_layer() {
            Ok(layer) => layer,
            Err(e) => {
                return Err(NetError::Serialization);
            },
        };
        let conv2 = match self.conv2.to_layer() {
            Ok(layer) => layer,
            Err(e) => {
                return Err(NetError::Serialization);
            },
        };
        let pool2 = match self.pool2.to_layer() {
            Ok(layer) => layer,
            Err(e) => {
                return Err(NetError::Serialization);
            },
        };
        let full1 = match self.full1.to_layer() {
            Ok(layer) => layer,
            Err(e) => {
                return Err(NetError::Serialization);
            },
        };
        let full2 = match self.full2.to_layer() {
            Ok(layer) => layer,
            Err(e) => {
                return Err(NetError::Serialization);
            },
        };
        let mut network: Vec<nn<T>> = Vec::new();
        network.push(nn::Conv(conv1));
        network.push(nn::Activation(Activation::new(self.activation1.end)));
        network.push(nn::Pool(pool1));
        network.push(nn::Conv(conv2));
        network.push(nn::Activation(Activation::new(self.activation2.end)));
        network.push(nn::Pool(pool2));
        network.push(nn::Full(full1));
        network.push(nn::Activation(Activation::new(self.activation3.end)));
        network.push(nn::Full(full2));
        network.push(nn::Activation(Activation::new(self.activation.end)));
        assert(network.deep_view() =~= self.layers());
        Ok(network)
    }
}

} // verus!
