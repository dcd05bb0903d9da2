//! Whether a layer takes a batch, and the shapes of what it gives, depend on the shapes of
//! the batch alone, whatever its cells hold.

use crate::activation::{
    exp_list, normalised_spec, relu_backward_spec, relu_batch_spec, softmax_arguments, softmax_result, Activation,
};
use crate::batch::{batch_channels, batch_shaped, same_counts, same_shapes, sample_shaped};
use crate::convolution::{Conv2DView, Conv3DView};
use crate::full_connected::FullView;
use crate::matrix::Grid;
use crate::network::{
    answerable, answers, back, back_delta, back_net, can_pass, can_step, completes, epoch_extends, epoch_result,
    first_delta, row_spec, runs, stalls, step_follows, step_result, steps, LayerView,
};
use crate::pooling::PoolView;
use crate::reshape::{sample_cells, samples_hold};
use crate::scalar::Transcendental;
use vstd::prelude::*;

verus! {

/// The two grids have the same shape and as many cells.
pub open spec fn like<T>(a: Grid<T>, b: Grid<T>) -> bool {
    a.rows == b.rows && a.cols == b.cols && a.cells.len() == b.cells.len()
}

/// The two batches have as many samples, in each sample as many channels, and in each
/// channel the same shape and as many cells.
pub open spec fn alike<T>(x: Seq<Seq<Grid<T>>>, y: Seq<Seq<Grid<T>>>) -> bool {
    &&& x.len() == y.len()
    &&& forall|s: int| 0 <= s < x.len() ==> (#[trigger] x[s]).len() == y[s].len()
    &&& forall|s: int, c: int| 0 <= s < x.len() && 0 <= c < x[s].len() ==> like(#[trigger] x[s][c], y[s][c])
}

/// Every matrix of the batch has the given shape and as many cells as that shape has.
pub open spec fn all_like<T>(x: Seq<Seq<Grid<T>>>, channels: nat, rows: nat, cols: nat, cells: nat) -> bool {
    &&& forall|s: int| 0 <= s < x.len() ==> (#[trigger] x[s]).len() == channels
    &&& forall|s: int, c: int|
        0 <= s < x.len() && 0 <= c < x[s].len() ==> (#[trigger] x[s][c]).rows == rows && x[s][c].cols == cols
            && x[s][c].cells.len() == cells
}

/// Batches that are alike are shaped alike.
pub proof fn lemma_shaped_alike<T>(x: Seq<Seq<Grid<T>>>, y: Seq<Seq<Grid<T>>>, rows: int, cols: int)
    requires
        alike(x, y),
    ensures
        batch_shaped(x, rows, cols) == batch_shaped(y, rows, cols),
        forall|channels: int| batch_channels(x, channels) == batch_channels(y, channels),
{
    if batch_shaped(x, rows, cols) {
        assert forall|s: int| 0 <= s < y.len() implies sample_shaped(#[trigger] y[s], rows, cols) by {
            assert(sample_shaped(x[s], rows, cols));
            assert(x[s].len() == y[s].len());
            assert forall|c: int| 0 <= c < y[s].len() implies (#[trigger] y[s][c]).wf() && y[s][c].has_shape(
                rows,
                cols,
            ) by {
                assert(like(x[s][c], y[s][c]));
                assert(x[s][c].wf());
            }
        }
    }
    if batch_shaped(y, rows, cols) {
        assert forall|s: int| 0 <= s < x.len() implies sample_shaped(#[trigger] x[s], rows, cols) by {
            assert(sample_shaped(y[s], rows, cols));
            assert(x[s].len() == y[s].len());
            assert forall|c: int| 0 <= c < x[s].len() implies (#[trigger] x[s][c]).wf() && x[s][c].has_shape(
                rows,
                cols,
            ) by {
                assert(like(x[s][c], y[s][c]));
                assert(y[s][c].wf());
            }
        }
    }
    assert forall|channels: int| batch_channels(x, channels) == batch_channels(y, channels) by {
        if batch_channels(x, channels) {
            assert forall|s: int| 0 <= s < y.len() implies (#[trigger] y[s]).len() == channels by {
                assert(x[s].len() == y[s].len());
            }
        }
        if batch_channels(y, channels) {
            assert forall|s: int| 0 <= s < x.len() implies (#[trigger] x[s]).len() == channels by {
                assert(x[s].len() == y[s].len());
            }
        }
    }
}

/// Samples that are alike hold as many cells.
pub proof fn lemma_sample_cells_alike<T>(a: Seq<Grid<T>>, b: Seq<Grid<T>>, n: nat)
    requires
        n <= a.len(),
        n <= b.len(),
        forall|c: int| 0 <= c < n ==> like(#[trigger] a[c], b[c]),
    ensures
        sample_cells(a, n).len() == sample_cells(b, n).len(),
    decreases n,
{
    if n > 0 {
        lemma_sample_cells_alike(a, b, (n - 1) as nat);
        assert(like(a[n - 1], b[n - 1]));
    }
}

/// Batches that are alike hold as many cells in each sample.
pub proof fn lemma_samples_hold_alike<T>(x: Seq<Seq<Grid<T>>>, y: Seq<Seq<Grid<T>>>, cells: nat)
    requires
        alike(x, y),
    ensures
        samples_hold(x, cells) == samples_hold(y, cells),
{
    assert forall|s: int| 0 <= s < x.len() implies sample_cells(#[trigger] x[s], x[s].len()).len() == sample_cells(
        y[s],
        y[s].len(),
    ).len() by {
        assert(x[s].len() == y[s].len());
        assert forall|c: int| 0 <= c < x[s].len() implies like(#[trigger] x[s][c], y[s][c]) by {}
        lemma_sample_cells_alike(x[s], y[s], x[s].len());
    }
    if samples_hold(x, cells) {
        assert forall|s: int| 0 <= s < y.len() implies sample_cells(#[trigger] y[s], y[s].len()).len() == cells by {
            assert(sample_cells(x[s], x[s].len()).len() == cells);
        }
    }
    if samples_hold(y, cells) {
        assert forall|s: int| 0 <= s < x.len() implies sample_cells(#[trigger] x[s], x[s].len()).len() == cells by {
            assert(sample_cells(y[s], y[s].len()).len() == cells);
        }
    }
}

/// Two batches with as many samples whose matrices all have one shape are alike.
pub proof fn lemma_all_like_alike<T>(
    x: Seq<Seq<Grid<T>>>,
    y: Seq<Seq<Grid<T>>>,
    channels: nat,
    rows: nat,
    cols: nat,
    cells: nat,
)
    requires
        x.len() == y.len(),
        all_like(x, channels, rows, cols, cells),
        all_like(y, channels, rows, cols, cells),
    ensures
        alike(x, y),
{
    assert forall|s: int| 0 <= s < x.len() implies (#[trigger] x[s]).len() == y[s].len() by {
        assert(y[s].len() == channels);
    }
    assert forall|s: int, c: int| 0 <= s < x.len() && 0 <= c < x[s].len() implies like(#[trigger] x[s][c], y[s][c]) by {
        assert(y[s].len() == channels);
        assert(y[s][c].rows == rows);
    }
}

/// The two layers are of one kind and have the same geometry: they differ at most in
/// what their parameters hold.
pub open spec fn same_geometry<T>(a: LayerView<T>, b: LayerView<T>) -> bool {
    match a {
        LayerView::Conv(x) => b matches LayerView::Conv(y) && x.in_channel == y.in_channel && x.out_channel
            == y.out_channel && x.stride == y.stride && x.padding == y.padding && x.prev_width == y.prev_width
            && x.output_width == y.output_width && x.filter_width == y.filter_width && x.boundary == y.boundary,
        LayerView::Pool(x) => b matches LayerView::Pool(y) && x == y,
        LayerView::Activation(x) => b matches LayerView::Activation(y) && x.end == y.end,
        LayerView::Full(x) => b matches LayerView::Full(y) && x.neurons == y.neurons && x.prev_neurons
            == y.prev_neurons && x.boundary == y.boundary && x.width == y.width && like(x.weights, y.weights)
            && like(x.bias, y.bias),
    }
}

/// The two networks have as many layers, and layer by layer the same geometry.
pub open spec fn nets_alike<T>(a: Seq<LayerView<T>>, b: Seq<LayerView<T>>) -> bool {
    &&& a.len() == b.len()
    &&& forall|i: int| 0 <= i < a.len() ==> same_geometry(#[trigger] a[i], b[i])
}

/// Having the same geometry goes both ways and carries over.
pub proof fn lemma_nets_alike_is_an_equivalence<T>(a: Seq<LayerView<T>>, b: Seq<LayerView<T>>, c: Seq<LayerView<T>>)
    ensures
        nets_alike(a, a),
        nets_alike(a, b) ==> nets_alike(b, a),
        nets_alike(a, b) && nets_alike(b, c) ==> nets_alike(a, c),
{
    assert forall|i: int| 0 <= i < a.len() implies same_geometry(#[trigger] a[i], a[i]) by {}
    if nets_alike(a, b) {
        assert forall|i: int| 0 <= i < b.len() implies same_geometry(#[trigger] b[i], a[i]) by {
            assert(same_geometry(a[i], b[i]));
        }
        if nets_alike(b, c) {
            assert forall|i: int| 0 <= i < a.len() implies same_geometry(#[trigger] a[i], c[i]) by {
                assert(same_geometry(a[i], b[i]));
                assert(same_geometry(b[i], c[i]));
            }
        }
    }
}

/// What the units of a row give, added up, has the shape of the layer's output.
pub proof fn lemma_channel_forward_shape<T: Transcendental>(
    layer: Conv3DView<T>,
    units: Seq<Conv2DView<T>>,
    sample: Seq<Grid<T>>,
    n: nat,
)
    ensures
        layer.channel_forward(units, sample, n).rows == layer.output_width,
        layer.channel_forward(units, sample, n).cols == layer.output_width,
        layer.channel_forward(units, sample, n).cells.len() == layer.output_width * layer.output_width,
    decreases n,
{
    if n > 0 {
        lemma_channel_forward_shape(layer, units, sample, (n - 1) as nat);
    }
}

/// What a convolution layer gives has, for every sample, a square matrix of the output
/// width for each output channel.
pub proof fn lemma_conv_forward_shape<T: Transcendental>(layer: Conv3DView<T>, x: Seq<Seq<Grid<T>>>)
    ensures
        layer.forward_spec(x).len() == x.len(),
        all_like(
            layer.forward_spec(x),
            layer.out_channel,
            layer.output_width,
            layer.output_width,
            layer.output_width * layer.output_width,
        ),
{
    let y = layer.forward_spec(x);
    assert forall|s: int, c: int| 0 <= s < y.len() && 0 <= c < y[s].len() implies (#[trigger] y[s][c]).rows
        == layer.output_width && y[s][c].cols == layer.output_width && y[s][c].cells.len() == layer.output_width
        * layer.output_width by {
        lemma_channel_forward_shape(layer, layer.conv2d[c], x[s], layer.in_channel);
    }
}

/// What the units of a column give back, added up, has the shape of the layer's input.
pub proof fn lemma_channel_backward_shape<T: Transcendental>(layer: Conv3DView<T>, delta: Seq<Grid<T>>, i: int, n: nat)
    ensures
        layer.channel_backward(delta, i, n).rows == layer.prev_width,
        layer.channel_backward(delta, i, n).cols == layer.prev_width,
        layer.channel_backward(delta, i, n).cells.len() == layer.prev_width * layer.prev_width,
    decreases n,
{
    if n > 0 {
        lemma_channel_backward_shape(layer, delta, i, (n - 1) as nat);
    }
}

/// What a convolution layer hands back has, for every sample, a square matrix of the
/// input width for each input channel.
pub proof fn lemma_conv_backward_shape<T: Transcendental>(layer: Conv3DView<T>, d: Seq<Seq<Grid<T>>>, x: Seq<Seq<Grid<T>>>)
    ensures
        layer.backward_spec(d, x).len() == d.len(),
        all_like(
            layer.backward_spec(d, x),
            layer.in_channel,
            layer.prev_width,
            layer.prev_width,
            layer.prev_width * layer.prev_width,
        ),
{
    let y = layer.backward_spec(d, x);
    let stepped = layer.updated_spec(d, x);
    assert forall|s: int, c: int| 0 <= s < y.len() && 0 <= c < y[s].len() implies (#[trigger] y[s][c]).rows
        == layer.prev_width && y[s][c].cols == layer.prev_width && y[s][c].cells.len() == layer.prev_width
        * layer.prev_width by {
        lemma_channel_backward_shape(stepped, layer.restored(d[s]), c, stepped.out_channel);
    }
}

/// What a pooling layer gives for batches that are alike is alike.
pub proof fn lemma_pool_forward_alike<T: Transcendental>(layer: PoolView, x: Seq<Seq<Grid<T>>>, y: Seq<Seq<Grid<T>>>)
    requires
        alike(x, y),
    ensures
        alike(layer.forward_spec(x), layer.forward_spec(y)),
{
    let fx = layer.forward_spec(x);
    let fy = layer.forward_spec(y);
    assert forall|s: int| 0 <= s < fx.len() implies (#[trigger] fx[s]).len() == fy[s].len() by {
        assert(x[s].len() == y[s].len());
    }
    assert forall|s: int, c: int| 0 <= s < fx.len() && 0 <= c < fx[s].len() implies like(#[trigger] fx[s][c], fy[s][c]) by {
        assert(x[s].len() == y[s].len());
        assert(like(x[s][c], y[s][c]));
    }
}

/// What a pooling layer hands back for gradients that are alike is alike.
pub proof fn lemma_pool_backward_alike<T: Transcendental>(
    layer: PoolView,
    x: Seq<Seq<Grid<T>>>,
    y: Seq<Seq<Grid<T>>>,
    d: Seq<Seq<Grid<T>>>,
    e: Seq<Seq<Grid<T>>>,
)
    requires
        alike(d, e),
    ensures
        alike(layer.backward_spec(x, d), layer.backward_spec(y, e)),
{
    let fx = layer.backward_spec(x, d);
    let fy = layer.backward_spec(y, e);
    assert forall|s: int| 0 <= s < fx.len() implies (#[trigger] fx[s]).len() == fy[s].len() by {
        assert(d[s].len() == e[s].len());
    }
    assert forall|s: int, c: int| 0 <= s < fx.len() && 0 <= c < fx[s].len() implies like(#[trigger] fx[s][c], fy[s][c]) by {
        assert(d[s].len() == e[s].len());
    }
}

/// What an activation layer may give for batches that are alike is alike.
pub proof fn lemma_activation_forward_alike<T: Transcendental>(
    layer: Activation,
    x: Seq<Seq<Grid<T>>>,
    y: Seq<Seq<Grid<T>>>,
    fx: Seq<Seq<Grid<T>>>,
    fy: Seq<Seq<Grid<T>>>,
)
    requires
        alike(x, y),
        layer.accepts(x),
        layer.produces(x, fx),
        layer.produces(y, fy),
    ensures
        alike(fx, fy),
{
    if layer.end == 1 {
        assert forall|s: int| 0 <= s < fx.len() implies (#[trigger] fx[s]).len() == fy[s].len() by {
            assert(fy[s].len() == 1);
        }
        assert forall|s: int, c: int| 0 <= s < fx.len() && 0 <= c < fx[s].len() implies like(
            #[trigger] fx[s][c],
            fy[s][c],
        ) by {
            assert(fx[s].len() == 1 && softmax_result(x[s][0], fx[s][0]));
            assert(fy[s].len() == 1 && softmax_result(y[s][0], fy[s][0]));
            assert(x[s].len() >= 1);
            assert(like(x[s][0], y[s][0]));
        }
    } else {
        assert(fx == relu_batch_spec(x));
        assert(fy == relu_batch_spec(y));
        assert forall|s: int| 0 <= s < fx.len() implies (#[trigger] fx[s]).len() == fy[s].len() by {
            assert(x[s].len() == y[s].len());
        }
        assert forall|s: int, c: int| 0 <= s < fx.len() && 0 <= c < fx[s].len() implies like(
            #[trigger] fx[s][c],
            fy[s][c],
        ) by {
            assert(x[s].len() == y[s].len());
            assert(like(x[s][c], y[s][c]));
        }
    }
}

/// Batches that are alike have the same shapes as batches that are alike.
pub proof fn lemma_same_shapes_alike<T>(
    x: Seq<Seq<Grid<T>>>,
    y: Seq<Seq<Grid<T>>>,
    d: Seq<Seq<Grid<T>>>,
    e: Seq<Seq<Grid<T>>>,
)
    requires
        alike(x, y),
        alike(d, e),
        same_shapes(x, d),
    ensures
        same_shapes(y, e),
{
    assert forall|s: int| 0 <= s < y.len() implies (#[trigger] y[s]).len() == e[s].len() by {
        assert(x[s].len() == y[s].len());
        assert(d[s].len() == e[s].len());
        assert(x[s].len() == d[s].len());
    }
    assert forall|s: int, c: int| 0 <= s < y.len() && 0 <= c < y[s].len() implies (#[trigger] y[s][c]).rows
        == e[s][c].rows && y[s][c].cols == e[s][c].cols by {
        assert(x[s].len() == y[s].len());
        assert(x[s].len() == d[s].len());
        assert(like(x[s][c], y[s][c]));
        assert(like(d[s][c], e[s][c]));
        assert(x[s][c].rows == d[s][c].rows);
    }
}

/// Batches that are alike have as many samples and channels as batches that are alike.
pub proof fn lemma_same_counts_alike<T>(
    x: Seq<Seq<Grid<T>>>,
    y: Seq<Seq<Grid<T>>>,
    d: Seq<Seq<Grid<T>>>,
    e: Seq<Seq<Grid<T>>>,
)
    requires
        alike(x, y),
        alike(d, e),
        same_counts(x, d),
    ensures
        same_counts(y, e),
{
    assert forall|s: int| 0 <= s < y.len() implies (#[trigger] y[s]).len() == e[s].len() by {
        assert(x[s].len() == y[s].len());
        assert(d[s].len() == e[s].len());
        assert(x[s].len() == d[s].len());
    }
}

/// Dense layers of one geometry take both or neither of two batches that are alike,
/// and flatten them to matrices of one shape.
pub proof fn lemma_full_accepts_alike<T: Transcendental>(
    a: FullView<T>,
    b: FullView<T>,
    x: Seq<Seq<Grid<T>>>,
    y: Seq<Seq<Grid<T>>>,
)
    requires
        same_geometry(LayerView::Full(a), LayerView::Full(b)),
        alike(x, y),
    ensures
        a.accepts(x) == b.accepts(y),
        a.accepts(x) ==> a.flat_input(x).rows == b.flat_input(y).rows && a.flat_input(x).cols == b.flat_input(y).cols,
{
    lemma_samples_hold_alike(x, y, a.prev_neurons);
    lemma_shaped_alike(x, y, 0, 0);
}

/// Layers of one geometry take both or neither of two batches that are alike.
pub proof fn lemma_accepts_alike<T: Transcendental>(
    a: LayerView<T>,
    b: LayerView<T>,
    x: Seq<Seq<Grid<T>>>,
    y: Seq<Seq<Grid<T>>>,
)
    requires
        same_geometry(a, b),
        alike(x, y),
    ensures
        a.accepts(x) == b.accepts(y),
{
    match a {
        LayerView::Conv(conv) => {
            lemma_shaped_alike(x, y, conv.prev_width as int, conv.prev_width as int);
        },
        LayerView::Pool(p) => {
            lemma_shaped_alike(x, y, p.input_width as int, p.input_width as int);
        },
        LayerView::Activation(act) => {
            if act.end == 1 {
                if act.accepts(x) {
                    assert forall|s: int| 0 <= s < y.len() implies (#[trigger] y[s]).len() >= 1 by {
                        assert(x[s].len() == y[s].len());
                    }
                }
                if b.accepts(y) {
                    assert forall|s: int| 0 <= s < x.len() implies (#[trigger] x[s]).len() >= 1 by {
                        assert(x[s].len() == y[s].len());
                    }
                }
            }
        },
        LayerView::Full(f) => {
            lemma_full_accepts_alike(f, b->Full_0, x, y);
        },
    }
}

/// What layers of one geometry may give for two batches that are alike and that they
/// take is alike.
pub proof fn lemma_produces_alike<T: Transcendental>(
    a: LayerView<T>,
    b: LayerView<T>,
    x: Seq<Seq<Grid<T>>>,
    y: Seq<Seq<Grid<T>>>,
    fx: Seq<Seq<Grid<T>>>,
    fy: Seq<Seq<Grid<T>>>,
)
    requires
        same_geometry(a, b),
        alike(x, y),
        a.accepts(x),
        a.produces(x, fx),
        b.produces(y, fy),
    ensures
        alike(fx, fy),
{
    match a {
        LayerView::Conv(conv) => {
            lemma_conv_forward_shape(conv, x);
            lemma_conv_forward_shape(b->Conv_0, y);
            lemma_all_like_alike(
                fx,
                fy,
                conv.out_channel,
                conv.output_width,
                conv.output_width,
                conv.output_width * conv.output_width,
            );
        },
        LayerView::Pool(p) => {
            lemma_pool_forward_alike(p, x, y);
        },
        LayerView::Activation(act) => {
            lemma_activation_forward_alike(act, x, y, fx, fy);
        },
        LayerView::Full(f) => {
            lemma_full_accepts_alike(f, b->Full_0, x, y);
            assert(fx.len() == 1 && fy.len() == 1);
            assert(fx[0].len() == 1 && fy[0].len() == 1);
            assert(like(fx[0][0], fy[0][0]));
        },
    }
}

/// Layers of one geometry take back both or neither of two gradients that are alike,
/// for batches that are alike.
pub proof fn lemma_accepts_backward_alike<T: Transcendental>(
    a: LayerView<T>,
    b: LayerView<T>,
    x: Seq<Seq<Grid<T>>>,
    y: Seq<Seq<Grid<T>>>,
    d: Seq<Seq<Grid<T>>>,
    e: Seq<Seq<Grid<T>>>,
)
    requires
        same_geometry(a, b),
        alike(x, y),
        alike(d, e),
        a.accepts_backward(x, d),
    ensures
        b.accepts_backward(y, e),
{
    lemma_accepts_alike(a, b, x, y);
    match a {
        LayerView::Conv(conv) => {
            let other = b->Conv_0;
            assert forall|s: int| 0 <= s < e.len() implies other.restorable(#[trigger] e[s]) by {
                assert(conv.restorable(d[s]));
                assert(d[s].len() == e[s].len());
                if conv.boundary == 1 {
                    assert(like(d[s][0], e[s][0]));
                } else {
                    assert forall|c: int| 0 <= c < e[s].len() implies (#[trigger] e[s][c]).wf() && e[s][c].has_shape(
                        other.output_width as int,
                        other.output_width as int,
                    ) by {
                        assert(like(d[s][c], e[s][c]));
                        assert(d[s][c].wf());
                    }
                }
            }
        },
        LayerView::Pool(p) => {
            lemma_shaped_alike(d, e, p.output_width(), p.output_width());
            lemma_same_counts_alike(x, y, d, e);
        },
        LayerView::Activation(act) => {
            if act.end != 1 {
                lemma_same_shapes_alike(x, y, d, e);
            }
        },
        LayerView::Full(f) => {
            lemma_full_accepts_alike(f, b->Full_0, x, y);
            assert(d[0].len() == e[0].len());
            assert(like(d[0][0], e[0][0]));
        },
    }
}

/// What layers of one geometry hand back for gradients that are alike, for batches that
/// are alike, is alike.
pub proof fn lemma_backward_alike<T: Transcendental>(
    a: LayerView<T>,
    b: LayerView<T>,
    x: Seq<Seq<Grid<T>>>,
    y: Seq<Seq<Grid<T>>>,
    d: Seq<Seq<Grid<T>>>,
    e: Seq<Seq<Grid<T>>>,
)
    requires
        same_geometry(a, b),
        alike(x, y),
        alike(d, e),
        a.accepts_backward(x, d),
    ensures
        alike(a.backward_spec(x, d), b.backward_spec(y, e)),
{
    let fx = a.backward_spec(x, d);
    let fy = b.backward_spec(y, e);
    match a {
        LayerView::Conv(conv) => {
            lemma_conv_backward_shape(conv, d, x);
            lemma_conv_backward_shape(b->Conv_0, e, y);
            lemma_all_like_alike(
                fx,
                fy,
                conv.in_channel,
                conv.prev_width,
                conv.prev_width,
                conv.prev_width * conv.prev_width,
            );
        },
        LayerView::Pool(p) => {
            lemma_pool_backward_alike(p, x, y, d, e);
        },
        LayerView::Activation(act) => {
            if act.end != 1 {
                assert(fx == relu_backward_spec(x, d));
                assert(fy == relu_backward_spec(y, e));
                assert forall|s: int| 0 <= s < fx.len() implies (#[trigger] fx[s]).len() == fy[s].len() by {
                    assert(d[s].len() == e[s].len());
                }
                assert forall|s: int, c: int| 0 <= s < fx.len() && 0 <= c < fx[s].len() implies like(
                    #[trigger] fx[s][c],
                    fy[s][c],
                ) by {
                    assert(d[s].len() == e[s].len());
                    assert(like(d[s][c], e[s][c]));
                }
            }
        },
        LayerView::Full(f) => {
            let g = b->Full_0;
            assert(d[0].len() == e[0].len());
            assert(like(d[0][0], e[0][0]));
            if f.boundary == 0 {
                lemma_shaped_alike(x, y, 0, 0);
                assert forall|s: int| 0 <= s < fx.len() implies (#[trigger] fx[s]).len() == fy[s].len() by {}
                assert forall|s: int, c: int| 0 <= s < fx.len() && 0 <= c < fx[s].len() implies like(
                    #[trigger] fx[s][c],
                    fy[s][c],
                ) by {
                    assert(x[s].len() == 1);
                    assert(like(x[s][0], y[s][0]));
                }
            } else {
                assert forall|s: int| 0 <= s < fx.len() implies (#[trigger] fx[s]).len() == fy[s].len() by {}
                assert forall|s: int, c: int| 0 <= s < fx.len() && 0 <= c < fx[s].len() implies like(
                    #[trigger] fx[s][c],
                    fy[s][c],
                ) by {}
            }
        },
    }
}

/// A layer keeps its geometry when it takes its step.
pub proof fn lemma_step_keeps_geometry<T: Transcendental>(a: LayerView<T>, x: Seq<Seq<Grid<T>>>, d: Seq<Seq<Grid<T>>>)
    ensures
        same_geometry(a, a.updated_spec(x, d)),
{
}

/// Two runs of the first `k` layers of networks of one geometry on batches that are
/// alike give batches that are alike after every layer.
pub proof fn lemma_runs_alike<T: Transcendental>(
    net: Seq<LayerView<T>>,
    other: Seq<LayerView<T>>,
    first: Seq<Seq<Seq<Grid<T>>>>,
    second: Seq<Seq<Seq<Grid<T>>>>,
    k: nat,
    i: nat,
)
    requires
        nets_alike(net, other),
        runs(net, first, k),
        runs(other, second, k),
        alike(first[0], second[0]),
        i <= k,
    ensures
        alike(first[i as int], second[i as int]),
    decreases i,
{
    if i > 0 {
        lemma_runs_alike(net, other, first, second, k, (i - 1) as nat);
        assert(same_geometry(net[i - 1], other[i - 1]));
        assert(net[i - 1].accepts(first[i - 1]) && net[i - 1].produces(first[i - 1], first[i - 1 + 1]));
        assert(other[i - 1].accepts(second[i - 1]) && other[i - 1].produces(second[i - 1], second[i - 1 + 1]));
        lemma_produces_alike(
            net[i - 1],
            other[i - 1],
            first[i - 1],
            second[i - 1],
            first[i as int],
            second[i as int],
        );
    }
}

/// Every batch is like itself.
pub proof fn lemma_alike_is_reflexive<T>(x: Seq<Seq<Grid<T>>>)
    ensures
        alike(x, x),
{
}

/// The beginning of a run is a run.
pub proof fn lemma_run_begins<T: Transcendental>(net: Seq<LayerView<T>>, history: Seq<Seq<Seq<Grid<T>>>>, k: nat, i: nat)
    requires
        runs(net, history, k),
        i <= k,
    ensures
        runs(net, history.take(i as int + 1), i),
{
    let begun = history.take(i as int + 1);
    assert forall|j: int| 0 <= j < i implies (#[trigger] net[j]).accepts(begun[j]) && net[j].produces(
        begun[j],
        begun[j + 1],
    ) by {
        assert(net[j].accepts(history[j]) && net[j].produces(history[j], history[j + 1]));
    }
}

/// Where one run on a batch stalls, no run on that batch goes through the whole
/// network: whether a network takes a batch does not depend on what the exponential
/// gives.
pub proof fn lemma_stalled_never_completes<T: Transcendental>(
    net: Seq<LayerView<T>>,
    input: Seq<Seq<Grid<T>>>,
    history: Seq<Seq<Seq<Grid<T>>>>,
    k: nat,
)
    requires
        stalls(net, input, history, k),
    ensures
        !completes(net, input),
{
    if completes(net, input) {
        let whole = choose|whole: Seq<Seq<Seq<Grid<T>>>>| #[trigger] runs(net, whole, net.len()) && whole[0] == input;
        lemma_run_begins(net, whole, net.len(), k);
        let begun = whole.take(k as int + 1);
        lemma_alike_is_reflexive(input);
        lemma_nets_alike_is_an_equivalence(net, net, net);
        lemma_runs_alike(net, net, history, begun, k, k);
        lemma_accepts_alike(net[k as int], net[k as int], history[k as int], begun[k as int]);
        assert(net[k as int].accepts(whole[k as int]));
    }
}

/// The layers keep their geometry on the way back.
pub proof fn lemma_back_keeps_geometry<T: Transcendental>(
    net: Seq<LayerView<T>>,
    inputs: Seq<Seq<Seq<Grid<T>>>>,
    delta: Seq<Seq<Grid<T>>>,
    k: nat,
)
    requires
        back(net, inputs, delta, k) is Some,
    ensures
        nets_alike(net, back_net(back(net, inputs, delta, k))),
    decreases net.len() - k,
{
    lemma_nets_alike_is_an_equivalence(net, net, net);
    if k < net.len() {
        lemma_back_keeps_geometry(net, inputs, delta, k + 1);
        let after = back_net(back(net, inputs, delta, k + 1));
        let given = back_delta(back(net, inputs, delta, k + 1));
        let last = back_net(back(net, inputs, delta, k));
        assert forall|i: int| 0 <= i < net.len() implies same_geometry(#[trigger] net[i], last[i]) by {
            assert(same_geometry(net[i], after[i]));
            lemma_step_keeps_geometry(after[k as int], inputs[k as int], given);
        }
    }
}

/// Whether the layers of networks of one geometry take their steps on the way back, and
/// the shapes of the gradient that comes out at the front, depend on the shapes of the
/// batches and of the gradient alone.
pub proof fn lemma_back_alike<T: Transcendental>(
    net: Seq<LayerView<T>>,
    other: Seq<LayerView<T>>,
    inputs: Seq<Seq<Seq<Grid<T>>>>,
    others: Seq<Seq<Seq<Grid<T>>>>,
    delta: Seq<Seq<Grid<T>>>,
    gradient: Seq<Seq<Grid<T>>>,
    k: nat,
)
    requires
        nets_alike(net, other),
        inputs.len() == net.len(),
        others.len() == net.len(),
        forall|i: int| 0 <= i < net.len() ==> alike(#[trigger] inputs[i], others[i]),
        alike(delta, gradient),
        back(net, inputs, delta, k) is Some,
    ensures
        back(other, others, gradient, k) is Some,
        alike(back_delta(back(net, inputs, delta, k)), back_delta(back(other, others, gradient, k))),
    decreases net.len() - k,
{
    if k < net.len() {
        lemma_back_alike(net, other, inputs, others, delta, gradient, k + 1);
        lemma_back_keeps_geometry(net, inputs, delta, k + 1);
        lemma_back_keeps_geometry(other, others, gradient, k + 1);
        let after = back_net(back(net, inputs, delta, k + 1));
        let given = back_delta(back(net, inputs, delta, k + 1));
        let after2 = back_net(back(other, others, gradient, k + 1));
        let given2 = back_delta(back(other, others, gradient, k + 1));
        lemma_nets_alike_is_an_equivalence(net, after, after);
        lemma_nets_alike_is_an_equivalence(after, net, other);
        lemma_nets_alike_is_an_equivalence(after, other, after2);
        assert(same_geometry(after[k as int], after2[k as int]));
        assert(alike(inputs[k as int], others[k as int]));
        lemma_accepts_backward_alike(
            after[k as int],
            after2[k as int],
            inputs[k as int],
            others[k as int],
            given,
            given2,
        );
        lemma_backward_alike(after[k as int], after2[k as int], inputs[k as int], others[k as int], given, given2);
    }
}

/// For every number, something that its exponential may be.
pub open spec fn some_exps<T: Transcendental>(numbers: Seq<T>) -> Seq<T> {
    Seq::new(numbers.len(), |k: int| choose|r: T| numbers[k].exp_gives(r))
}

/// Something that the layer may give for the batch.
pub open spec fn an_output<T: Transcendental>(layer: LayerView<T>, x: Seq<Seq<Grid<T>>>) -> Seq<Seq<Grid<T>>> {
    match layer {
        LayerView::Conv(conv) => conv.forward_spec(x),
        LayerView::Pool(p) => p.forward_spec(x),
        LayerView::Activation(a) => if a.end == 1 {
            Seq::new(
                x.len(),
                |s: int|
                    seq![
                        normalised_spec(
                            Grid {
                                rows: x[s][0].cols,
                                cols: x[s][0].rows,
                                cells: some_exps(softmax_arguments(x[s][0]).cells),
                            },
                        ),
                    ],
            )
        } else {
            relu_batch_spec(x)
        },
        LayerView::Full(f) => f.forward_spec(x),
    }
}

/// A layer may give what [`an_output`] says.
pub proof fn lemma_an_output_is_produced<T: Transcendental>(layer: LayerView<T>, x: Seq<Seq<Grid<T>>>)
    ensures
        layer.produces(x, an_output(layer, x)),
{
    match layer {
        LayerView::Activation(a) => {
            if a.end == 1 {
                let y = an_output(layer, x);
                assert forall|s: int| 0 <= s < x.len() implies (#[trigger] y[s]).len() == 1 && softmax_result(
                    x[s][0],
                    y[s][0],
                ) by {
                    let numbers = softmax_arguments(x[s][0]).cells;
                    let exps = some_exps(numbers);
                    assert forall|k: int| 0 <= k < numbers.len() implies (#[trigger] numbers[k]).exp_gives(
                        exps[k],
                    ) by {
                        T::lemma_exp_gives_something(numbers[k]);
                    }
                    assert(exp_list(numbers, exps));
                }
            }
        },
        _ => {},
    }
}

/// A run of the first `k` layers on the batch, as far as the layers take what they are
/// given.
pub open spec fn a_run<T: Transcendental>(net: Seq<LayerView<T>>, input: Seq<Seq<Grid<T>>>, k: nat) -> Seq<
    Seq<Seq<Grid<T>>>,
>
    decreases k,
{
    if k == 0 {
        seq![input]
    } else {
        let before = a_run(net, input, (k - 1) as nat);
        before.push(an_output(net[k - 1], before[k - 1]))
    }
}

/// Where a network runs on a batch, every network of the same geometry runs on every
/// batch that is like it.
pub proof fn lemma_runs_carry_over<T: Transcendental>(
    net: Seq<LayerView<T>>,
    other: Seq<LayerView<T>>,
    history: Seq<Seq<Seq<Grid<T>>>>,
    input: Seq<Seq<Grid<T>>>,
    k: nat,
)
    requires
        nets_alike(net, other),
        runs(net, history, k),
        alike(history[0], input),
    ensures
        runs(other, a_run(other, input, k), k),
        a_run(other, input, k)[0] == input,
    decreases k,
{
    if k > 0 {
        lemma_run_begins(net, history, k, (k - 1) as nat);
        let begun = history.take(k as int);
        lemma_runs_carry_over(net, other, begun, input, (k - 1) as nat);
        let before = a_run(other, input, (k - 1) as nat);
        let whole = a_run(other, input, k);
        lemma_runs_alike(net, other, begun, before, (k - 1) as nat, (k - 1) as nat);
        assert(same_geometry(net[k - 1], other[k - 1]));
        assert(net[k - 1].accepts(history[k - 1]));
        lemma_accepts_alike(net[k - 1], other[k - 1], begun[k - 1], before[k - 1]);
        lemma_an_output_is_produced(other[k - 1], before[k - 1]);
        assert forall|j: int| 0 <= j < k implies (#[trigger] other[j]).accepts(whole[j]) && other[j].produces(
            whole[j],
            whole[j + 1],
        ) by {
            if j < k - 1 {
                assert(other[j].accepts(before[j]) && other[j].produces(before[j], before[j + 1]));
            }
        }
    }
}

/// Where no run goes through the whole network, the network gives no answer and can
/// take no step.
pub proof fn lemma_no_run_no_step<T: Transcendental>(net: Seq<LayerView<T>>, inputs: Seq<Seq<Grid<T>>>, target: Grid<T>)
    requires
        !completes(net, inputs),
    ensures
        !answerable(net, inputs, target),
        !can_step(net, inputs, target),
{
    if answerable(net, inputs, target) {
        let history = choose|history: Seq<Seq<Seq<Grid<T>>>>| #[trigger] answers(net, inputs, target, history);
        assert(runs(net, history, net.len()) && history[0] == inputs);
    }
    if can_step(net, inputs, target) {
        let history = choose|history: Seq<Seq<Seq<Grid<T>>>>| #[trigger] steps(net, inputs, target, history);
        assert(runs(net, history, net.len()) && history[0] == inputs);
    }
}

/// Where one run through the whole network does not give one matrix of the shape of
/// the target, none does.
pub proof fn lemma_answers_settled<T: Transcendental>(
    net: Seq<LayerView<T>>,
    inputs: Seq<Seq<Grid<T>>>,
    target: Grid<T>,
    history: Seq<Seq<Seq<Grid<T>>>>,
)
    requires
        runs(net, history, net.len()),
        history[0] == inputs,
        !answers(net, inputs, target, history),
    ensures
        !answerable(net, inputs, target),
        !can_step(net, inputs, target),
{
    let n = net.len();
    lemma_nets_alike_is_an_equivalence(net, net, net);
    lemma_alike_is_reflexive(inputs);
    if answerable(net, inputs, target) {
        let other = choose|other: Seq<Seq<Seq<Grid<T>>>>| #[trigger] answers(net, inputs, target, other);
        lemma_runs_alike(net, net, other, history, n, n);
        let last = other[n as int];
        assert(last[0].len() == history[n as int][0].len());
        assert(like(last[0][0], history[n as int][0][0]));
    }
    if can_step(net, inputs, target) {
        let other = choose|other: Seq<Seq<Seq<Grid<T>>>>| #[trigger] steps(net, inputs, target, other);
        assert(answers(net, inputs, target, other));
    }
}

/// The gradients that training starts from are alike where the answers are.
pub proof fn lemma_first_delta_alike<T: Transcendental>(given: Grid<T>, other: Grid<T>, target: Grid<T>)
    requires
        like(given, other),
    ensures
        alike(first_delta(given, target), first_delta(other, target)),
{
    let a = first_delta(given, target);
    let b = first_delta(other, target);
    assert(a.len() == 1 && b.len() == 1);
    assert(a[0].len() == 1 && b[0].len() == 1);
    assert(like(a[0][0], b[0][0]));
}

/// Two runs through networks of one geometry on the same inputs either both let every
/// layer take its step on the way back, or neither does.
pub proof fn lemma_steps_carry_over<T: Transcendental>(
    net: Seq<LayerView<T>>,
    other: Seq<LayerView<T>>,
    inputs: Seq<Seq<Grid<T>>>,
    target: Grid<T>,
    first: Seq<Seq<Seq<Grid<T>>>>,
    second: Seq<Seq<Seq<Grid<T>>>>,
)
    requires
        nets_alike(net, other),
        steps(net, inputs, target, first),
        runs(other, second, other.len()),
        second[0] == inputs,
    ensures
        steps(other, inputs, target, second),
{
    let n = net.len();
    lemma_alike_is_reflexive(inputs);
    lemma_runs_alike(net, other, first, second, n, n);
    assert(first[n as int][0].len() == second[n as int][0].len());
    assert(like(first[n as int][0][0], second[n as int][0][0]));
    lemma_first_delta_alike(first[n as int][0][0], second[n as int][0][0], target);
    let inputs_a = first.take(n as int);
    let inputs_b = second.take(n as int);
    assert forall|i: int| 0 <= i < n implies alike(#[trigger] inputs_a[i], inputs_b[i]) by {
        lemma_runs_alike(net, other, first, second, n, i as nat);
    }
    lemma_back_alike(
        net,
        other,
        inputs_a,
        inputs_b,
        first_delta(first[n as int][0][0], target),
        first_delta(second[n as int][0][0], target),
        0,
    );
}

/// Where one run gives an answer of the shape of the target but some layer does not
/// take its step on the way back, the network can take no step on these inputs.
pub proof fn lemma_steps_settled<T: Transcendental>(
    net: Seq<LayerView<T>>,
    inputs: Seq<Seq<Grid<T>>>,
    target: Grid<T>,
    history: Seq<Seq<Seq<Grid<T>>>>,
)
    requires
        answers(net, inputs, target, history),
        !steps(net, inputs, target, history),
    ensures
        !can_step(net, inputs, target),
{
    if can_step(net, inputs, target) {
        let other = choose|other: Seq<Seq<Seq<Grid<T>>>>| #[trigger] steps(net, inputs, target, other);
        lemma_nets_alike_is_an_equivalence(net, net, net);
        lemma_steps_carry_over(net, net, inputs, target, other, history);
    }
}

/// Networks of one geometry can take a step on the same inputs.
pub proof fn lemma_can_step_carries_over<T: Transcendental>(
    net: Seq<LayerView<T>>,
    other: Seq<LayerView<T>>,
    inputs: Seq<Seq<Grid<T>>>,
    target: Grid<T>,
)
    requires
        nets_alike(net, other),
    ensures
        can_step(net, inputs, target) == can_step(other, inputs, target),
{
    lemma_nets_alike_is_an_equivalence(net, other, net);
    lemma_alike_is_reflexive(inputs);
    if can_step(net, inputs, target) {
        let first = choose|first: Seq<Seq<Seq<Grid<T>>>>| #[trigger] steps(net, inputs, target, first);
        lemma_runs_carry_over(net, other, first, inputs, net.len());
        lemma_steps_carry_over(net, other, inputs, target, first, a_run(other, inputs, net.len()));
    }
    if can_step(other, inputs, target) {
        let first = choose|first: Seq<Seq<Seq<Grid<T>>>>| #[trigger] steps(other, inputs, target, first);
        lemma_runs_carry_over(other, net, first, inputs, net.len());
        lemma_steps_carry_over(other, net, inputs, target, first, a_run(net, inputs, net.len()));
    }
}

/// Networks of one geometry can pass over the same samples.
pub proof fn lemma_can_pass_carries_over<T: Transcendental>(
    net: Seq<LayerView<T>>,
    other: Seq<LayerView<T>>,
    inputs: Seq<Seq<Grid<T>>>,
    target: Grid<T>,
)
    requires
        nets_alike(net, other),
    ensures
        can_pass(net, inputs, target) == can_pass(other, inputs, target),
{
    assert forall|i: int| 0 <= i < inputs.len() implies can_step(net, seq![#[trigger] inputs[i]], row_spec(target, i))
        == can_step(other, seq![inputs[i]], row_spec(target, i)) by {
        lemma_can_step_carries_over(net, other, seq![inputs[i]], row_spec(target, i));
    }
}

/// A training step leaves the geometry of the network as it was.
pub proof fn lemma_step_keeps_net_geometry<T: Transcendental>(
    before: Seq<LayerView<T>>,
    inputs: Seq<Seq<Grid<T>>>,
    target: Grid<T>,
    after: Seq<LayerView<T>>,
    loss: T,
    correct: nat,
)
    requires
        step_result(before, inputs, target, after, loss, correct),
    ensures
        nets_alike(before, after),
        can_step(before, inputs, target),
{
    let history = choose|history: Seq<Seq<Seq<Grid<T>>>>|
        step_follows(before, inputs, target, after, loss, correct, history);
    let n = before.len();
    lemma_back_keeps_geometry(
        before,
        history.take(n as int),
        first_delta(history[n as int][0][0], target),
        0,
    );
    assert(steps(before, inputs, target, history));
}

/// A pass over the samples leaves the geometry of the network as it was.
pub proof fn lemma_pass_keeps_net_geometry<T: Transcendental>(
    before: Seq<LayerView<T>>,
    inputs: Seq<Seq<Grid<T>>>,
    target: Grid<T>,
    after: Seq<LayerView<T>>,
    loss: T,
    correct: nat,
    n: nat,
)
    requires
        epoch_result(before, inputs, target, after, loss, correct, n),
    ensures
        nets_alike(before, after),
    decreases n,
{
    lemma_nets_alike_is_an_equivalence(before, before, before);
    if n > 0 {
        let (mid, so_far, more, right, hit) = choose|
            mid: Seq<LayerView<T>>,
            so_far: T,
            more: T,
            right: nat,
            hit: nat,
        |
            epoch_result(before, inputs, target, mid, so_far, right, (n - 1) as nat) && #[trigger] epoch_extends(
                inputs,
                target,
                after,
                loss,
                correct,
                n,
                mid,
                so_far,
                more,
                right,
                hit,
            );
        lemma_pass_keeps_net_geometry(before, inputs, target, mid, so_far, right, (n - 1) as nat);
        lemma_step_keeps_net_geometry(mid, seq![inputs[n - 1]], row_spec(target, n - 1), after, more, hit);
        lemma_nets_alike_is_an_equivalence(before, mid, after);
    }
}

} // verus!
