//! The model: an ordered stack of layers and a loss, with forward
//! evaluation, backpropagation, and the minibatch training loop.
//!
//! Every method is specified functionally: evaluation, backpropagation and
//! the whole of training are proved equal to specification functions of the
//! model's value, the dataset and the random seed. Training is therefore
//! deterministic by contract: two runs from equal states and seeds are one
//! and the same value.

use vstd::prelude::*;

verus! {

use crate::activations::{spec_act_apply, spec_act_deriv};
use crate::layer::{Layer, LayerView, spec_forward_raw, spec_layer_forward};
use crate::losses::{Loss, spec_loss_deriv};
use crate::matrix::{Matrix, MatView, spec_mat_add, spec_mat_mul, spec_mat_hadamard,
    spec_mat_transpose, spec_mat_zero};
use crate::optimizer::Optimizer;
use crate::random::{RandomSource, spec_next_state, spec_draw};

/// A joint shuffle, from position `i` down: at each position a partner at
/// or below it is drawn, and the pair of positions is swapped in both
/// sequences at once, so that elements of `x` and `y` travel together.
pub open spec fn spec_shuffle_from<T>(x: Seq<T>, y: Seq<T>, s: u64, i: int) -> (Seq<T>, Seq<T>, u64)
    recommends
        x.len() == y.len(),
        i < x.len(),
    decreases i,
    when i >= 0
{
    if i <= 0 {
        (x, y, s)
    } else {
        let j = spec_draw(s, i + 1);
        spec_shuffle_from(
            x.update(i, x[j]).update(j, x[i]),
            y.update(i, y[j]).update(j, y[i]),
            spec_next_state(s),
            i - 1,
        )
    }
}

/// The joint shuffle of two sequences of one length, drawing from state
/// `s`.
pub open spec fn spec_shuffle<T>(x: Seq<T>, y: Seq<T>, s: u64) -> (Seq<T>, Seq<T>, u64)
    recommends
        x.len() == y.len(),
{
    if x.len() == 0 {
        (x, y, s)
    } else {
        spec_shuffle_from(x, y, s, x.len() - 1)
    }
}

/// Shuffling keeps both lengths, and any property that every element of
/// each sequence has.
pub proof fn lemma_shuffle_from_props<T>(
    x: Seq<T>,
    y: Seq<T>,
    s: u64,
    i: int,
    px: spec_fn(T) -> bool,
    py: spec_fn(T) -> bool,
)
    requires
        x.len() == y.len(),
        0 <= i < x.len(),
        forall|k: int| 0 <= k < x.len() ==> px(#[trigger] x[k]),
        forall|k: int| 0 <= k < y.len() ==> py(#[trigger] y[k]),
    ensures
        ({
            let r = spec_shuffle_from(x, y, s, i);
            &&& r.0.len() == x.len()
            &&& r.1.len() == y.len()
            &&& forall|k: int| 0 <= k < x.len() ==> px(#[trigger] r.0[k])
            &&& forall|k: int| 0 <= k < y.len() ==> py(#[trigger] r.1[k])
        }),
    decreases i,
{
    if i > 0 {
        let j = spec_draw(s, i + 1);
        let x2 = x.update(i, x[j]).update(j, x[i]);
        let y2 = y.update(i, y[j]).update(j, y[i]);
        assert(0 <= j <= i);
        assert forall|k: int| 0 <= k < x2.len() implies px(#[trigger] x2[k]) by {
            assert(x2[k] == x[j] || x2[k] == x[i] || x2[k] == x[k]);
        }
        assert forall|k: int| 0 <= k < y2.len() implies py(#[trigger] y2[k]) by {
            assert(y2[k] == y[j] || y2[k] == y[i] || y2[k] == y[k]);
        }
        lemma_shuffle_from_props(x2, y2, spec_next_state(s), i - 1, px, py);
    }
}

/// The positionwise pairs of two sequences of one length.
pub open spec fn spec_pairs<T>(x: Seq<T>, y: Seq<T>) -> Seq<(T, T)> {
    Seq::new(x.len(), |i: int| (x[i], y[i]))
}

/// One joint swap leaves the multiset of pairs untouched.
proof fn lemma_swap_pairs<T>(x: Seq<T>, y: Seq<T>, i: int, j: int)
    requires
        x.len() == y.len(),
        0 <= i < x.len(),
        0 <= j < x.len(),
    ensures
        spec_pairs(
            x.update(i, x[j]).update(j, x[i]),
            y.update(i, y[j]).update(j, y[i]),
        ).to_multiset() == spec_pairs(x, y).to_multiset(),
{
    broadcast use vstd::seq_lib::to_multiset_update;
    broadcast use vstd::seq_lib::group_to_multiset_ensures;
    broadcast use vstd::multiset::group_multiset_axioms;
    broadcast use vstd::multiset::group_multiset_properties;

    let p = spec_pairs(x, y);
    let x2 = x.update(i, x[j]).update(j, x[i]);
    let y2 = y.update(i, y[j]).update(j, y[i]);
    if i == j {
        assert(spec_pairs(x2, y2) =~= p);
    } else {
        assert(spec_pairs(x2, y2) =~= p.update(i, p[j]).update(j, p[i]));
        let p1 = p.update(i, p[j]);
        let ms = p.to_multiset();
        assert(p1.to_multiset() == ms.insert(p[j]).remove(p[i]));
        assert(p1[j] == p[j]);
        assert(p1.update(j, p[i]).to_multiset() == p1.to_multiset().insert(p[i]).remove(p1[j]));
        assert(p.contains(p[i]));
        assert(p.contains(p[j]));
        assert(ms.count(p[i]) > 0);
        assert(ms.count(p[j]) > 0);
        assert(ms.insert(p[j]).remove(p[i]).insert(p[i]).remove(p[j]) =~= ms);
    }
}

/// Joint shuffling preserves the pairing: every pair present afterwards
/// was present before, with the same multiplicities. No sample is ever
/// matched with another sample's target.
pub proof fn lemma_shuffle_from_pairs<T>(x: Seq<T>, y: Seq<T>, s: u64, i: int)
    requires
        x.len() == y.len(),
        0 <= i < x.len(),
    ensures
        ({
            let r = spec_shuffle_from(x, y, s, i);
            spec_pairs(r.0, r.1).to_multiset() == spec_pairs(x, y).to_multiset()
        }),
    decreases i,
{
    if i > 0 {
        let j = spec_draw(s, i + 1);
        assert(0 <= j <= i);
        lemma_swap_pairs(x, y, i, j);
        lemma_shuffle_from_pairs(
            x.update(i, x[j]).update(j, x[i]),
            y.update(i, y[j]).update(j, y[i]),
            spec_next_state(s),
            i - 1,
        );
    }
}

/// The joint shuffle preserves the multiset of pairs.
pub proof fn lemma_shuffle_pairs<T>(x: Seq<T>, y: Seq<T>, s: u64)
    requires
        x.len() == y.len(),
    ensures
        ({
            let r = spec_shuffle(x, y, s);
            spec_pairs(r.0, r.1).to_multiset() == spec_pairs(x, y).to_multiset()
        }),
{
    if x.len() > 0 {
        lemma_shuffle_from_pairs(x, y, s, x.len() - 1);
    }
}

/// Swap two positions of a vector in place.
fn vec_swap<T>(v: &mut Vec<T>, i: usize, j: usize)
    requires
        i < old(v)@.len(),
        j < old(v)@.len(),
    ensures
        final(v)@ == old(v)@.update(i as int, old(v)@[j as int]).update(
            j as int,
            old(v)@[i as int],
        ),
{
    let ghost v0: Seq<T> = v@;
    if i == j {
        proof {
            assert(v@ =~= v0.update(i as int, v0[j as int]).update(j as int, v0[i as int]));
        }
        return ;
    }
    let (a, b): (usize, usize) = if i < j {
        (i, j)
    } else {
        (j, i)
    };
    let eb: T = v.remove(b);
    let ea: T = v.remove(a);
    v.insert(a, eb);
    v.insert(b, ea);
    proof {
        assert(v@ =~= v0.update(i as int, v0[j as int]).update(j as int, v0[i as int]));
    }
}

/// Every layer of the sequence is well-formed.
pub open spec fn spec_layers_wf(layers: Seq<LayerView>) -> bool {
    forall|i: int| 0 <= i < layers.len() ==> (#[trigger] layers[i]).wf()
}

/// Adjacent layers fit: each one's output dimension is the next one's input
/// dimension.
pub open spec fn spec_chained(layers: Seq<LayerView>) -> bool {
    forall|i: int|
        0 <= i < layers.len() - 1 ==> (#[trigger] layers[i]).output_dim()
            == layers[i + 1].input_dim()
}

/// The cached outputs of every layer have that layer's output dimension and
/// the width `w`.
pub open spec fn spec_caches_ok(layers: Seq<LayerView>, w: nat) -> bool {
    forall|i: int|
        0 <= i < layers.len() ==> {
            let l = #[trigger] layers[i];
            &&& l.last_raw_output.rows == l.output_dim()
            &&& l.last_raw_output.cols == w
            &&& l.last_activated_output.rows == l.output_dim()
            &&& l.last_activated_output.cols == w
        }
}

/// The network output after the first `k` layers.
pub open spec fn spec_eval_out(layers: Seq<LayerView>, input: MatView, k: int) -> MatView
    decreases k,
    when k >= 0
{
    if k <= 0 {
        input
    } else {
        spec_act_apply(
            layers[k - 1].activation,
            spec_forward_raw(layers[k - 1], spec_eval_out(layers, input, k - 1)),
        )
    }
}

/// The layers after the first `k` of them ran one forward pass: each cache
/// replaced in turn, parameters untouched.
pub open spec fn spec_eval_layers(layers: Seq<LayerView>, input: MatView, k: int) -> Seq<
    LayerView,
>
    decreases k,
    when k >= 0
{
    if k <= 0 {
        layers
    } else {
        spec_eval_layers(layers, input, k - 1).update(
            k - 1,
            spec_layer_forward(layers[k - 1], spec_eval_out(layers, input, k - 1)),
        )
    }
}

/// Forward evaluation only rewrites caches: layers at or past `k` are
/// untouched, layers before `k` hold their forward result.
pub proof fn lemma_eval_layers_frame(layers: Seq<LayerView>, input: MatView, k: int)
    requires
        0 <= k <= layers.len(),
    ensures
        ({
            let l2 = spec_eval_layers(layers, input, k);
            &&& l2.len() == layers.len()
            &&& forall|i: int| k <= i < layers.len() ==> l2[i] == layers[i]
            &&& forall|i: int|
                0 <= i < k ==> l2[i] == spec_layer_forward(
                    layers[i],
                    spec_eval_out(layers, input, i),
                )
        }),
    decreases k,
{
    if k > 0 {
        lemma_eval_layers_frame(layers, input, k - 1);
    }
}

/// One forward pass keeps a layer well-formed and its dimensions, and
/// leaves caches of the input's width.
pub proof fn lemma_layer_forward_wf(l: LayerView, input: MatView)
    requires
        l.wf(),
        input.wf(),
        input.rows == l.input_dim(),
    ensures
        ({
            let l2 = spec_layer_forward(l, input);
            &&& l2.wf()
            &&& l2.last_raw_output.rows == l.output_dim()
            &&& l2.last_raw_output.cols == input.cols
            &&& l2.last_activated_output.rows == l.output_dim()
            &&& l2.last_activated_output.cols == input.cols
        }),
{
}

/// The shape of the running output: the width of the input, the output
/// dimension of the last layer passed.
pub proof fn lemma_eval_out_shape(layers: Seq<LayerView>, input: MatView, k: int)
    requires
        0 <= k <= layers.len(),
        forall|i: int| 0 <= i < k ==> (#[trigger] layers[i]).wf(),
        forall|i: int|
            0 <= i < k - 1 ==> (#[trigger] layers[i]).output_dim() == layers[i + 1].input_dim(),
        input.wf(),
        k > 0 ==> input.rows == layers[0].input_dim(),
    ensures
        ({
            let out = spec_eval_out(layers, input, k);
            &&& out.wf()
            &&& out.cols == input.cols
            &&& out.rows == if k == 0 {
                input.rows
            } else {
                layers[k - 1].output_dim()
            }
        }),
    decreases k,
{
    if k > 0 {
        lemma_eval_out_shape(layers, input, k - 1);
    }
}

/// After a full forward pass the layers are still well-formed and chained,
/// and every cache holds an output of the input's width.
pub proof fn lemma_eval_layers_wf(layers: Seq<LayerView>, input: MatView)
    requires
        layers.len() >= 1,
        spec_layers_wf(layers),
        spec_chained(layers),
        input.wf(),
        input.rows == layers[0].input_dim(),
    ensures
        ({
            let l2 = spec_eval_layers(layers, input, layers.len() as int);
            &&& l2.len() == layers.len()
            &&& spec_layers_wf(l2)
            &&& spec_chained(l2)
            &&& spec_caches_ok(l2, input.cols)
            &&& forall|i: int|
                0 <= i < layers.len() ==> (#[trigger] l2[i]) == (LayerView {
                    last_raw_output: l2[i].last_raw_output,
                    last_activated_output: l2[i].last_activated_output,
                    ..layers[i]
                })
        }),
{
    let n = layers.len() as int;
    let l2 = spec_eval_layers(layers, input, n);
    lemma_eval_layers_frame(layers, input, n);
    assert forall|i: int| 0 <= i < n implies {
        &&& (#[trigger] l2[i]).wf()
        &&& l2[i].last_raw_output.rows == l2[i].output_dim()
        &&& l2[i].last_raw_output.cols == input.cols
        &&& l2[i].last_activated_output.rows == l2[i].output_dim()
        &&& l2[i].last_activated_output.cols == input.cols
        &&& l2[i] == (LayerView {
            last_raw_output: l2[i].last_raw_output,
            last_activated_output: l2[i].last_activated_output,
            ..layers[i]
        })
    } by {
        lemma_eval_out_shape(layers, input, i);
        lemma_layer_forward_wf(layers[i], spec_eval_out(layers, input, i));
    }
}

/// The output that feeds layer `i`: the network input for the first layer,
/// the preceding layer's cached activated output otherwise.
pub open spec fn spec_prev_out(layers: Seq<LayerView>, network_input: MatView, i: int) -> MatView {
    if i <= 0 {
        network_input
    } else {
        layers[i - 1].last_activated_output
    }
}

/// The error signal of layer `i`, built backwards from the loss-derivative
/// seed: the seed is combined with the output layer's activation
/// derivative; every earlier signal is pulled back through the following
/// layer's weights first.
pub open spec fn spec_bp_delta(layers: Seq<LayerView>, seed: MatView, i: int) -> MatView
    decreases layers.len() - i,
    when 0 <= i < layers.len()
{
    let g = spec_act_deriv(layers[i].activation, layers[i].last_raw_output);
    if i == layers.len() - 1 {
        spec_mat_hadamard(g, seed)
    } else {
        spec_mat_hadamard(
            spec_mat_mul(spec_mat_transpose(layers[i + 1].weights), spec_bp_delta(layers, seed, i + 1)),
            g,
        )
    }
}

/// The weight gradient of layer `i`: its error signal times the transpose
/// of what fed it.
pub open spec fn spec_bp_gradient(
    layers: Seq<LayerView>,
    network_input: MatView,
    seed: MatView,
    i: int,
) -> MatView {
    spec_mat_mul(
        spec_bp_delta(layers, seed, i),
        spec_mat_transpose(spec_prev_out(layers, network_input, i)),
    )
}

/// The layers after one backward pass: every accumulator increased by this
/// sample's gradient, everything else untouched.
pub open spec fn spec_bp_layers(layers: Seq<LayerView>, network_input: MatView, seed: MatView) -> Seq<
    LayerView,
> {
    Seq::new(
        layers.len(),
        |i: int|
            LayerView {
                errors: spec_mat_add(layers[i].errors, spec_bp_gradient(layers, network_input, seed, i)),
                deltas: spec_mat_add(layers[i].deltas, spec_bp_delta(layers, seed, i)),
                ..layers[i]
            },
    )
}

/// The shape of every error signal: the layer's output dimension by the
/// width of the pass.
pub proof fn lemma_bp_delta_shape(layers: Seq<LayerView>, seed: MatView, w: nat, i: int)
    requires
        spec_layers_wf(layers),
        spec_chained(layers),
        spec_caches_ok(layers, w),
        0 <= i < layers.len(),
        seed.wf(),
        seed.rows == layers[layers.len() - 1].output_dim(),
        seed.cols == w,
    ensures
        ({
            let d = spec_bp_delta(layers, seed, i);
            d.wf() && d.rows == layers[i].output_dim() && d.cols == w
        }),
    decreases layers.len() - i,
{
    if i < layers.len() - 1 {
        lemma_bp_delta_shape(layers, seed, w, i + 1);
    }
}

/// A backward pass leaves the layers well-formed and chained, and touches
/// only the accumulators.
pub proof fn lemma_bp_layers_wf(layers: Seq<LayerView>, network_input: MatView, seed: MatView)
    requires
        layers.len() >= 1,
        spec_layers_wf(layers),
        spec_chained(layers),
    ensures
        ({
            let l2 = spec_bp_layers(layers, network_input, seed);
            &&& l2.len() == layers.len()
            &&& spec_layers_wf(l2)
            &&& spec_chained(l2)
            &&& forall|i: int|
                0 <= i < layers.len() ==> (#[trigger] l2[i]) == (LayerView {
                    errors: l2[i].errors,
                    deltas: l2[i].deltas,
                    ..layers[i]
                })
        }),
{
    let l2 = spec_bp_layers(layers, network_input, seed);
    assert forall|i: int| 0 <= i < layers.len() implies (#[trigger] l2[i]).wf() by {
        assert(layers[i].wf());
    }
}

/// The views of a sequence of matrices.
pub open spec fn spec_views(v: Seq<Matrix>) -> Seq<MatView> {
    Seq::new(v.len(), |i: int| v[i]@)
}

/// Taking views commutes with the joint shuffle: shuffling the matrices and
/// then viewing them is viewing them and then shuffling the views.
pub proof fn lemma_shuffle_views_from(x: Seq<Matrix>, y: Seq<Matrix>, s: u64, i: int)
    requires
        x.len() == y.len(),
        0 <= i < x.len(),
    ensures
        ({
            let r = spec_shuffle_from(x, y, s, i);
            let rv = spec_shuffle_from(spec_views(x), spec_views(y), s, i);
            spec_views(r.0) == rv.0 && spec_views(r.1) == rv.1 && r.2 == rv.2
        }),
    decreases i,
{
    if i > 0 {
        let j = spec_draw(s, i + 1);
        let x2 = x.update(i, x[j]).update(j, x[i]);
        let y2 = y.update(i, y[j]).update(j, y[i]);
        assert(0 <= j <= i);
        let xv = spec_views(x);
        let yv = spec_views(y);
        assert(spec_views(x2) =~= xv.update(i, xv[j]).update(j, xv[i]));
        assert(spec_views(y2) =~= yv.update(i, yv[j]).update(j, yv[i]));
        lemma_shuffle_views_from(x2, y2, spec_next_state(s), i - 1);
    }
}

/// Taking views commutes with the joint shuffle.
pub proof fn lemma_shuffle_views(x: Seq<Matrix>, y: Seq<Matrix>, s: u64)
    requires
        x.len() == y.len(),
    ensures
        ({
            let r = spec_shuffle(x, y, s);
            let rv = spec_shuffle(spec_views(x), spec_views(y), s);
            spec_views(r.0) == rv.0 && spec_views(r.1) == rv.1 && r.2 == rv.2
        }),
{
    if x.len() == 0 {
        assert(spec_views(x) =~= Seq::<MatView>::empty());
        assert(spec_views(y) =~= Seq::<MatView>::empty());
        assert(spec_views(x).len() == 0);
    } else {
        lemma_shuffle_views_from(x, y, s, x.len() - 1);
    }
}

/// Two layers that differ at most in caches and accumulators: the
/// parameters, the activation and the optimizer state agree.
pub open spec fn spec_same_params(a: LayerView, b: LayerView) -> bool {
    &&& a.weights == b.weights
    &&& a.biases == b.biases
    &&& a.activation == b.activation
    &&& a.optimizer_params == b.optimizer_params
}

/// The strategy's per-layer state is present in every layer.
pub open spec fn spec_all_ready<O: Optimizer>(o: O, layers: Seq<LayerView>) -> bool {
    forall|i: int| 0 <= i < layers.len() ==> o.spec_ready(#[trigger] layers[i])
}

/// The layers after the strategy initialized its state in the first `k` of
/// them.
pub open spec fn spec_init_layers<O: Optimizer>(o: O, layers: Seq<LayerView>, k: int) -> Seq<
    LayerView,
>
    decreases k,
    when k >= 0
{
    if k <= 0 {
        layers
    } else {
        spec_init_layers(o, layers, k - 1).update(k - 1, o.spec_initialize(layers[k - 1]))
    }
}

/// Initialization keeps the stack well-formed and chained, touches only
/// optimizer state, and leaves every initialized layer ready.
pub proof fn lemma_init_layers_props<O: Optimizer>(o: O, layers: Seq<LayerView>, k: int)
    requires
        o.spec_valid(),
        spec_layers_wf(layers),
        spec_chained(layers),
        0 <= k <= layers.len(),
    ensures
        ({
            let l2 = spec_init_layers(o, layers, k);
            &&& l2.len() == layers.len()
            &&& spec_layers_wf(l2)
            &&& spec_chained(l2)
            &&& forall|i: int| k <= i < layers.len() ==> l2[i] == layers[i]
            &&& forall|i: int| 0 <= i < k ==> o.spec_ready(#[trigger] l2[i])
            &&& forall|i: int|
                0 <= i < k ==> (#[trigger] l2[i]) == (LayerView {
                    optimizer_params: l2[i].optimizer_params,
                    ..layers[i]
                })
        }),
    decreases k,
{
    if k > 0 {
        lemma_init_layers_props(o, layers, k - 1);
        o.lemma_initialize(layers[k - 1]);
    }
}

/// A layer with its accumulators reset to zero.
pub open spec fn spec_clear(l: LayerView) -> LayerView {
    LayerView {
        errors: spec_mat_zero(l.output_dim(), l.input_dim()),
        deltas: spec_mat_zero(l.output_dim(), 1),
        ..l
    }
}

/// One training sample: a forward pass over every layer, then a backward
/// pass accumulating its gradients, and the sample's loss.
pub open spec fn spec_sample(layers: Seq<LayerView>, loss: Loss, xi: MatView, yi: MatView) -> (
    Seq<LayerView>,
    i64,
) {
    let n = layers.len() as int;
    let evald = spec_eval_layers(layers, xi, n);
    let pred = spec_eval_out(layers, xi, n);
    (
        spec_bp_layers(evald, xi, spec_loss_deriv(loss, yi, pred)),
        crate::losses::spec_loss_value(loss, yi, pred),
    )
}

/// One sample keeps the stack well-formed and chained and never touches a
/// parameter, an activation or optimizer state: only the caches and the
/// accumulators move.
pub proof fn lemma_sample_props(layers: Seq<LayerView>, loss: Loss, xi: MatView, yi: MatView)
    requires
        layers.len() >= 1,
        spec_layers_wf(layers),
        spec_chained(layers),
        xi.wf(),
        xi.rows == layers[0].input_dim(),
        xi.cols == 1,
    ensures
        ({
            let r = spec_sample(layers, loss, xi, yi);
            &&& r.0.len() == layers.len()
            &&& spec_layers_wf(r.0)
            &&& spec_chained(r.0)
            &&& forall|i: int| 0 <= i < layers.len() ==> spec_same_params(#[trigger] r.0[i], layers[i])
        }),
{
    let n = layers.len() as int;
    let evald = spec_eval_layers(layers, xi, n);
    let pred = spec_eval_out(layers, xi, n);
    lemma_eval_layers_wf(layers, xi);
    lemma_bp_layers_wf(evald, xi, spec_loss_deriv(loss, yi, pred));
}

/// The layers and the summed loss after the `k` samples of a batch that
/// starts at `start`, taken one at a time in order.
pub open spec fn spec_run_samples(
    layers: Seq<LayerView>,
    loss: Loss,
    x: Seq<MatView>,
    y: Seq<MatView>,
    start: int,
    k: int,
) -> (Seq<LayerView>, i64)
    decreases k,
    when k >= 0
{
    if k <= 0 {
        (layers, 0)
    } else {
        let prev = spec_run_samples(layers, loss, x, y, start, k - 1);
        let s = spec_sample(prev.0, loss, x[start + k - 1], y[start + k - 1]);
        (s.0, crate::fixed::spec_fx_add(prev.1, s.1))
    }
}

/// A run of samples keeps the stack well-formed and chained and leaves all
/// parameters, activations and optimizer state exactly as they were: within
/// a batch, nothing moves but caches and accumulators.
pub proof fn lemma_run_samples_props(
    layers: Seq<LayerView>,
    loss: Loss,
    x: Seq<MatView>,
    y: Seq<MatView>,
    start: int,
    k: int,
)
    requires
        layers.len() >= 1,
        spec_layers_wf(layers),
        spec_chained(layers),
        0 <= start,
        0 <= k,
        start + k <= x.len(),
        x.len() == y.len(),
        forall|i: int|
            start <= i < start + k ==> (#[trigger] x[i]).wf() && x[i].rows == layers[0].input_dim()
                && x[i].cols == 1,
    ensures
        ({
            let r = spec_run_samples(layers, loss, x, y, start, k);
            &&& r.0.len() == layers.len()
            &&& spec_layers_wf(r.0)
            &&& spec_chained(r.0)
            &&& forall|i: int|
                0 <= i < layers.len() ==> spec_same_params(#[trigger] r.0[i], layers[i])
        }),
    decreases k,
{
    if k > 0 {
        lemma_run_samples_props(layers, loss, x, y, start, k - 1);
        let prev = spec_run_samples(layers, loss, x, y, start, k - 1);
        assert(prev.0[0].input_dim() == layers[0].input_dim());
        lemma_sample_props(prev.0, loss, x[start + k - 1], y[start + k - 1]);
    }
}

/// The layers after the strategy updated the first `k` of them from their
/// accumulators and each accumulator was cleared.
pub open spec fn spec_update_layers<O: Optimizer>(
    o: O,
    layers: Seq<LayerView>,
    bsize: int,
    lr: i64,
    k: int,
) -> Seq<LayerView>
    decreases k,
    when k >= 0
{
    if k <= 0 {
        layers
    } else {
        spec_update_layers(o, layers, bsize, lr, k - 1).update(
            k - 1,
            spec_clear(o.spec_update(bsize, layers[k - 1], lr)),
        )
    }
}

/// A full update pass keeps the stack well-formed, chained and ready, and
/// touches no cache.
pub proof fn lemma_update_layers_props<O: Optimizer>(
    o: O,
    layers: Seq<LayerView>,
    bsize: int,
    lr: i64,
    k: int,
)
    requires
        o.spec_valid(),
        spec_layers_wf(layers),
        spec_chained(layers),
        spec_all_ready(o, layers),
        bsize > 0,
        0 <= k <= layers.len(),
    ensures
        ({
            let l2 = spec_update_layers(o, layers, bsize, lr, k);
            &&& l2.len() == layers.len()
            &&& spec_layers_wf(l2)
            &&& spec_chained(l2)
            &&& forall|i: int| k <= i < layers.len() ==> l2[i] == layers[i]
            &&& forall|i: int| 0 <= i < layers.len() ==> o.spec_ready(#[trigger] l2[i])
            &&& forall|i: int|
                0 <= i < layers.len() ==> (#[trigger] l2[i]).last_raw_output == layers[i].last_raw_output
                    && l2[i].last_activated_output == layers[i].last_activated_output
                    && l2[i].output_dim() == layers[i].output_dim() && l2[i].input_dim()
                    == layers[i].input_dim()
        }),
    decreases k,
{
    if k > 0 {
        lemma_update_layers_props(o, layers, bsize, lr, k - 1);
        o.lemma_update(bsize, layers[k - 1], lr);
        let upd = o.spec_update(bsize, layers[k - 1], lr);
        o.lemma_ready_frame(upd, spec_clear(upd));
    }
}

/// The number of batches a dataset of `len` samples splits into.
pub open spec fn spec_batch_count(len: int, bsize: int) -> int
    recommends
        bsize > 0,
{
    len / bsize + if len % bsize != 0 {
        1int
    } else {
        0int
    }
}

/// The layers and the accumulated epoch loss after every batch from
/// `start` on: each batch runs its samples, then updates and clears every
/// layer once, and contributes its mean sample loss.
pub open spec fn spec_run_batches<O: Optimizer>(
    o: O,
    layers: Seq<LayerView>,
    loss: Loss,
    bsize: int,
    lr: i64,
    x: Seq<MatView>,
    y: Seq<MatView>,
    start: int,
    eloss: i64,
) -> (Seq<LayerView>, i64)
    decreases x.len() - start,
    when bsize > 0 && 0 <= start
{
    if start >= x.len() {
        (layers, eloss)
    } else {
        let blen = if x.len() - start < bsize {
            x.len() - start
        } else {
            bsize
        };
        let r = spec_run_samples(layers, loss, x, y, start, blen);
        let l2 = spec_update_layers(o, r.0, blen, lr, layers.len() as int);
        spec_run_batches(
            o,
            l2,
            loss,
            bsize,
            lr,
            x,
            y,
            start + blen,
            crate::fixed::spec_fx_add(eloss, crate::fixed::spec_fx_divn(r.1, blen)),
        )
    }
}

/// One epoch: shuffle the dataset jointly, run every batch, and record the
/// epoch's mean batch loss. Returns the layers, the shuffled dataset, the
/// random state, and the recorded loss.
pub open spec fn spec_epoch<O: Optimizer>(
    o: O,
    layers: Seq<LayerView>,
    loss: Loss,
    bsize: int,
    lr: i64,
    x: Seq<MatView>,
    y: Seq<MatView>,
    s: u64,
) -> (Seq<LayerView>, Seq<MatView>, Seq<MatView>, u64, i64)
    recommends
        bsize > 0,
{
    let sh = spec_shuffle(x, y, s);
    let r = spec_run_batches(o, layers, loss, bsize, lr, sh.0, sh.1, 0, 0);
    (
        r.0,
        sh.0,
        sh.1,
        sh.2,
        crate::fixed::spec_fx_divn(r.1, spec_batch_count(x.len() as int, bsize)),
    )
}

/// The layers, dataset order, random state and recorded losses after `e`
/// epochs.
pub open spec fn spec_fit_from<O: Optimizer>(
    o: O,
    layers: Seq<LayerView>,
    loss: Loss,
    bsize: int,
    lr: i64,
    x: Seq<MatView>,
    y: Seq<MatView>,
    s: u64,
    e: int,
) -> (Seq<LayerView>, Seq<MatView>, Seq<MatView>, u64, Seq<i64>)
    decreases e,
    when e >= 0
{
    if e <= 0 {
        (layers, x, y, s, Seq::empty())
    } else {
        let prev = spec_fit_from(o, layers, loss, bsize, lr, x, y, s, e - 1);
        let ep = spec_epoch(o, prev.0, loss, bsize, lr, prev.1, prev.2, prev.3);
        (ep.0, ep.1, ep.2, ep.3, prev.4.push(ep.4))
    }
}

/// The whole training run: initialize the optimizer state once, then run
/// `e` epochs.
pub open spec fn spec_fit<O: Optimizer>(
    o: O,
    layers: Seq<LayerView>,
    loss: Loss,
    bsize: int,
    lr: i64,
    x: Seq<MatView>,
    y: Seq<MatView>,
    s: u64,
    e: int,
) -> (Seq<LayerView>, Seq<MatView>, Seq<MatView>, u64, Seq<i64>) {
    spec_fit_from(
        o,
        spec_init_layers(o, layers, layers.len() as int),
        loss,
        bsize,
        lr,
        x,
        y,
        s,
        e,
    )
}

/// Training is deterministic: from equal strategies, layers, losses,
/// hyperparameters, datasets and seeds, two runs are one and the same
/// value, layer for layer and loss for loss.
pub proof fn lemma_fit_deterministic<O: Optimizer>(
    o1: O,
    o2: O,
    layers1: Seq<LayerView>,
    layers2: Seq<LayerView>,
    loss1: Loss,
    loss2: Loss,
    bsize: int,
    lr: i64,
    x1: Seq<MatView>,
    x2: Seq<MatView>,
    y1: Seq<MatView>,
    y2: Seq<MatView>,
    s1: u64,
    s2: u64,
    e: int,
)
    requires
        o1 == o2,
        layers1 == layers2,
        loss1 == loss2,
        x1 == x2,
        y1 == y2,
        s1 == s2,
    ensures
        spec_fit(o1, layers1, loss1, bsize, lr, x1, y1, s1, e) == spec_fit(
            o2,
            layers2,
            loss2,
            bsize,
            lr,
            x2,
            y2,
            s2,
            e,
        ),
{
}

/// Between the first and the last sample of a batch no layer's weights or
/// biases move: after any prefix of the batch's samples every layer still
/// holds the parameters it had when the batch began. The parameters change
/// exactly once per batch, in the update step that `spec_run_batches`
/// applies after the batch's last sample.
pub proof fn lemma_batch_boundary_update(
    layers: Seq<LayerView>,
    loss: Loss,
    x: Seq<MatView>,
    y: Seq<MatView>,
    start: int,
    k: int,
)
    requires
        layers.len() >= 1,
        spec_layers_wf(layers),
        spec_chained(layers),
        0 <= start,
        0 <= k,
        start + k <= x.len(),
        x.len() == y.len(),
        forall|i: int|
            start <= i < start + k ==> (#[trigger] x[i]).wf() && x[i].rows == layers[0].input_dim()
                && x[i].cols == 1,
    ensures
        ({
            let after = spec_run_samples(layers, loss, x, y, start, k).0;
            forall|j: int|
                0 <= j < layers.len() ==> (#[trigger] after[j]).weights == layers[j].weights
                    && after[j].biases == layers[j].biases
        }),
{
    lemma_run_samples_props(layers, loss, x, y, start, k);
}

/// The evaluation output depends only on the parameters of the layers,
/// never on their caches or accumulators.
pub proof fn lemma_eval_out_params(l1: Seq<LayerView>, l2: Seq<LayerView>, input: MatView, k: int)
    requires
        l1.len() == l2.len(),
        0 <= k <= l1.len(),
        forall|i: int| 0 <= i < l1.len() ==> spec_same_params(#[trigger] l1[i], l2[i]),
    ensures
        spec_eval_out(l1, input, k) == spec_eval_out(l2, input, k),
    decreases k,
{
    if k > 0 {
        lemma_eval_out_params(l1, l2, input, k - 1);
    }
}

/// The summed loss of the first `k` samples of a test set, each evaluated
/// against the same parameters.
pub open spec fn spec_sum_losses(
    layers: Seq<LayerView>,
    loss: Loss,
    x: Seq<MatView>,
    y: Seq<MatView>,
    k: int,
) -> i64
    decreases k,
    when k >= 0
{
    if k <= 0 {
        0
    } else {
        crate::fixed::spec_fx_add(
            spec_sum_losses(layers, loss, x, y, k - 1),
            crate::losses::spec_loss_value(
                loss,
                y[k - 1],
                spec_eval_out(layers, x[k - 1], layers.len() as int),
            ),
        )
    }
}

/// The mathematical value of a model: its layers and its loss.
pub ghost struct ModelView {
    pub layers: Seq<LayerView>,
    pub loss: Loss,
}

impl ModelView {
    /// The model invariant: at least one layer, every layer well-formed,
    /// and adjacent layers fit.
    pub open spec fn wf(self) -> bool {
        self.layers.len() >= 1 && spec_layers_wf(self.layers) && spec_chained(self.layers)
    }

    /// The input dimension of the first layer.
    pub open spec fn input_dim(self) -> nat {
        self.layers[0].input_dim()
    }

    /// The output dimension of the last layer.
    pub open spec fn output_dim(self) -> nat {
        self.layers[self.layers.len() - 1].output_dim()
    }
}

/// A model: an ordered, non-empty stack of layers and a loss.
pub struct Model {
    layers: Vec<Layer>,
    loss: Loss,
}

impl View for Model {
    type V = ModelView;

    closed spec fn view(&self) -> ModelView {
        ModelView {
            layers: Seq::new(self.layers@.len(), |i: int| self.layers@[i]@),
            loss: self.loss,
        }
    }
}

impl Model {
    /// A model from a non-empty stack of layers whose dimensions chain, and
    /// a loss.
    pub fn new(layers: Vec<Layer>, loss: Loss) -> (m: Model)
        requires
            layers@.len() >= 1,
            forall|i: int|
                0 <= i < layers@.len() - 1 ==> (#[trigger] layers@[i]@).output_dim()
                    == layers@[i + 1]@.input_dim(),
        ensures
            m@.wf(),
            m@.loss == loss,
            m@.layers.len() == layers@.len(),
            forall|i: int| 0 <= i < layers@.len() ==> m@.layers[i] == #[trigger] layers@[i]@,
    {
        let n: usize = layers.len();
        let mut i: usize = 0;
        while i < n
            invariant
                i <= n,
                n == layers@.len(),
                forall|j: int| 0 <= j < i ==> (#[trigger] layers@[j]@).wf(),
            decreases n - i,
        {
            let l: &Layer = &layers[i];
            proof {
                use_type_invariant(l);
            }
            i += 1;
        }
        Model { layers, loss }
    }

    /// Shuffle two equally long vectors jointly in place: one drawn
    /// permutation is applied to both, so that `x[i]` and `y[i]` stay
    /// paired.
    pub fn shuffle_dataset<T>(x: &mut Vec<T>, y: &mut Vec<T>, rng: &mut RandomSource)
        requires
            old(x)@.len() == old(y)@.len(),
        ensures
            ({
                let r = spec_shuffle(old(x)@, old(y)@, old(rng)@);
                &&& final(x)@ == r.0
                &&& final(y)@ == r.1
                &&& final(rng)@ == r.2
            }),
    {
        let ghost x0: Seq<T> = x@;
        let ghost y0: Seq<T> = y@;
        let ghost s0: u64 = rng@;
        let n: usize = x.len();
        if n == 0 {
            return ;
        }
        let mut i: usize = n - 1;
        while i > 0
            invariant
                i < n,
                n == x@.len(),
                x@.len() == y@.len(),
                spec_shuffle_from(x@, y@, rng@, i as int) == spec_shuffle(x0, y0, s0),
            decreases i,
        {
            let j: usize = rng.next_below(i + 1);
            vec_swap(x, i, j);
            vec_swap(y, i, j);
            i -= 1;
        }
    }

    /// The number of layers.
    pub fn layer_count(&self) -> (n: usize)
        ensures
            n == self@.layers.len(),
    {
        self.layers.len()
    }

    /// The layer at position `i`.
    pub fn get_layer_reference(&self, i: usize) -> (r: &Layer)
        requires
            i < self@.layers.len(),
        ensures
            r@ == self@.layers[i as int],
    {
        &self.layers[i]
    }

    /// Feed the input through every layer in order and return the last
    /// activated output. The only side effect is each layer's fresh cache.
    pub fn evaluate(&mut self, data: &Matrix) -> (r: Matrix)
        requires
            old(self)@.wf(),
            data@.wf(),
            data@.rows == old(self)@.input_dim(),
        ensures
            final(self)@.wf(),
            final(self)@.loss == old(self)@.loss,
            final(self)@.layers == spec_eval_layers(
                old(self)@.layers,
                data@,
                old(self)@.layers.len() as int,
            ),
            r@ == spec_eval_out(old(self)@.layers, data@, old(self)@.layers.len() as int),
            r@.wf(),
            r@.cols == data@.cols,
            r@.rows == old(self)@.output_dim(),
    {
        let ghost layers0: Seq<LayerView> = self@.layers;
        let n: usize = self.layers.len();
        let mut output: Matrix = data.clone();
        let mut i: usize = 0;
        while i < n
            invariant
                i <= n,
                n == self.layers@.len(),
                self@.loss == old(self)@.loss,
                layers0 == old(self)@.layers,
                layers0.len() == n,
                n >= 1,
                spec_layers_wf(layers0),
                spec_chained(layers0),
                data@.wf(),
                data@.rows == layers0[0].input_dim(),
                self@.layers == spec_eval_layers(layers0, data@, i as int),
                output@ == spec_eval_out(layers0, data@, i as int),
            decreases n - i,
        {
            proof {
                lemma_eval_layers_frame(layers0, data@, i as int);
                lemma_eval_out_shape(layers0, data@, i as int);
                assert(self@.layers[i as int] == layers0[i as int]);
                if i > 0 {
                    assert(layers0[i as int - 1].output_dim() == layers0[i as int].input_dim());
                }
            }
            let next: Matrix = self.layers[i].forward(&output);
            output = next;
            i += 1;
            proof {
                assert(self@.layers =~= spec_eval_layers(layers0, data@, i as int));
            }
        }
        proof {
            lemma_eval_out_shape(layers0, data@, n as int);
            lemma_eval_layers_wf(layers0, data@);
        }
        output
    }

    /// One backward pass for one sample: seed the output layer with the
    /// loss derivative, walk the layers from last to first against the
    /// frozen caches of the forward pass, and add each layer's gradients
    /// into its accumulators. Parameters and caches are untouched.
    #[verifier::rlimit(100)]
    pub fn backpropagation(&mut self, expected: &Matrix, network_input: &Matrix, predicted: &Matrix)
        requires
            old(self)@.wf(),
            spec_caches_ok(old(self)@.layers, 1),
            network_input@.wf(),
            network_input@.rows == old(self)@.input_dim(),
            network_input@.cols == 1,
            expected@.wf(),
            expected@.rows == old(self)@.output_dim(),
            expected@.cols == 1,
            predicted@.wf(),
            predicted@.rows == old(self)@.output_dim(),
            predicted@.cols == 1,
        ensures
            final(self)@.wf(),
            final(self)@.loss == old(self)@.loss,
            final(self)@.layers == spec_bp_layers(
                old(self)@.layers,
                network_input@,
                spec_loss_deriv(old(self)@.loss, expected@, predicted@),
            ),
    {
        let ghost layers0: Seq<LayerView> = self@.layers;
        let ghost seed: MatView = spec_loss_deriv(self@.loss, expected@, predicted@);
        let mut delta: Matrix = self.loss.derivative(expected, predicted);
        let n: usize = self.layers.len();
        let mut i: usize = n;
        while i > 0
            invariant
                i <= n,
                n == self.layers@.len(),
                n >= 1,
                layers0 == old(self)@.layers,
                layers0.len() == n,
                spec_layers_wf(layers0),
                spec_chained(layers0),
                spec_caches_ok(layers0, 1),
                self@.loss == old(self)@.loss,
                seed == spec_loss_deriv(old(self)@.loss, expected@, predicted@),
                seed.wf(),
                seed.rows == layers0[n - 1].output_dim(),
                seed.cols == 1,
                network_input@.wf(),
                network_input@.rows == layers0[0].input_dim(),
                network_input@.cols == 1,
                forall|j: int|
                    i <= j < n ==> (#[trigger] self.layers@[j])@ == spec_bp_layers(
                        layers0,
                        network_input@,
                        seed,
                    )[j],
                forall|j: int| 0 <= j < i ==> (#[trigger] self.layers@[j])@ == layers0[j],
                delta@ == (if i == n {
                    seed
                } else {
                    spec_bp_delta(layers0, seed, i as int)
                }),
            decreases i,
        {
            i -= 1;
            let last_layer: bool = i == n - 1;
            proof {
                if i < n - 1 {
                    lemma_bp_delta_shape(layers0, seed, 1, i as int + 1);
                }
            }
            let next_layer_weights: Matrix = if last_layer {
                Matrix::zeros(0, 0)
            } else {
                proof {
                    assert(self@.layers[i as int + 1].weights == layers0[i as int + 1].weights);
                }
                self.layers[i + 1].get_weights_reference().clone()
            };
            let previous_layer_output: Matrix = if i == 0 {
                network_input.clone()
            } else {
                self.layers[i - 1].get_last_output().clone()
            };
            proof {
                if i > 0 {
                    assert(layers0[i as int - 1].wf());
                    assert(previous_layer_output@.wf());
                }
            }
            let (next_layer_errors, next_layer_delta): (Matrix, Matrix) = self.layers[i]
                .propagate_error(last_layer, &delta, &next_layer_weights, &previous_layer_output);
            proof {
                assert(next_layer_delta@ == spec_bp_delta(layers0, seed, i as int));
                assert(previous_layer_output@ == spec_prev_out(layers0, network_input@, i as int));
                assert(next_layer_errors@ == spec_bp_gradient(
                    layers0,
                    network_input@,
                    seed,
                    i as int,
                ));
                lemma_bp_delta_shape(layers0, seed, 1, i as int);
                if i > 0 {
                    assert(layers0[i as int - 1].output_dim() == layers0[i as int].input_dim());
                }
            }
            self.layers[i].sum_errors_and_deltas(&next_layer_delta, &next_layer_errors);
            proof {
                assert(spec_bp_layers(layers0, network_input@, seed)[i as int] == (LayerView {
                    errors: spec_mat_add(
                        layers0[i as int].errors,
                        spec_bp_gradient(layers0, network_input@, seed, i as int),
                    ),
                    deltas: spec_mat_add(
                        layers0[i as int].deltas,
                        spec_bp_delta(layers0, seed, i as int),
                    ),
                    ..layers0[i as int]
                }));
                assert((self.layers@[i as int])@ == spec_bp_layers(
                    layers0,
                    network_input@,
                    seed,
                )[i as int]);
            }
            delta = next_layer_delta;
        }
        proof {
            assert(self@.layers =~= spec_bp_layers(layers0, network_input@, seed));
            lemma_bp_layers_wf(layers0, network_input@, seed);
        }
    }

    /// Install the strategy's per-layer state in every layer, in order.
    fn init_optimizer<O: Optimizer>(&mut self, optimizer: &O)
        requires
            old(self)@.wf(),
            optimizer.spec_valid(),
        ensures
            final(self)@.wf(),
            final(self)@.loss == old(self)@.loss,
            final(self)@.layers == spec_init_layers(
                *optimizer,
                old(self)@.layers,
                old(self)@.layers.len() as int,
            ),
            spec_all_ready(*optimizer, final(self)@.layers),
            final(self)@.layers.len() == old(self)@.layers.len(),
            final(self)@.input_dim() == old(self)@.input_dim(),
            final(self)@.output_dim() == old(self)@.output_dim(),
    {
        let ghost layers0: Seq<LayerView> = self@.layers;
        let n: usize = self.layers.len();
        let mut i: usize = 0;
        while i < n
            invariant
                i <= n,
                n == self.layers@.len(),
                self@.loss == old(self)@.loss,
                layers0 == old(self)@.layers,
                layers0.len() == n,
                n >= 1,
                spec_layers_wf(layers0),
                spec_chained(layers0),
                optimizer.spec_valid(),
                self@.layers == spec_init_layers(*optimizer, layers0, i as int),
            decreases n - i,
        {
            proof {
                lemma_init_layers_props(*optimizer, layers0, i as int);
                assert(self@.layers[i as int] == layers0[i as int]);
            }
            optimizer.initialize_layer_additional_params(&mut self.layers[i]);
            i += 1;
            proof {
                assert(self@.layers =~= spec_init_layers(*optimizer, layers0, i as int));
            }
        }
        proof {
            lemma_init_layers_props(*optimizer, layers0, n as int);
        }
    }

    /// One sample of training: evaluate, take the loss, and accumulate this
    /// sample's gradients by backpropagation. No parameter moves.
    fn train_sample(&mut self, xi: &Matrix, yi: &Matrix) -> (l: i64)
        requires
            old(self)@.wf(),
            xi@.wf(),
            xi@.rows == old(self)@.input_dim(),
            xi@.cols == 1,
            yi@.wf(),
            yi@.rows == old(self)@.output_dim(),
            yi@.cols == 1,
        ensures
            final(self)@.wf(),
            final(self)@.loss == old(self)@.loss,
            (final(self)@.layers, l) == spec_sample(
                old(self)@.layers,
                old(self)@.loss,
                xi@,
                yi@,
            ),
            final(self)@.layers.len() == old(self)@.layers.len(),
            forall|i: int|
                0 <= i < old(self)@.layers.len() ==> spec_same_params(
                    #[trigger] final(self)@.layers[i],
                    old(self)@.layers[i],
                ),
            final(self)@.input_dim() == old(self)@.input_dim(),
            final(self)@.output_dim() == old(self)@.output_dim(),
    {
        let ghost layers0: Seq<LayerView> = self@.layers;
        let prediction: Matrix = self.evaluate(xi);
        proof {
            lemma_eval_layers_wf(layers0, xi@);
        }
        let l: i64 = self.loss.value(yi, &prediction);
        self.backpropagation(yi, xi, &prediction);
        proof {
            lemma_sample_props(layers0, old(self)@.loss, xi@, yi@);
        }
        l
    }

    /// Let the strategy update every layer from its accumulators, then
    /// clear the accumulators, in layer order.
    #[verifier::rlimit(60)]
    fn update_all<O: Optimizer>(&mut self, optimizer: &mut O, blen: usize, learning_rate: i64)
        requires
            old(self)@.wf(),
            old(optimizer).spec_valid(),
            spec_all_ready(*old(optimizer), old(self)@.layers),
            blen > 0,
        ensures
            final(self)@.wf(),
            final(self)@.loss == old(self)@.loss,
            final(self)@.layers == spec_update_layers(
                *old(optimizer),
                old(self)@.layers,
                blen as int,
                learning_rate,
                old(self)@.layers.len() as int,
            ),
            spec_all_ready(*old(optimizer), final(self)@.layers),
            *final(optimizer) == *old(optimizer),
            final(self)@.layers.len() == old(self)@.layers.len(),
            final(self)@.input_dim() == old(self)@.input_dim(),
            final(self)@.output_dim() == old(self)@.output_dim(),
    {
        let ghost o: O = *optimizer;
        let ghost layers0: Seq<LayerView> = self@.layers;
        let n: usize = self.layers.len();
        let mut i: usize = 0;
        while i < n
            invariant
                i <= n,
                n == self.layers@.len(),
                self@.loss == old(self)@.loss,
                layers0 == old(self)@.layers,
                layers0.len() == n,
                n >= 1,
                spec_layers_wf(layers0),
                spec_chained(layers0),
                spec_all_ready(o, layers0),
                o.spec_valid(),
                blen > 0,
                *optimizer == o,
                self@.layers == spec_update_layers(o, layers0, blen as int, learning_rate, i as int),
            decreases n - i,
        {
            proof {
                lemma_update_layers_props(o, layers0, blen as int, learning_rate, i as int);
                assert(self@.layers[i as int] == layers0[i as int]);
            }
            optimizer.update_params(blen, &mut self.layers[i], learning_rate);
            self.layers[i].clear_error_and_delta();
            i += 1;
            proof {
                assert(self@.layers =~= spec_update_layers(
                    o,
                    layers0,
                    blen as int,
                    learning_rate,
                    i as int,
                ));
            }
        }
        proof {
            lemma_update_layers_props(o, layers0, blen as int, learning_rate, n as int);
        }
    }

    /// One batch: run each of its samples through evaluation and
    /// backpropagation, then let the strategy update every layer once and
    /// clear the accumulators. Returns the batch's summed sample loss.
    fn run_batch<O: Optimizer>(
        &mut self,
        optimizer: &mut O,
        x: &Vec<Matrix>,
        y: &Vec<Matrix>,
        start: usize,
        blen: usize,
        learning_rate: i64,
    ) -> (bl: i64)
        requires
            old(self)@.wf(),
            old(optimizer).spec_valid(),
            spec_all_ready(*old(optimizer), old(self)@.layers),
            blen >= 1,
            start + blen <= x@.len(),
            x@.len() == y@.len(),
            forall|i: int|
                0 <= i < x@.len() ==> (#[trigger] x@[i])@.wf() && x@[i]@.rows == old(
                    self,
                )@.input_dim() && x@[i]@.cols == 1,
            forall|i: int|
                0 <= i < y@.len() ==> (#[trigger] y@[i])@.wf() && y@[i]@.rows == old(
                    self,
                )@.output_dim() && y@[i]@.cols == 1,
        ensures
            ({
                let r = spec_run_samples(
                    old(self)@.layers,
                    old(self)@.loss,
                    spec_views(x@),
                    spec_views(y@),
                    start as int,
                    blen as int,
                );
                &&& bl == r.1
                &&& final(self)@.layers == spec_update_layers(
                    *old(optimizer),
                    r.0,
                    blen as int,
                    learning_rate,
                    old(self)@.layers.len() as int,
                )
            }),
            final(self)@.wf(),
            final(self)@.loss == old(self)@.loss,
            spec_all_ready(*old(optimizer), final(self)@.layers),
            *final(optimizer) == *old(optimizer),
            final(self)@.layers.len() == old(self)@.layers.len(),
            final(self)@.input_dim() == old(self)@.input_dim(),
            final(self)@.output_dim() == old(self)@.output_dim(),
    {
        let ghost o: O = *optimizer;
        let ghost layers_b: Seq<LayerView> = self@.layers;
        let ghost sxv: Seq<MatView> = spec_views(x@);
        let ghost syv: Seq<MatView> = spec_views(y@);
        let ghost in_dim: nat = self@.input_dim();
        let ghost out_dim: nat = self@.output_dim();
        let nx: usize = x.len();
        proof {
            assert forall|i: int| start <= i < start + blen implies (#[trigger] sxv[i]).wf()
                && sxv[i].rows == in_dim && sxv[i].cols == 1 by {
                assert(sxv[i] == x@[i]@);
            }
        }
        let mut batch_loss: i64 = 0;
        let mut sidx: usize = 0;
        while sidx < blen
            invariant
                sidx <= blen,
                blen >= 1,
                nx == x@.len(),
                start + blen <= x@.len(),
                x@.len() == y@.len(),
                self@.wf(),
                self@.loss == old(self)@.loss,
                self@.layers.len() == layers_b.len(),
                layers_b == old(self)@.layers,
                layers_b.len() >= 1,
                spec_layers_wf(layers_b),
                spec_chained(layers_b),
                in_dim == layers_b[0].input_dim(),
                out_dim == layers_b[layers_b.len() - 1].output_dim(),
                self@.input_dim() == in_dim,
                self@.output_dim() == out_dim,
                sxv == spec_views(x@),
                syv == spec_views(y@),
                forall|i: int|
                    start <= i < start + blen ==> (#[trigger] sxv[i]).wf() && sxv[i].rows
                        == in_dim && sxv[i].cols == 1,
                forall|i: int|
                    0 <= i < y@.len() ==> (#[trigger] y@[i])@.wf() && y@[i]@.rows == out_dim
                        && y@[i]@.cols == 1,
                (self@.layers, batch_loss) == spec_run_samples(
                    layers_b,
                    self@.loss,
                    sxv,
                    syv,
                    start as int,
                    sidx as int,
                ),
            decreases blen - sidx,
        {
            proof {
                assert(sxv[start + sidx as int] == x@[start + sidx as int]@);
                assert(syv[start + sidx as int] == y@[start + sidx as int]@);
            }
            let l: i64 = self.train_sample(&x[start + sidx], &y[start + sidx]);
            batch_loss = crate::fixed::fx_add(batch_loss, l);
            sidx += 1;
        }
        proof {
            assert forall|i: int| 0 <= i < self@.layers.len() implies o.spec_ready(
                #[trigger] self@.layers[i],
            ) by {
                lemma_run_samples_props(layers_b, self@.loss, sxv, syv, start as int, blen as int);
                o.lemma_ready_frame(layers_b[i], self@.layers[i]);
            }
        }
        self.update_all(optimizer, blen, learning_rate);
        batch_loss
    }

    /// One epoch: shuffle the dataset jointly, then run every batch in
    /// order. Returns the epoch's mean batch loss.
    #[verifier::rlimit(100)]
    fn run_epoch<O: Optimizer>(
        &mut self,
        optimizer: &mut O,
        x: &mut Vec<Matrix>,
        y: &mut Vec<Matrix>,
        rng: &mut RandomSource,
        batch_size: usize,
        learning_rate: i64,
    ) -> (el: i64)
        requires
            old(self)@.wf(),
            batch_size > 0,
            old(optimizer).spec_valid(),
            spec_all_ready(*old(optimizer), old(self)@.layers),
            old(x)@.len() == old(y)@.len(),
            old(x)@.len() >= 1,
            forall|i: int|
                0 <= i < old(x)@.len() ==> (#[trigger] old(x)@[i])@.wf() && old(x)@[i]@.rows
                    == old(self)@.input_dim() && old(x)@[i]@.cols == 1,
            forall|i: int|
                0 <= i < old(y)@.len() ==> (#[trigger] old(y)@[i])@.wf() && old(y)@[i]@.rows
                    == old(self)@.output_dim() && old(y)@[i]@.cols == 1,
        ensures
            ({
                let ep = spec_epoch(
                    *old(optimizer),
                    old(self)@.layers,
                    old(self)@.loss,
                    batch_size as int,
                    learning_rate,
                    spec_views(old(x)@),
                    spec_views(old(y)@),
                    old(rng)@,
                );
                &&& final(self)@.layers == ep.0
                &&& spec_views(final(x)@) == ep.1
                &&& spec_views(final(y)@) == ep.2
                &&& final(rng)@ == ep.3
                &&& el == ep.4
            }),
            final(self)@.wf(),
            final(self)@.loss == old(self)@.loss,
            spec_all_ready(*old(optimizer), final(self)@.layers),
            *final(optimizer) == *old(optimizer),
            final(self)@.layers.len() == old(self)@.layers.len(),
            final(self)@.input_dim() == old(self)@.input_dim(),
            final(self)@.output_dim() == old(self)@.output_dim(),
            final(x)@.len() == old(x)@.len(),
            final(y)@.len() == old(y)@.len(),
            forall|i: int|
                0 <= i < final(x)@.len() ==> (#[trigger] final(x)@[i])@.wf()
                    && final(x)@[i]@.rows == old(self)@.input_dim() && final(x)@[i]@.cols == 1,
            forall|i: int|
                0 <= i < final(y)@.len() ==> (#[trigger] final(y)@[i])@.wf()
                    && final(y)@[i]@.rows == old(self)@.output_dim() && final(y)@[i]@.cols == 1,
    {
        let ghost o: O = *optimizer;
        let ghost loss0: Loss = self@.loss;
        let ghost in_dim: nat = self@.input_dim();
        let ghost out_dim: nat = self@.output_dim();
        let ghost layers_e: Seq<LayerView> = self@.layers;
        let ghost xe: Seq<Matrix> = x@;
        let ghost ye: Seq<Matrix> = y@;
        let ghost se: u64 = rng@;
        let n_samples: usize = x.len();
        Model::shuffle_dataset(x, y, rng);
        proof {
            lemma_shuffle_views(xe, ye, se);
            lemma_shuffle_from_props(
                xe,
                ye,
                se,
                n_samples as int - 1,
                |m: Matrix| m@.wf() && m@.rows == in_dim && m@.cols == 1,
                |m: Matrix| m@.wf() && m@.rows == out_dim && m@.cols == 1,
            );
        }
        let ghost sxv: Seq<MatView> = spec_views(x@);
        let ghost syv: Seq<MatView> = spec_views(y@);
        let mut epoch_loss: i64 = 0;
        let mut start: usize = 0;
        while start < n_samples
            invariant
                start <= n_samples,
                batch_size > 0,
                o.spec_valid(),
                *optimizer == o,
                self@.wf(),
                self@.loss == loss0,
                spec_all_ready(o, self@.layers),
                self@.layers.len() == layers_e.len(),
                self@.input_dim() == in_dim,
                self@.output_dim() == out_dim,
                x@.len() == n_samples,
                y@.len() == n_samples,
                n_samples >= 1,
                sxv == spec_views(x@),
                syv == spec_views(y@),
                forall|i: int|
                    0 <= i < x@.len() ==> (#[trigger] x@[i])@.wf() && x@[i]@.rows == in_dim
                        && x@[i]@.cols == 1,
                forall|i: int|
                    0 <= i < y@.len() ==> (#[trigger] y@[i])@.wf() && y@[i]@.rows == out_dim
                        && y@[i]@.cols == 1,
                spec_run_batches(
                    o,
                    self@.layers,
                    loss0,
                    batch_size as int,
                    learning_rate,
                    sxv,
                    syv,
                    start as int,
                    epoch_loss,
                ) == spec_run_batches(
                    o,
                    layers_e,
                    loss0,
                    batch_size as int,
                    learning_rate,
                    sxv,
                    syv,
                    0,
                    0,
                ),
            decreases n_samples - start,
        {
            let blen: usize = if n_samples - start < batch_size {
                n_samples - start
            } else {
                batch_size
            };
            let ghost lcur: Seq<LayerView> = self@.layers;
            let ghost eloss0: i64 = epoch_loss;
            let batch_loss: i64 = self.run_batch(optimizer, x, y, start, blen, learning_rate);
            epoch_loss = crate::fixed::fx_add(
                epoch_loss,
                crate::fixed::fx_divn(batch_loss, blen),
            );
            start += blen;
            proof {
                assert(spec_run_batches(
                    o,
                    lcur,
                    loss0,
                    batch_size as int,
                    learning_rate,
                    sxv,
                    syv,
                    start as int - blen as int,
                    eloss0,
                ) == spec_run_batches(
                    o,
                    self@.layers,
                    loss0,
                    batch_size as int,
                    learning_rate,
                    sxv,
                    syv,
                    start as int,
                    epoch_loss,
                ));
            }
        }
        proof {
            vstd::arithmetic::div_mod::lemma_div_pos_is_pos(n_samples as int, batch_size as int);
            vstd::arithmetic::div_mod::lemma_div_nonincreasing(n_samples as int, batch_size as int);
            if n_samples % batch_size != 0 {
                if batch_size == 1 {
                    vstd::arithmetic::div_mod::lemma_fundamental_div_mod_converse_mod(
                        n_samples as int,
                        1,
                        n_samples as int,
                        0,
                    );
                }
                vstd::arithmetic::div_mod::lemma_div_is_ordered_by_denominator(
                    n_samples as int,
                    2,
                    batch_size as int,
                );
                vstd::arithmetic::div_mod::lemma_div_is_ordered(
                    n_samples as int,
                    usize::MAX as int,
                    2,
                );
            }
            if n_samples / batch_size == 0 {
                vstd::arithmetic::div_mod::lemma_small_div_converse(
                    n_samples as int,
                    batch_size as int,
                );
                vstd::arithmetic::div_mod::lemma_small_mod(
                    n_samples as nat,
                    batch_size as nat,
                );
            }
        }
        let n_batches: usize = n_samples / batch_size + if n_samples % batch_size != 0 {
            1
        } else {
            0
        };
        proof {
            assert(n_batches as int == spec_batch_count(n_samples as int, batch_size as int));
        }
        crate::fixed::fx_divn(epoch_loss, n_batches)
    }

    /// The training loop. The optimizer state of every layer is installed
    /// once; then each epoch shuffles the dataset jointly, splits it into
    /// contiguous batches of `batch_size` (the last may be shorter), runs
    /// every sample of a batch through evaluation and backpropagation, and
    /// only then lets the strategy update each layer once and clears its
    /// accumulators. Returns one mean batch loss per epoch.
    ///
    /// The result is a function of the model, the dataset, the
    /// hyperparameters and the seed alone: training is deterministic.
    #[verifier::rlimit(100)]
    pub fn fit<O: Optimizer>(
        &mut self,
        batch_size: usize,
        epochs: usize,
        learning_rate: i64,
        optimizer: &mut O,
        x: Vec<Matrix>,
        y: Vec<Matrix>,
        rng: &mut RandomSource,
    ) -> (losses: Vec<i64>)
        requires
            old(self)@.wf(),
            batch_size > 0,
            old(optimizer).spec_valid(),
            x@.len() == y@.len(),
            x@.len() >= 1,
            forall|i: int|
                0 <= i < x@.len() ==> (#[trigger] x@[i])@.wf() && x@[i]@.rows == old(
                    self,
                )@.input_dim() && x@[i]@.cols == 1,
            forall|i: int|
                0 <= i < y@.len() ==> (#[trigger] y@[i])@.wf() && y@[i]@.rows == old(
                    self,
                )@.output_dim() && y@[i]@.cols == 1,
        ensures
            ({
                let r = spec_fit(
                    *old(optimizer),
                    old(self)@.layers,
                    old(self)@.loss,
                    batch_size as int,
                    learning_rate,
                    spec_views(x@),
                    spec_views(y@),
                    old(rng)@,
                    epochs as int,
                );
                &&& final(self)@.layers == r.0
                &&& final(rng)@ == r.3
                &&& losses@ == r.4
            }),
            final(self)@.wf(),
            final(self)@.loss == old(self)@.loss,
            *final(optimizer) == *old(optimizer),
    {
        let ghost o: O = *optimizer;
        let ghost loss0: Loss = self@.loss;
        let ghost xv0: Seq<MatView> = spec_views(x@);
        let ghost yv0: Seq<MatView> = spec_views(y@);
        let ghost s0: u64 = rng@;
        let ghost in_dim: nat = self@.input_dim();
        let ghost out_dim: nat = self@.output_dim();
        let mut x: Vec<Matrix> = x;
        let mut y: Vec<Matrix> = y;
        let opt_ref: &O = optimizer;
        self.init_optimizer(opt_ref);
        let ghost layers_init: Seq<LayerView> = self@.layers;
        proof {
            lemma_init_layers_props(o, old(self)@.layers, old(self)@.layers.len() as int);
        }
        let mut losses: Vec<i64> = Vec::new();
        let n_samples: usize = x.len();
        let mut e: usize = 0;
        while e < epochs
            invariant
                e <= epochs,
                batch_size > 0,
                o.spec_valid(),
                *optimizer == o,
                self@.wf(),
                self@.loss == loss0,
                spec_all_ready(o, self@.layers),
                self@.layers.len() == layers_init.len(),
                self@.input_dim() == in_dim,
                self@.output_dim() == out_dim,
                x@.len() == n_samples,
                y@.len() == n_samples,
                n_samples >= 1,
                forall|i: int|
                    0 <= i < x@.len() ==> (#[trigger] x@[i])@.wf() && x@[i]@.rows == in_dim
                        && x@[i]@.cols == 1,
                forall|i: int|
                    0 <= i < y@.len() ==> (#[trigger] y@[i])@.wf() && y@[i]@.rows == out_dim
                        && y@[i]@.cols == 1,
                (self@.layers, spec_views(x@), spec_views(y@), rng@, losses@) == spec_fit_from(
                    o,
                    layers_init,
                    loss0,
                    batch_size as int,
                    learning_rate,
                    xv0,
                    yv0,
                    s0,
                    e as int,
                ),
            decreases epochs - e,
        {
            let ghost layers_e: Seq<LayerView> = self@.layers;
            let ghost xe: Seq<Matrix> = x@;
            let ghost ye: Seq<Matrix> = y@;
            let ghost se: u64 = rng@;
            let el: i64 = self.run_epoch(optimizer, &mut x, &mut y, rng, batch_size, learning_rate);
            losses.push(el);
            e += 1;
            proof {
                let ep = spec_epoch(
                    o,
                    layers_e,
                    loss0,
                    batch_size as int,
                    learning_rate,
                    spec_views(xe),
                    spec_views(ye),
                    se,
                );
                assert((self@.layers, spec_views(x@), spec_views(y@), rng@, losses@)
                    == spec_fit_from(
                    o,
                    layers_init,
                    loss0,
                    batch_size as int,
                    learning_rate,
                    xv0,
                    yv0,
                    s0,
                    e as int,
                ));
            }
        }
        losses
    }

    /// Evaluate a held-out set: the mean loss over the samples, and each
    /// sample's prediction, for the caller to report on. The parameters are
    /// untouched; only the caches move.
    pub fn test(&mut self, x: &Vec<Matrix>, y: &Vec<Matrix>) -> (r: (i64, Vec<Matrix>))
        requires
            old(self)@.wf(),
            x@.len() == y@.len(),
            x@.len() >= 1,
            forall|i: int|
                0 <= i < x@.len() ==> (#[trigger] x@[i])@.wf() && x@[i]@.rows == old(
                    self,
                )@.input_dim() && x@[i]@.cols == 1,
            forall|i: int|
                0 <= i < y@.len() ==> (#[trigger] y@[i])@.wf() && y@[i]@.rows == old(
                    self,
                )@.output_dim() && y@[i]@.cols == 1,
        ensures
            final(self)@.wf(),
            final(self)@.loss == old(self)@.loss,
            final(self)@.layers.len() == old(self)@.layers.len(),
            forall|i: int|
                0 <= i < old(self)@.layers.len() ==> spec_same_params(
                    #[trigger] final(self)@.layers[i],
                    old(self)@.layers[i],
                ),
            r.0 == crate::fixed::spec_fx_divn(
                spec_sum_losses(
                    old(self)@.layers,
                    old(self)@.loss,
                    spec_views(x@),
                    spec_views(y@),
                    x@.len() as int,
                ),
                x@.len() as int,
            ),
            r.1@.len() == x@.len(),
            forall|i: int|
                0 <= i < x@.len() ==> (#[trigger] r.1@[i])@ == spec_eval_out(
                    old(self)@.layers,
                    x@[i]@,
                    old(self)@.layers.len() as int,
                ),
    {
        let ghost layers0: Seq<LayerView> = self@.layers;
        let ghost loss0: Loss = self@.loss;
        let ghost xv: Seq<MatView> = spec_views(x@);
        let ghost yv: Seq<MatView> = spec_views(y@);
        let ghost in_dim: nat = self@.input_dim();
        let ghost out_dim: nat = self@.output_dim();
        let n: usize = x.len();
        let mut loss_sum: i64 = 0;
        let mut predictions: Vec<Matrix> = Vec::new();
        let mut i: usize = 0;
        while i < n
            invariant
                i <= n,
                n == x@.len(),
                x@.len() == y@.len(),
                self@.wf(),
                self@.loss == loss0,
                self@.layers.len() == layers0.len(),
                layers0.len() >= 1,
                spec_layers_wf(layers0),
                in_dim == layers0[0].input_dim(),
                out_dim == layers0[layers0.len() - 1].output_dim(),
                self@.input_dim() == in_dim,
                self@.output_dim() == out_dim,
                xv == spec_views(x@),
                yv == spec_views(y@),
                forall|k: int|
                    0 <= k < x@.len() ==> (#[trigger] x@[k])@.wf() && x@[k]@.rows == in_dim
                        && x@[k]@.cols == 1,
                forall|k: int|
                    0 <= k < y@.len() ==> (#[trigger] y@[k])@.wf() && y@[k]@.rows == out_dim
                        && y@[k]@.cols == 1,
                forall|k: int|
                    0 <= k < layers0.len() ==> spec_same_params(
                        #[trigger] self@.layers[k],
                        layers0[k],
                    ),
                loss_sum == spec_sum_losses(layers0, loss0, xv, yv, i as int),
                predictions@.len() == i,
                forall|k: int|
                    0 <= k < i ==> (#[trigger] predictions@[k])@ == spec_eval_out(
                        layers0,
                        x@[k]@,
                        layers0.len() as int,
                    ),
            decreases n - i,
        {
            let ghost lcur: Seq<LayerView> = self@.layers;
            let prediction: Matrix = self.evaluate(&x[i]);
            proof {
                lemma_eval_out_params(lcur, layers0, x@[i as int]@, layers0.len() as int);
                lemma_eval_layers_wf(lcur, x@[i as int]@);
                assert(xv[i as int] == x@[i as int]@);
                assert(yv[i as int] == y@[i as int]@);
            }
            let l: i64 = self.loss.value(&y[i], &prediction);
            loss_sum = crate::fixed::fx_add(loss_sum, l);
            predictions.push(prediction);
            i += 1;
        }
        let avg: i64 = crate::fixed::fx_divn(loss_sum, n);
        (avg, predictions)
    }
}

} // verus!
