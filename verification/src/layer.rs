//! One network layer: an affine transform, an activation, gradient
//! accumulators, cached outputs of the most recent forward pass, and the
//! optimizer's per-layer state.
//!
//! The layer invariant ties every auxiliary matrix to the shape of the
//! parameters it belongs to: the bias, delta accumulator and moving averages
//! are columns of the output dimension, and the error accumulator always has
//! the shape of the weight matrix.

use vstd::prelude::*;

verus! {

use crate::activations::{Activation, spec_act_apply, spec_act_deriv};
use crate::fixed::{spec_fx_mul, fx_mul, SCALE};
use crate::matrix::{Matrix, MatView, MAX_DIM, spec_mat_zero, spec_mat_add, spec_mat_sub,
    spec_mat_mul, spec_mat_hadamard, spec_mat_transpose, spec_mat_add_bias, spec_mat_scale,
    spec_mat_divn};
use crate::random::{RandomSource, spec_state_after, spec_draw};

/// Per-layer state of the moving-average optimizer: one running average per
/// parameter tensor.
pub struct RmsPropState {
    pub weights_moving_avg: Matrix,
    pub biases_moving_avg: Matrix,
}

/// The mathematical value of the optimizer state.
pub ghost struct RmsStateView {
    pub weights_moving_avg: MatView,
    pub biases_moving_avg: MatView,
}

impl View for RmsPropState {
    type V = RmsStateView;

    open spec fn view(&self) -> RmsStateView {
        RmsStateView {
            weights_moving_avg: self.weights_moving_avg@,
            biases_moving_avg: self.biases_moving_avg@,
        }
    }
}

/// The view of an optional optimizer state.
pub open spec fn spec_opt_state_view(o: Option<RmsPropState>) -> Option<RmsStateView> {
    match o {
        Some(st) => Some(st@),
        None => None,
    }
}

/// The mathematical value of a layer.
pub ghost struct LayerView {
    pub activation: Activation,
    pub weights: MatView,
    pub biases: MatView,
    pub deltas: MatView,
    pub errors: MatView,
    pub last_raw_output: MatView,
    pub last_activated_output: MatView,
    pub optimizer_params: Option<RmsStateView>,
}

impl LayerView {
    /// The input dimension: the width of the weight matrix.
    pub open spec fn input_dim(self) -> nat {
        self.weights.cols
    }

    /// The output dimension: the height of the weight matrix.
    pub open spec fn output_dim(self) -> nat {
        self.weights.rows
    }

    /// The layer invariant: the accumulators always have the shapes of the
    /// parameters they accumulate for, the bias is one column, and any
    /// optimizer state mirrors the parameter shapes.
    pub open spec fn wf(self) -> bool {
        &&& self.weights.wf()
        &&& self.biases.wf()
        &&& self.deltas.wf()
        &&& self.errors.wf()
        &&& self.last_raw_output.wf()
        &&& self.last_activated_output.wf()
        &&& self.biases.rows == self.weights.rows
        &&& self.biases.cols == 1
        &&& self.deltas.rows == self.weights.rows
        &&& self.deltas.cols == 1
        &&& self.errors.rows == self.weights.rows
        &&& self.errors.cols == self.weights.cols
        &&& match self.optimizer_params {
            Some(st) => {
                &&& st.weights_moving_avg.wf()
                &&& st.weights_moving_avg.rows == self.weights.rows
                &&& st.weights_moving_avg.cols == self.weights.cols
                &&& st.biases_moving_avg.wf()
                &&& st.biases_moving_avg.rows == self.weights.rows
                &&& st.biases_moving_avg.cols == 1
                &&& forall|i: int|
                    0 <= i < st.weights_moving_avg.ent.len()
                        ==> #[trigger] st.weights_moving_avg.ent[i] >= 0
                &&& forall|i: int|
                    0 <= i < st.biases_moving_avg.ent.len()
                        ==> #[trigger] st.biases_moving_avg.ent[i] >= 0
            },
            None => true,
        }
    }
}

/// The raw affine output of a layer on `input`: weights times input, the
/// bias broadcast over the columns.
pub open spec fn spec_forward_raw(l: LayerView, input: MatView) -> MatView {
    spec_mat_add_bias(spec_mat_mul(l.weights, input), l.biases)
}

/// A layer after one forward pass: both caches replaced, everything else
/// untouched.
pub open spec fn spec_layer_forward(l: LayerView, input: MatView) -> LayerView {
    let raw = spec_forward_raw(l, input);
    LayerView {
        last_raw_output: raw,
        last_activated_output: spec_act_apply(l.activation, raw),
        ..l
    }
}

/// The chain-rule step of one layer: the local error signal, and the
/// gradient with respect to the weights.
///
/// For the output layer the incoming signal is the loss derivative and is
/// combined directly with the activation derivative; for any other layer the
/// incoming signal is first pulled back through the following layer's
/// weights. The bias gradient is the error signal itself.
pub open spec fn spec_propagate(
    l: LayerView,
    last_layer: bool,
    next_layer_delta: MatView,
    next_layer_weights: MatView,
    previous_layer_output: MatView,
) -> (MatView, MatView) {
    let g = spec_act_deriv(l.activation, l.last_raw_output);
    let delta = if last_layer {
        spec_mat_hadamard(g, next_layer_delta)
    } else {
        spec_mat_hadamard(spec_mat_mul(spec_mat_transpose(next_layer_weights), next_layer_delta), g)
    };
    (spec_mat_mul(delta, spec_mat_transpose(previous_layer_output)), delta)
}

/// With the identity activation, the forward pass is exactly the affine
/// map: the activated output equals weights times input plus bias.
pub proof fn lemma_forward_identity(l: LayerView, input: MatView)
    requires
        l.activation == Activation::Identity,
    ensures
        spec_layer_forward(l, input).last_activated_output == spec_mat_add_bias(
            spec_mat_mul(l.weights, input),
            l.biases,
        ),
{
}

/// The gradient-shape invariant: in every well-formed layer the weight
/// gradient accumulator has the shape of the weights and the bias gradient
/// accumulator has the shape of the biases. Well-formedness is the layer's
/// type invariant, so this holds at all times, in particular after any
/// chain-rule step and accumulation.
pub proof fn lemma_gradient_shape_invariant(l: LayerView)
    requires
        l.wf(),
    ensures
        l.errors.rows == l.weights.rows,
        l.errors.cols == l.weights.cols,
        l.deltas.rows == l.biases.rows,
        l.deltas.cols == l.biases.cols,
{
}

/// An accumulator after the first `k` gradients were added into it one at
/// a time.
pub open spec fn spec_accumulate(e: MatView, gs: Seq<MatView>, k: int) -> MatView
    decreases k,
    when k >= 0
{
    if k <= 0 {
        e
    } else {
        spec_mat_add(spec_accumulate(e, gs, k - 1), gs[k - 1])
    }
}

/// Accumulation keeps the accumulator's shape.
pub proof fn lemma_accumulate_shape(e: MatView, gs: Seq<MatView>, k: int)
    requires
        e.wf(),
        0 <= k <= gs.len(),
        forall|i: int| 0 <= i < gs.len() ==> (#[trigger] gs[i]).wf() && gs[i].same_shape(e),
    ensures
        spec_accumulate(e, gs, k).wf(),
        spec_accumulate(e, gs, k).same_shape(e),
    decreases k,
{
    if k > 0 {
        lemma_accumulate_shape(e, gs, k - 1);
    }
}

/// Accumulation is linear: adding the gradients of `k` samples into an
/// accumulator one at a time equals one addition of their sum. The law is
/// exact because fixed-point addition wraps, and wrapping addition is
/// associative with zero as its identity.
pub proof fn lemma_accumulation_linearity(e: MatView, gs: Seq<MatView>, k: int)
    requires
        e.wf(),
        0 <= k <= gs.len(),
        forall|i: int| 0 <= i < gs.len() ==> (#[trigger] gs[i]).wf() && gs[i].same_shape(e),
    ensures
        spec_accumulate(e, gs, k) == spec_mat_add(
            e,
            spec_accumulate(spec_mat_zero(e.rows, e.cols), gs, k),
        ),
    decreases k,
{
    let z = spec_mat_zero(e.rows, e.cols);
    if k <= 0 {
        crate::matrix::lemma_mat_add_zero_right(e);
    } else {
        lemma_accumulation_linearity(e, gs, k - 1);
        lemma_accumulate_shape(z, gs, k - 1);
        crate::matrix::lemma_mat_add_assoc(e, spec_accumulate(z, gs, k - 1), gs[k - 1]);
    }
}

/// The value drawn for one randomly initialized parameter: a uniform draw
/// over one fixed-point unit on either side of zero.
pub open spec fn spec_centered_draw(s: u64) -> i64 {
    (spec_draw(s, 2 * SCALE + 1) - SCALE) as i64
}

/// The scaling factor of random initialization for a given input dimension:
/// the square root of two over the input dimension.
pub open spec fn spec_init_std(input_dim: int) -> i64 {
    crate::fixed::spec_fx_sqrt(crate::fixed::spec_fx_divn((2 * SCALE) as i64, input_dim))
}

/// The `k` scaled parameter values drawn from state `s` on.
pub open spec fn spec_init_seq(s: u64, k: nat, std: i64) -> Seq<i64> {
    Seq::new(k, |i: int| spec_fx_mul(spec_centered_draw(spec_state_after(s, i)), std))
}

/// Draw `count` scaled parameter values from the source.
fn sample_scaled(rng: &mut RandomSource, count: usize, std: i64) -> (v: Vec<i64>)
    ensures
        v@.len() == count,
        v@ == spec_init_seq(old(rng)@, count as nat, std),
        final(rng)@ == spec_state_after(old(rng)@, count as int),
{
    let ghost s0: u64 = rng@;
    let bound: usize = (2 * SCALE + 1) as usize;
    let mut v: Vec<i64> = Vec::new();
    let mut k: usize = 0;
    while k < count
        invariant
            k <= count,
            bound == 2 * SCALE + 1,
            rng@ == spec_state_after(s0, k as int),
            v@.len() == k,
            forall|j: int|
                0 <= j < k ==> v@[j] == spec_fx_mul(
                    spec_centered_draw(spec_state_after(s0, j)),
                    std,
                ),
        decreases count - k,
    {
        let d: usize = rng.next_below(bound);
        let sample: i64 = (d as i64) - SCALE;
        v.push(fx_mul(sample, std));
        k += 1;
    }
    proof {
        assert(v@ =~= spec_init_seq(s0, count as nat, std));
    }
    v
}

/// A layer.
pub struct Layer {
    activation: Activation,
    biases: Matrix,
    deltas: Matrix,
    errors: Matrix,
    last_activated_output: Matrix,
    last_raw_output: Matrix,
    optimizer_params: Option<RmsPropState>,
    weights: Matrix,
}

impl View for Layer {
    type V = LayerView;

    closed spec fn view(&self) -> LayerView {
        LayerView {
            activation: self.activation,
            weights: self.weights@,
            biases: self.biases@,
            deltas: self.deltas@,
            errors: self.errors@,
            last_raw_output: self.last_raw_output@,
            last_activated_output: self.last_activated_output@,
            optimizer_params: spec_opt_state_view(self.optimizer_params),
        }
    }
}

impl Layer {
    /// The layer invariant always holds.
    #[verifier::type_invariant]
    pub open spec fn inv(self) -> bool {
        self@.wf()
    }

    /// A layer with explicit parameters: the accumulators start at zero and
    /// the caches at the one-entry unit matrix.
    pub fn from(activation: Activation, biases: Matrix, weights: Matrix) -> (l: Layer)
        requires
            biases@.rows == weights@.rows,
            biases@.cols == 1,
        ensures
            l@.activation == activation,
            l@.weights == weights@,
            l@.biases == biases@,
            l@.deltas == spec_mat_zero(weights@.rows, 1),
            l@.errors == spec_mat_zero(weights@.rows, weights@.cols),
            l@.last_raw_output == (MatView { rows: 1, cols: 1, ent: seq![SCALE] }),
            l@.last_activated_output == (MatView { rows: 1, cols: 1, ent: seq![SCALE] }),
            l@.optimizer_params is None,
    {
        proof {
            use_type_invariant(&biases);
            use_type_invariant(&weights);
        }
        let out_dim: usize = weights.nrows();
        let in_dim: usize = weights.ncols();
        let deltas = Matrix::zeros(out_dim, 1);
        let errors = Matrix::zeros(out_dim, in_dim);
        let mut unit: Vec<i64> = Vec::new();
        unit.push(SCALE);
        let last_raw_output = Matrix::from_flat(1, 1, unit);
        let last_activated_output = last_raw_output.clone();
        proof {
            assert(last_raw_output@.ent =~= seq![SCALE]);
        }
        Layer {
            activation,
            biases,
            deltas,
            errors,
            last_activated_output,
            last_raw_output,
            optimizer_params: None,
            weights,
        }
    }

    /// A randomly initialized layer: every weight and bias is a uniform draw
    /// over one unit on either side of zero, scaled by the square root of
    /// two over the input dimension, taken from the given source.
    #[verifier::rlimit(60)]
    pub fn new(
        activation: Activation,
        input_dim: usize,
        neurons: usize,
        rng: &mut RandomSource,
    ) -> (l: Layer)
        requires
            1 <= input_dim <= MAX_DIM,
            1 <= neurons <= MAX_DIM,
        ensures
            l@.activation == activation,
            l@.weights == (MatView {
                rows: neurons as nat,
                cols: input_dim as nat,
                ent: spec_init_seq(
                    old(rng)@,
                    (neurons * input_dim) as nat,
                    spec_init_std(input_dim as int),
                ),
            }),
            l@.biases == (MatView {
                rows: neurons as nat,
                cols: 1,
                ent: spec_init_seq(
                    spec_state_after(old(rng)@, (neurons * input_dim) as int),
                    neurons as nat,
                    spec_init_std(input_dim as int),
                ),
            }),
            l@.deltas == spec_mat_zero(neurons as nat, 1),
            l@.errors == spec_mat_zero(neurons as nat, input_dim as nat),
            l@.last_raw_output == (MatView { rows: 1, cols: 1, ent: seq![SCALE] }),
            l@.last_activated_output == (MatView { rows: 1, cols: 1, ent: seq![SCALE] }),
            l@.optimizer_params is None,
            final(rng)@ == spec_state_after(old(rng)@, (neurons * input_dim + neurons) as int),
    {
        let ghost s0: u64 = rng@;
        let std: i64 = crate::fixed::fx_sqrt(crate::fixed::fx_divn(2 * SCALE, input_dim));
        proof {
            assert(neurons * input_dim <= MAX_DIM * MAX_DIM) by (nonlinear_arith)
                requires
                    neurons <= MAX_DIM && input_dim <= MAX_DIM,
            ;
        }
        let wcount: usize = neurons * input_dim;
        let wdata: Vec<i64> = sample_scaled(rng, wcount, std);
        let weights = Matrix::from_flat(neurons, input_dim, wdata);
        let bdata: Vec<i64> = sample_scaled(rng, neurons, std);
        let biases = Matrix::from_flat(neurons, 1, bdata);
        proof {
            crate::random::lemma_state_after_add(s0, wcount as int, neurons as int);
        }
        Layer::from(activation, biases, weights)
    }

    /// One forward pass: cache and return the activated affine output.
    pub fn forward(&mut self, data: &Matrix) -> (r: Matrix)
        requires
            data@.wf(),
            data@.rows == old(self)@.input_dim(),
        ensures
            final(self)@ == spec_layer_forward(old(self)@, data@),
            r@ == final(self)@.last_activated_output,
    {
        proof {
            use_type_invariant(&*self);
        }
        let product: Matrix = self.weights.mat_mul(data);
        let raw: Matrix = product.mat_add_bias(&self.biases);
        let activated: Matrix = self.activation.apply(&raw);
        self.last_raw_output = raw;
        let result: Matrix = activated.clone();
        self.last_activated_output = activated;
        result
    }

    /// The chain-rule step: the gradient with respect to the weights and the
    /// local error signal, computed from the cached raw output. Mutates
    /// nothing; accumulation is a separate step.
    pub fn propagate_error(
        &self,
        last_layer: bool,
        next_layer_delta: &Matrix,
        next_layer_weights: &Matrix,
        previous_layer_output: &Matrix,
    ) -> (r: (Matrix, Matrix))
        requires
            next_layer_delta@.wf(),
            next_layer_weights@.wf(),
            previous_layer_output@.wf(),
            last_layer ==> next_layer_delta@.rows == self@.last_raw_output.rows
                && next_layer_delta@.cols == self@.last_raw_output.cols,
            !last_layer ==> next_layer_weights@.rows == next_layer_delta@.rows
                && next_layer_weights@.cols == self@.last_raw_output.rows
                && next_layer_delta@.cols == self@.last_raw_output.cols,
            previous_layer_output@.cols == self@.last_raw_output.cols,
        ensures
            (r.0@, r.1@) == spec_propagate(
                self@,
                last_layer,
                next_layer_delta@,
                next_layer_weights@,
                previous_layer_output@,
            ),
    {
        proof {
            use_type_invariant(&*self);
        }
        let g: Matrix = self.activation.derivative(&self.last_raw_output);
        let deltas: Matrix = if last_layer {
            g.mat_hadamard(next_layer_delta)
        } else {
            let next_layer_weighted_error: Matrix = next_layer_weights.mat_transpose().mat_mul(
                next_layer_delta,
            );
            next_layer_weighted_error.mat_hadamard(&g)
        };
        let gradient: Matrix = deltas.mat_mul(&previous_layer_output.mat_transpose());
        (gradient, deltas)
    }

    /// Add one sample's gradients into the accumulators.
    pub fn sum_errors_and_deltas(&mut self, deltas: &Matrix, errors: &Matrix)
        requires
            deltas@.rows == old(self)@.output_dim(),
            deltas@.cols == 1,
            errors@.rows == old(self)@.output_dim(),
            errors@.cols == old(self)@.input_dim(),
        ensures
            final(self)@ == (LayerView {
                errors: spec_mat_add(old(self)@.errors, errors@),
                deltas: spec_mat_add(old(self)@.deltas, deltas@),
                ..old(self)@
            }),
    {
        proof {
            use_type_invariant(&*self);
        }
        self.errors = self.errors.mat_add(errors);
        self.deltas = self.deltas.mat_add(deltas);
    }

    /// The plain-gradient update: step each parameter against its mean
    /// accumulated gradient, scaled by the learning rate, then clear the
    /// accumulators.
    pub fn update_params(&mut self, learning_rate: i64, batch_size: usize)
        requires
            batch_size > 0,
        ensures
            final(self)@ == (LayerView {
                weights: spec_mat_sub(
                    old(self)@.weights,
                    spec_mat_scale(
                        learning_rate,
                        spec_mat_divn(old(self)@.errors, batch_size as int),
                    ),
                ),
                biases: spec_mat_sub(
                    old(self)@.biases,
                    spec_mat_scale(
                        learning_rate,
                        spec_mat_divn(old(self)@.deltas, batch_size as int),
                    ),
                ),
                errors: spec_mat_zero(old(self)@.output_dim(), old(self)@.input_dim()),
                deltas: spec_mat_zero(old(self)@.output_dim(), 1),
                ..old(self)@
            }),
    {
        proof {
            use_type_invariant(&*self);
        }
        let error_step: Matrix = self.errors.mat_divn(batch_size).mat_scale(learning_rate);
        self.weights = self.weights.mat_sub(&error_step);
        let delta_step: Matrix = self.deltas.mat_divn(batch_size).mat_scale(learning_rate);
        self.biases = self.biases.mat_sub(&delta_step);
        self.clear_error_and_delta();
    }

    /// Reset both accumulators to exact zero matrices.
    pub fn clear_error_and_delta(&mut self)
        ensures
            final(self)@ == (LayerView {
                errors: spec_mat_zero(old(self)@.output_dim(), old(self)@.input_dim()),
                deltas: spec_mat_zero(old(self)@.output_dim(), 1),
                ..old(self)@
            }),
    {
        proof {
            use_type_invariant(&*self);
        }
        let out_dim: usize = self.weights.nrows();
        let in_dim: usize = self.weights.ncols();
        self.deltas = Matrix::zeros(out_dim, 1);
        self.errors = Matrix::zeros(out_dim, in_dim);
    }

    /// Apply an update computed by an optimizer: subtract the given steps
    /// from the parameters. The layer never scales a step itself.
    pub fn apply_update(&mut self, delta_weights: &Matrix, delta_biases: &Matrix)
        requires
            delta_weights@.rows == old(self)@.output_dim(),
            delta_weights@.cols == old(self)@.input_dim(),
            delta_biases@.rows == old(self)@.output_dim(),
            delta_biases@.cols == 1,
        ensures
            final(self)@ == (LayerView {
                weights: spec_mat_sub(old(self)@.weights, delta_weights@),
                biases: spec_mat_sub(old(self)@.biases, delta_biases@),
                ..old(self)@
            }),
    {
        proof {
            use_type_invariant(&*self);
        }
        self.weights = self.weights.mat_sub(delta_weights);
        self.biases = self.biases.mat_sub(delta_biases);
    }

    /// Replace the optimizer state. The moving averages must be
    /// non-negative, as every average of squares is.
    pub fn set_optimizer_params(&mut self, st: RmsPropState)
        requires
            st@.weights_moving_avg.wf(),
            st@.weights_moving_avg.rows == old(self)@.output_dim(),
            st@.weights_moving_avg.cols == old(self)@.input_dim(),
            st@.biases_moving_avg.wf(),
            st@.biases_moving_avg.rows == old(self)@.output_dim(),
            st@.biases_moving_avg.cols == 1,
            forall|i: int|
                0 <= i < st@.weights_moving_avg.ent.len()
                    ==> #[trigger] st@.weights_moving_avg.ent[i] >= 0,
            forall|i: int|
                0 <= i < st@.biases_moving_avg.ent.len()
                    ==> #[trigger] st@.biases_moving_avg.ent[i] >= 0,
        ensures
            final(self)@ == (LayerView { optimizer_params: Some(st@), ..old(self)@ }),
    {
        proof {
            use_type_invariant(&*self);
        }
        self.optimizer_params = Some(st);
    }

    /// The optimizer state, if any was initialized.
    pub fn get_optimizer_params_reference(&self) -> (r: &Option<RmsPropState>)
        ensures
            spec_opt_state_view(*r) == self@.optimizer_params,
    {
        &self.optimizer_params
    }

    /// The cached activated output of the most recent forward pass.
    pub fn get_last_output(&self) -> (r: &Matrix)
        ensures
            r@ == self@.last_activated_output,
    {
        &self.last_activated_output
    }

    /// A copy of the bias-gradient accumulator.
    pub fn get_deltas_clone(&self) -> (r: Matrix)
        ensures
            r@ == self@.deltas,
    {
        self.deltas.clone()
    }

    /// A copy of the weight-gradient accumulator.
    pub fn get_errors_clone(&self) -> (r: Matrix)
        ensures
            r@ == self@.errors,
    {
        self.errors.clone()
    }

    /// The weight matrix.
    pub fn get_weights_reference(&self) -> (r: &Matrix)
        ensures
            r@ == self@.weights,
    {
        &self.weights
    }

    /// A copy of the bias vector.
    pub fn get_biases_clone(&self) -> (r: Matrix)
        ensures
            r@ == self@.biases,
    {
        self.biases.clone()
    }

    /// The input dimension.
    pub fn get_input_dim(&self) -> (r: usize)
        ensures
            r == self@.input_dim(),
    {
        self.weights.ncols()
    }

    /// The output dimension.
    pub fn get_output_dim(&self) -> (r: usize)
        ensures
            r == self@.output_dim(),
    {
        self.weights.nrows()
    }
}

} // verus!
