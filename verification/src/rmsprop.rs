//! The RMSProp update strategy.
//!
//! Per layer, the strategy keeps one exponentially decayed moving average of
//! squared mean gradients for the weights and one for the biases. An update
//! first folds the current batch's mean gradient into the averages, then
//! steps each parameter by the learning rate times the mean gradient divided
//! by the square root of its average (with an epsilon guard), so that the
//! very average just updated scales the same batch's step.

use vstd::prelude::*;

verus! {

use crate::fixed::{spec_fx_sub, spec_fx_add, spec_fx_mul, spec_fx_sq, fx_sub, SCALE,
    lemma_fx_sq_nonneg, lemma_avg_step_bounds, lemma_fx_sqrt_guard_pos};
use crate::layer::{Layer, LayerView, RmsPropState, RmsStateView};
use crate::matrix::{Matrix, MatView, spec_mat_zero, spec_mat_add, spec_mat_sub, spec_mat_scale,
    spec_mat_divn, spec_mat_sq, spec_mat_sqrt_guard, spec_mat_div_elem};
use crate::optimizer::Optimizer;

/// The moving-average strategy; the decay rate is the weight of the old
/// average in each step, as a fixed-point fraction of one.
pub struct RMSProp {
    pub decay_rate: i64,
}

/// One moving-average step over a whole tensor:
/// `rho * avg + (1 - rho) * ghat^2`, elementwise.
pub open spec fn spec_avg_step(rho: i64, avg: MatView, ghat: MatView) -> MatView {
    spec_mat_add(
        spec_mat_scale(rho, avg),
        spec_mat_scale(spec_fx_sub(SCALE, rho), spec_mat_sq(ghat)),
    )
}

/// A moving-average step on non-negative averages stays non-negative.
proof fn lemma_avg_step_nonneg(rho: i64, avg: MatView, ghat: MatView)
    requires
        0 <= rho <= SCALE,
        avg.ent.len() == ghat.ent.len(),
        forall|i: int| 0 <= i < avg.ent.len() ==> #[trigger] avg.ent[i] >= 0,
    ensures
        ({
            let v = spec_avg_step(rho, avg, ghat);
            forall|i: int| 0 <= i < v.ent.len() ==> #[trigger] v.ent[i] >= 0
        }),
{
    let v = spec_avg_step(rho, avg, ghat);
    assert forall|i: int| 0 <= i < v.ent.len() implies #[trigger] v.ent[i] >= 0 by {
        lemma_fx_sq_nonneg(ghat.ent[i]);
        lemma_avg_step_bounds(rho, avg.ent[i], spec_fx_sq(ghat.ent[i]));
        assert(v.ent[i] == spec_fx_add(
            spec_fx_mul(rho, avg.ent[i]),
            spec_fx_mul(spec_fx_sub(SCALE, rho), spec_fx_sq(ghat.ent[i])),
        ));
    }
}

/// The guarded square roots of non-negative averages are positive.
proof fn lemma_denom_pos(avg: MatView)
    requires
        forall|i: int| 0 <= i < avg.ent.len() ==> #[trigger] avg.ent[i] >= 0,
    ensures
        ({
            let d = spec_mat_sqrt_guard(avg);
            forall|i: int| 0 <= i < d.ent.len() ==> #[trigger] d.ent[i] > 0
        }),
{
    let d = spec_mat_sqrt_guard(avg);
    assert forall|i: int| 0 <= i < d.ent.len() implies #[trigger] d.ent[i] > 0 by {
        lemma_fx_sqrt_guard_pos(avg.ent[i]);
    }
}

impl RMSProp {
    /// A strategy with the given decay rate, a fixed-point fraction of one.
    pub fn new(decay_rate: i64) -> (r: RMSProp)
        requires
            0 <= decay_rate <= SCALE,
        ensures
            r.decay_rate == decay_rate,
            r.spec_valid(),
    {
        RMSProp { decay_rate }
    }
}

impl Optimizer for RMSProp {
    /// The decay rate is a fraction of one.
    open spec fn spec_valid(self) -> bool {
        0 <= self.decay_rate <= SCALE
    }

    /// The moving averages are present.
    open spec fn spec_ready(self, layer: LayerView) -> bool {
        layer.optimizer_params is Some
    }

    /// Initialization installs all-zero moving averages of the parameter
    /// shapes.
    open spec fn spec_initialize(self, layer: LayerView) -> LayerView {
        LayerView {
            optimizer_params: Some(
                RmsStateView {
                    weights_moving_avg: spec_mat_zero(layer.weights.rows, layer.weights.cols),
                    biases_moving_avg: spec_mat_zero(layer.weights.rows, 1),
                },
            ),
            ..layer
        }
    }

    /// One update: fold the batch's mean gradients into the moving
    /// averages, then step each parameter by the learning rate times its
    /// mean gradient over the guarded square root of its fresh average.
    open spec fn spec_update(self, batch_size: int, layer: LayerView, learning_rate: i64) -> LayerView {
        match layer.optimizer_params {
            None => layer,
            Some(st) => {
                let ghat_w = spec_mat_divn(layer.errors, batch_size);
                let ghat_b = spec_mat_divn(layer.deltas, batch_size);
                let wavg = spec_avg_step(self.decay_rate, st.weights_moving_avg, ghat_w);
                let bavg = spec_avg_step(self.decay_rate, st.biases_moving_avg, ghat_b);
                let wstep = spec_mat_div_elem(
                    spec_mat_scale(learning_rate, ghat_w),
                    spec_mat_sqrt_guard(wavg),
                );
                let bstep = spec_mat_div_elem(
                    spec_mat_scale(learning_rate, ghat_b),
                    spec_mat_sqrt_guard(bavg),
                );
                LayerView {
                    weights: spec_mat_sub(layer.weights, wstep),
                    biases: spec_mat_sub(layer.biases, bstep),
                    optimizer_params: Some(
                        RmsStateView { weights_moving_avg: wavg, biases_moving_avg: bavg },
                    ),
                    ..layer
                }
            },
        }
    }

    proof fn lemma_initialize(self, layer: LayerView) {
    }

    proof fn lemma_update(self, batch_size: int, layer: LayerView, learning_rate: i64) {
        let st = layer.optimizer_params->Some_0;
        let ghat_w = spec_mat_divn(layer.errors, batch_size);
        let ghat_b = spec_mat_divn(layer.deltas, batch_size);
        lemma_avg_step_nonneg(self.decay_rate, st.weights_moving_avg, ghat_w);
        lemma_avg_step_nonneg(self.decay_rate, st.biases_moving_avg, ghat_b);
    }

    proof fn lemma_ready_frame(self, l1: LayerView, l2: LayerView) {
    }

    fn initialize_layer_additional_params(&self, layer: &mut Layer) {
        proof {
            use_type_invariant(&*layer);
        }
        let out_dim: usize = layer.get_output_dim();
        let in_dim: usize = layer.get_input_dim();
        let weights_moving_avg = Matrix::zeros(out_dim, in_dim);
        let biases_moving_avg = Matrix::zeros(out_dim, 1);
        layer.set_optimizer_params(RmsPropState { weights_moving_avg, biases_moving_avg });
    }

    fn update_params(&mut self, batch_size: usize, layer: &mut Layer, learning_rate: i64) {
        proof {
            use_type_invariant(&*layer);
        }
        let errors: Matrix = layer.get_errors_clone();
        let deltas: Matrix = layer.get_deltas_clone();
        let ghat_w: Matrix = errors.mat_divn(batch_size);
        let ghat_b: Matrix = deltas.mat_divn(batch_size);
        let one_minus: i64 = fx_sub(SCALE, self.decay_rate);
        let (wavg_old, bavg_old): (Matrix, Matrix) = match layer.get_optimizer_params_reference() {
            Some(st) => (st.weights_moving_avg.clone(), st.biases_moving_avg.clone()),
            None => {
                proof {
                    assert(false);
                }
                (Matrix::zeros(1, 1), Matrix::zeros(1, 1))
            },
        };
        let wavg: Matrix = wavg_old.mat_scale(self.decay_rate).mat_add(
            &ghat_w.mat_sq().mat_scale(one_minus),
        );
        let bavg: Matrix = bavg_old.mat_scale(self.decay_rate).mat_add(
            &ghat_b.mat_sq().mat_scale(one_minus),
        );
        proof {
            assert(wavg@ == spec_avg_step(self.decay_rate, wavg_old@, ghat_w@));
            assert(bavg@ == spec_avg_step(self.decay_rate, bavg_old@, ghat_b@));
            lemma_avg_step_nonneg(self.decay_rate, wavg_old@, ghat_w@);
            lemma_avg_step_nonneg(self.decay_rate, bavg_old@, ghat_b@);
            lemma_denom_pos(wavg@);
            lemma_denom_pos(bavg@);
        }
        let wdenom: Matrix = wavg.mat_sqrt_guard();
        let bdenom: Matrix = bavg.mat_sqrt_guard();
        let wstep: Matrix = ghat_w.mat_scale(learning_rate).mat_div_elem(&wdenom);
        let bstep: Matrix = ghat_b.mat_scale(learning_rate).mat_div_elem(&bdenom);
        layer.apply_update(&wstep, &bstep);
        layer.set_optimizer_params(
            RmsPropState { weights_moving_avg: wavg, biases_moving_avg: bavg },
        );
    }
}

} // verus!
