//! The parameter-update strategy.
//!
//! A strategy turns a layer's accumulated gradients into one parameter step.
//! Its contract is functional: each strategy names, as specification
//! functions, the layer it produces when it initializes its per-layer state
//! and when it updates parameters, and its executable methods are proved to
//! produce exactly those layers. The proof obligations below bind every
//! strategy to the training loop's protocol: initialization only installs
//! optimizer state, an update only moves parameters and optimizer state and
//! keeps every shape, and both leave the strategy ready for the next batch.

use vstd::prelude::*;

verus! {

use crate::layer::{Layer, LayerView};

/// A parameter-update strategy.
pub trait Optimizer: Sized {
    /// The hyperparameters are admissible.
    spec fn spec_valid(self) -> bool;

    /// The per-layer state this strategy needs is present.
    spec fn spec_ready(self, layer: LayerView) -> bool;

    /// The layer after this strategy installs its per-layer state.
    spec fn spec_initialize(self, layer: LayerView) -> LayerView;

    /// The layer after one parameter update from its accumulated gradients.
    spec fn spec_update(self, batch_size: int, layer: LayerView, learning_rate: i64) -> LayerView;

    /// Initialization only installs optimizer state: it keeps the layer
    /// well-formed, touches nothing else, and leaves the strategy ready.
    proof fn lemma_initialize(self, layer: LayerView)
        requires
            self.spec_valid(),
            layer.wf(),
        ensures
            ({
                let l2 = self.spec_initialize(layer);
                &&& l2.wf()
                &&& self.spec_ready(l2)
                &&& l2 == (LayerView { optimizer_params: l2.optimizer_params, ..layer })
            }),
    ;

    /// An update only moves the parameters and the optimizer state: it keeps
    /// the layer well-formed, keeps every shape, touches neither caches nor
    /// accumulators, and leaves the strategy ready.
    proof fn lemma_update(self, batch_size: int, layer: LayerView, learning_rate: i64)
        requires
            self.spec_valid(),
            self.spec_ready(layer),
            layer.wf(),
            batch_size > 0,
        ensures
            ({
                let l2 = self.spec_update(batch_size, layer, learning_rate);
                &&& l2.wf()
                &&& self.spec_ready(l2)
                &&& l2.weights.same_shape(layer.weights)
                &&& l2.biases.same_shape(layer.biases)
                &&& l2 == (LayerView {
                    weights: l2.weights,
                    biases: l2.biases,
                    optimizer_params: l2.optimizer_params,
                    ..layer
                })
            }),
    ;

    /// Readiness depends only on the optimizer state and the parameter
    /// shapes, so the forward and backward passes cannot disturb it.
    proof fn lemma_ready_frame(self, l1: LayerView, l2: LayerView)
        requires
            self.spec_ready(l1),
            l1.optimizer_params == l2.optimizer_params,
            l1.weights.rows == l2.weights.rows,
            l1.weights.cols == l2.weights.cols,
        ensures
            self.spec_ready(l2),
    ;

    /// Install the per-layer state this strategy needs, once per layer,
    /// before its first update.
    fn initialize_layer_additional_params(&self, layer: &mut Layer)
        requires
            self.spec_valid(),
        ensures
            final(layer)@ == self.spec_initialize(old(layer)@),
    ;

    /// Turn the layer's accumulated gradients into one parameter step and
    /// apply it. The accumulators hold sums over the batch; the strategy
    /// divides by the batch size. The caller clears the accumulators
    /// afterwards.
    fn update_params(&mut self, batch_size: usize, layer: &mut Layer, learning_rate: i64)
        requires
            old(self).spec_valid(),
            old(self).spec_ready(old(layer)@),
            batch_size > 0,
        ensures
            final(layer)@ == old(self).spec_update(batch_size as int, old(layer)@, learning_rate),
            *final(self) == *old(self),
    ;
}

} // verus!
