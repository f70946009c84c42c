//! A feedforward neural network trainer over fixed-point arithmetic:
//! layers, forward evaluation, backpropagation, gradient accumulation,
//! and pluggable parameter-update strategies, with machine-checked
//! contracts for every operation.

pub mod fixed;
pub mod matrix;
pub mod activations;
pub mod losses;
pub mod random;
pub mod layer;
pub mod optimizer;
pub mod rmsprop;
pub mod model;
pub mod metrics;
