//! Loss functions.
//!
//! A model carries one tag of the closed catalogue; the tag selects the
//! scalar loss used for reporting and the derivative that seeds
//! backpropagation. Only losses whose value is an exact fixed-point formula
//! are in the catalogue; the cross-entropy losses need a logarithm and have
//! no exact fixed-point counterpart, so of them only the derivatives, which
//! are polynomial, are provided as standalone functions.

use vstd::prelude::*;

verus! {

use crate::fixed::{spec_fx_add, spec_fx_sub, spec_fx_div, fx_add, fx_sub, fx_div, SCALE};
use crate::matrix::{Matrix, MatView, spec_mat_sub, spec_mat_hadamard, spec_mat_divn,
    spec_mat_sum};

/// The closed catalogue of loss functions.
#[derive(Clone, Copy, PartialEq, Eq, Structural, Debug)]
pub enum Loss {
    /// Half the summed squared error.
    SquaredError,
    /// The mean squared error, averaged over the columns.
    Mse,
}

/// The scalar loss of a prediction against its target.
pub open spec fn spec_loss_value(loss: Loss, expected: MatView, predicted: MatView) -> i64
    recommends
        expected.same_shape(predicted),
        expected.cols > 0,
{
    match loss {
        Loss::SquaredError => {
            let d = spec_mat_sub(expected, predicted);
            spec_mat_sum(spec_mat_divn(spec_mat_hadamard(d, d), 2))
        },
        Loss::Mse => {
            let d = spec_mat_sub(predicted, expected);
            crate::fixed::spec_fx_divn(spec_mat_sum(spec_mat_hadamard(d, d)), expected.cols as int)
        },
    }
}

/// The derivative of the loss with respect to the prediction.
pub open spec fn spec_loss_deriv(loss: Loss, expected: MatView, predicted: MatView) -> MatView
    recommends
        expected.same_shape(predicted),
{
    match loss {
        Loss::SquaredError => spec_mat_sub(predicted, expected),
        Loss::Mse => spec_mat_sub(predicted, expected),
    }
}

impl Loss {
    /// The scalar loss of a prediction against its target.
    pub fn value(self, expected: &Matrix, predicted: &Matrix) -> (v: i64)
        requires
            expected@.same_shape(predicted@),
            expected@.cols > 0,
        ensures
            v == spec_loss_value(self, expected@, predicted@),
    {
        match self {
            Loss::SquaredError => squared_error(expected, predicted),
            Loss::Mse => mse(expected, predicted),
        }
    }

    /// The derivative of the loss with respect to the prediction.
    pub fn derivative(self, expected: &Matrix, predicted: &Matrix) -> (m: Matrix)
        requires
            expected@.same_shape(predicted@),
        ensures
            m@ == spec_loss_deriv(self, expected@, predicted@),
    {
        match self {
            Loss::SquaredError => squared_error_derivative(expected, predicted),
            Loss::Mse => mse_derivative(expected, predicted),
        }
    }
}

/// The mean squared error: the squared differences summed, divided by the
/// number of columns.
pub fn mse(expected: &Matrix, predicted: &Matrix) -> (v: i64)
    requires
        expected@.same_shape(predicted@),
        expected@.cols > 0,
    ensures
        v == spec_loss_value(Loss::Mse, expected@, predicted@),
{
    let d: Matrix = predicted.mat_sub(expected);
    let sq: Matrix = d.mat_hadamard(&d);
    let total: i64 = sq.mat_sum();
    crate::fixed::fx_divn(total, expected.ncols())
}

/// The derivative of the mean squared error: prediction minus target.
pub fn mse_derivative(expected: &Matrix, predicted: &Matrix) -> (m: Matrix)
    requires
        expected@.same_shape(predicted@),
    ensures
        m@ == spec_loss_deriv(Loss::Mse, expected@, predicted@),
{
    predicted.mat_sub(expected)
}

/// Half the summed squared error.
pub fn squared_error(expected: &Matrix, predicted: &Matrix) -> (v: i64)
    requires
        expected@.same_shape(predicted@),
    ensures
        v == spec_loss_value(Loss::SquaredError, expected@, predicted@),
{
    let d: Matrix = expected.mat_sub(predicted);
    let sq: Matrix = d.mat_hadamard(&d);
    let halved: Matrix = sq.mat_divn(2);
    halved.mat_sum()
}

/// The derivative of half the summed squared error: prediction minus
/// target.
pub fn squared_error_derivative(expected: &Matrix, predicted: &Matrix) -> (m: Matrix)
    requires
        expected@.same_shape(predicted@),
    ensures
        m@ == spec_loss_deriv(Loss::SquaredError, expected@, predicted@),
{
    predicted.mat_sub(expected)
}

/// The derivative of the categorical cross-entropy as this trainer states
/// it: target minus prediction.
pub fn categorical_crossentropy_derivative(expected: &Matrix, predicted: &Matrix) -> (m: Matrix)
    requires
        expected@.same_shape(predicted@),
    ensures
        m@ == spec_mat_sub(expected@, predicted@),
{
    expected.mat_sub(predicted)
}

/// One entry of the binary cross-entropy derivative:
/// `-(y / p) + (1 - y) / (1 - p)`.
pub open spec fn spec_bce_deriv_entry(y: i64, p: i64) -> i64
    recommends
        0 < p < SCALE,
{
    spec_fx_add(
        spec_fx_sub(0, spec_fx_div(y, p)),
        spec_fx_div(spec_fx_sub(SCALE, y), spec_fx_sub(SCALE, p)),
    )
}

/// The derivative of the binary cross-entropy, entry by entry. Every
/// prediction entry must lie strictly between zero and one, as the
/// quotients are otherwise undefined.
pub fn binary_crossentropy_derivative(expected: &Matrix, predicted: &Matrix) -> (m: Matrix)
    requires
        expected@.same_shape(predicted@),
        forall|j: int| 0 <= j < predicted@.ent.len() ==> 0 < #[trigger] predicted@.ent[j] < SCALE,
    ensures
        m@.rows == expected@.rows,
        m@.cols == expected@.cols,
        m@.ent.len() == expected@.ent.len(),
        forall|j: int|
            0 <= j < m@.ent.len() ==> m@.ent[j] == spec_bce_deriv_entry(
                expected@.ent[j],
                predicted@.ent[j],
            ),
{
    let n: usize = expected.ent_count();
    let _np: usize = predicted.ent_count();
    let mut data: Vec<i64> = Vec::new();
    let mut i: usize = 0;
    while i < n
        invariant
            i <= n,
            n == expected@.ent.len(),
            predicted@.ent.len() == n,
            forall|j: int| 0 <= j < n ==> 0 < #[trigger] predicted@.ent[j] < SCALE,
            data@.len() == i,
            forall|j: int|
                0 <= j < i ==> data@[j] == spec_bce_deriv_entry(
                    expected@.ent[j],
                    predicted@.ent[j],
                ),
        decreases n - i,
    {
        let y: i64 = expected.get_flat(i);
        let p: i64 = predicted.get_flat(i);
        proof {
            crate::fixed::lemma_wrap64_id(SCALE - p);
        }
        let t1: i64 = fx_sub(0, fx_div(y, p));
        let t2: i64 = fx_div(fx_sub(SCALE, y), fx_sub(SCALE, p));
        data.push(fx_add(t1, t2));
        i += 1;
    }
    Matrix::from_flat(expected.nrows(), expected.ncols(), data)
}

} // verus!
