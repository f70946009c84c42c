//! Activation functions.
//!
//! The catalogue is a closed enumeration: every layer carries one tag, and
//! the tag selects both the function applied to the raw output and the
//! derivative used by backpropagation. Only activations whose value is an
//! exact fixed-point formula are provided; activations built on the
//! exponential function have no exact fixed-point counterpart and are not in
//! the catalogue. The derivative of the softmax family is the elementwise
//! approximation of its Jacobian (diagonal `s * (1 - s)`, off-diagonal
//! `-s * s`) and is provided as a standalone function.

use vstd::prelude::*;

verus! {

use crate::fixed::{spec_fx_mul, spec_fx_sub, fx_mul, fx_sub, SCALE};
use crate::matrix::{Matrix, MatView};

/// The closed catalogue of activation functions.
#[derive(Clone, Copy, PartialEq, Eq, Structural, Debug)]
pub enum Activation {
    /// Passes the raw output through unchanged.
    Identity,
    /// Rectified linear unit: negative entries become zero.
    Relu,
}

/// One entry of the rectified linear unit.
pub open spec fn spec_relu_entry(x: i64) -> i64 {
    if x > 0 {
        x
    } else {
        0
    }
}

/// One entry of the derivative of the rectified linear unit.
pub open spec fn spec_relu_deriv_entry(x: i64) -> i64 {
    if x > 0 {
        SCALE
    } else {
        0
    }
}

/// An activation applied to a whole view.
pub open spec fn spec_act_apply(act: Activation, a: MatView) -> MatView {
    match act {
        Activation::Identity => a,
        Activation::Relu => MatView {
            rows: a.rows,
            cols: a.cols,
            ent: Seq::new(a.ent.len(), |i: int| spec_relu_entry(a.ent[i])),
        },
    }
}

/// The derivative of an activation, evaluated on a whole view of raw
/// outputs.
pub open spec fn spec_act_deriv(act: Activation, a: MatView) -> MatView {
    match act {
        Activation::Identity => MatView {
            rows: a.rows,
            cols: a.cols,
            ent: Seq::new(a.ent.len(), |i: int| SCALE),
        },
        Activation::Relu => MatView {
            rows: a.rows,
            cols: a.cols,
            ent: Seq::new(a.ent.len(), |i: int| spec_relu_deriv_entry(a.ent[i])),
        },
    }
}

impl Activation {
    /// Apply the activation to every entry of `m`.
    pub fn apply(self, m: &Matrix) -> (r: Matrix)
        ensures
            r@ == spec_act_apply(self, m@),
    {
        match self {
            Activation::Identity => m.clone(),
            Activation::Relu => relu(m),
        }
    }

    /// Evaluate the derivative of the activation on the raw output `m`.
    pub fn derivative(self, m: &Matrix) -> (r: Matrix)
        ensures
            r@ == spec_act_deriv(self, m@),
    {
        match self {
            Activation::Identity => {
                let n: usize = m.ent_count();
                let mut data: Vec<i64> = Vec::new();
                let mut i: usize = 0;
                while i < n
                    invariant
                        i <= n,
                        data@.len() == i,
                        forall|j: int| 0 <= j < i ==> data@[j] == SCALE,
                    decreases n - i,
                {
                    data.push(SCALE);
                    i += 1;
                }
                let r = Matrix::from_flat(m.nrows(), m.ncols(), data);
                proof {
                    assert(r@.ent =~= spec_act_deriv(self, m@).ent);
                }
                r
            },
            Activation::Relu => relu_derivative(m),
        }
    }
}

/// The rectified linear unit: every negative entry becomes zero.
pub fn relu(m: &Matrix) -> (r: Matrix)
    ensures
        r@ == spec_act_apply(Activation::Relu, m@),
{
    let n: usize = m.ent_count();
    let mut data: Vec<i64> = Vec::new();
    let mut i: usize = 0;
    while i < n
        invariant
            i <= n,
            n == m@.ent.len(),
            data@.len() == i,
            forall|j: int| 0 <= j < i ==> data@[j] == spec_relu_entry(m@.ent[j]),
        decreases n - i,
    {
        let x: i64 = m.get_flat(i);
        if x > 0 {
            data.push(x);
        } else {
            data.push(0i64);
        }
        i += 1;
    }
    let r = Matrix::from_flat(m.nrows(), m.ncols(), data);
    proof {
        assert(r@.ent =~= spec_act_apply(Activation::Relu, m@).ent);
    }
    r
}

/// The derivative of the rectified linear unit: one where the raw output is
/// positive, zero elsewhere.
pub fn relu_derivative(m: &Matrix) -> (r: Matrix)
    ensures
        r@ == spec_act_deriv(Activation::Relu, m@),
{
    let n: usize = m.ent_count();
    let mut data: Vec<i64> = Vec::new();
    let mut i: usize = 0;
    while i < n
        invariant
            i <= n,
            n == m@.ent.len(),
            data@.len() == i,
            forall|j: int| 0 <= j < i ==> data@[j] == spec_relu_deriv_entry(m@.ent[j]),
        decreases n - i,
    {
        let x: i64 = m.get_flat(i);
        if x > 0 {
            data.push(SCALE);
        } else {
            data.push(0i64);
        }
        i += 1;
    }
    let r = Matrix::from_flat(m.nrows(), m.ncols(), data);
    proof {
        assert(r@.ent =~= spec_act_deriv(Activation::Relu, m@).ent);
    }
    r
}

/// The elementwise approximation of the softmax Jacobian: `s * (1 - s)` on
/// the diagonal, `-s * s` off it.
pub open spec fn spec_softmax_derivative(a: MatView) -> MatView {
    MatView {
        rows: a.rows,
        cols: a.cols,
        ent: Seq::new(
            a.ent.len(),
            |i: int|
                if i / a.cols as int == i % a.cols as int {
                    spec_fx_mul(a.ent[i], spec_fx_sub(SCALE, a.ent[i]))
                } else {
                    spec_fx_sub(0, spec_fx_mul(a.ent[i], a.ent[i]))
                },
        ),
    }
}

/// The elementwise approximation of the softmax Jacobian. The
/// approximation, not the full Jacobian, is the contract: it combines with
/// error signals by elementwise product.
pub fn softmax_derivative(m: &Matrix) -> (r: Matrix)
    ensures
        r@ == spec_softmax_derivative(m@),
{
    let n: usize = m.ent_count();
    let cols: usize = m.ncols();
    let mut data: Vec<i64> = Vec::new();
    let mut i: usize = 0;
    while i < n
        invariant
            i <= n,
            n == m@.ent.len(),
            cols == m@.cols,
            m@.wf(),
            data@.len() == i,
            forall|j: int|
                0 <= j < i ==> data@[j] == (if j / cols as int == j % cols as int {
                    spec_fx_mul(m@.ent[j], spec_fx_sub(SCALE, m@.ent[j]))
                } else {
                    spec_fx_sub(0, spec_fx_mul(m@.ent[j], m@.ent[j]))
                }),
        decreases n - i,
    {
        proof {
            assert(cols > 0) by (nonlinear_arith)
                requires
                    m@.ent.len() == m@.rows * m@.cols,
                    i < m@.ent.len(),
                    cols == m@.cols,
            ;
        }
        let x: i64 = m.get_flat(i);
        let v: i64 = if i / cols == i % cols {
            fx_mul(x, fx_sub(SCALE, x))
        } else {
            fx_sub(0, fx_mul(x, x))
        };
        data.push(v);
        i += 1;
    }
    let r = Matrix::from_flat(m.nrows(), m.ncols(), data);
    proof {
        assert(r@.ent =~= spec_softmax_derivative(m@).ent);
    }
    r
}

} // verus!
