//! Matrices of fixed-point scalars.
//!
//! A matrix owns its entries in row-major order. Its mathematical value is a
//! [`MatView`]: the two dimensions and the flat sequence of entries. Every
//! operation is specified exactly, entry by entry, over views.

use vstd::prelude::*;

verus! {

use vstd::arithmetic::mul::lemma_mul_inequality;
use crate::fixed::{spec_fx_add, spec_fx_sub, spec_fx_mul, spec_fx_div, spec_fx_divn,
    spec_fx_sq, spec_fx_sat_add, spec_fx_sqrt, fx_add, fx_sub, fx_mul, fx_div, fx_divn,
    fx_sq, fx_sat_add, fx_sqrt, EPSILON};

/// The mathematical value of a matrix: dimensions and entries, row-major.
pub ghost struct MatView {
    pub rows: nat,
    pub cols: nat,
    pub ent: Seq<i64>,
}

/// The largest admitted dimension; keeps every index computation, and every
/// product of two dimensions, within `usize` on any machine.
pub const MAX_DIM: usize = 0xFFFF;

impl MatView {
    /// The entry count matches the dimensions, and both dimensions are small
    /// enough that index arithmetic cannot overflow.
    pub open spec fn wf(self) -> bool {
        self.ent.len() == self.rows * self.cols && self.rows <= MAX_DIM && self.cols <= MAX_DIM
    }

    /// The entry in row `r`, column `c`.
    pub open spec fn at(self, r: int, c: int) -> i64
        recommends
            0 <= r < self.rows,
            0 <= c < self.cols,
    {
        self.ent[r * self.cols + c]
    }

    /// Two views of the same dimensions.
    pub open spec fn same_shape(self, other: MatView) -> bool {
        self.rows == other.rows && self.cols == other.cols
    }
}

/// The all-zero view of the given dimensions.
pub open spec fn spec_mat_zero(rows: nat, cols: nat) -> MatView {
    MatView { rows, cols, ent: Seq::new(rows * cols, |i: int| 0i64) }
}

/// Elementwise wrapping sum of two views of one shape.
pub open spec fn spec_mat_add(a: MatView, b: MatView) -> MatView
    recommends
        a.same_shape(b),
{
    MatView { rows: a.rows, cols: a.cols, ent: Seq::new(a.ent.len(), |i: int| spec_fx_add(a.ent[i], b.ent[i])) }
}

/// Elementwise wrapping difference of two views of one shape.
pub open spec fn spec_mat_sub(a: MatView, b: MatView) -> MatView
    recommends
        a.same_shape(b),
{
    MatView { rows: a.rows, cols: a.cols, ent: Seq::new(a.ent.len(), |i: int| spec_fx_sub(a.ent[i], b.ent[i])) }
}

/// Elementwise (Hadamard) product of two views of one shape.
pub open spec fn spec_mat_hadamard(a: MatView, b: MatView) -> MatView
    recommends
        a.same_shape(b),
{
    MatView { rows: a.rows, cols: a.cols, ent: Seq::new(a.ent.len(), |i: int| spec_fx_mul(a.ent[i], b.ent[i])) }
}

/// The view scaled elementwise by the fixed-point factor `k`.
pub open spec fn spec_mat_scale(k: i64, a: MatView) -> MatView {
    MatView { rows: a.rows, cols: a.cols, ent: Seq::new(a.ent.len(), |i: int| spec_fx_mul(k, a.ent[i])) }
}

/// Every entry divided by the positive integer count `n`.
pub open spec fn spec_mat_divn(a: MatView, n: int) -> MatView
    recommends
        n > 0,
{
    MatView { rows: a.rows, cols: a.cols, ent: Seq::new(a.ent.len(), |i: int| spec_fx_divn(a.ent[i], n)) }
}

/// Every entry squared (saturating, so never negative).
pub open spec fn spec_mat_sq(a: MatView) -> MatView {
    MatView { rows: a.rows, cols: a.cols, ent: Seq::new(a.ent.len(), |i: int| spec_fx_sq(a.ent[i])) }
}

/// The square root of every entry after the epsilon guard is added.
pub open spec fn spec_mat_sqrt_guard(a: MatView) -> MatView {
    MatView {
        rows: a.rows,
        cols: a.cols,
        ent: Seq::new(a.ent.len(), |i: int| spec_fx_sqrt(spec_fx_sat_add(a.ent[i], EPSILON))),
    }
}

/// Elementwise quotient of two views of one shape; the divisor entries must
/// be positive.
pub open spec fn spec_mat_div_elem(a: MatView, b: MatView) -> MatView
    recommends
        a.same_shape(b),
        forall|i: int| 0 <= i < b.ent.len() ==> b.ent[i] > 0,
{
    MatView { rows: a.rows, cols: a.cols, ent: Seq::new(a.ent.len(), |i: int| spec_fx_div(a.ent[i], b.ent[i])) }
}

/// A column vector `b` added to every column of `a`.
pub open spec fn spec_mat_add_bias(a: MatView, b: MatView) -> MatView
    recommends
        b.cols == 1,
        b.rows == a.rows,
{
    MatView {
        rows: a.rows,
        cols: a.cols,
        ent: Seq::new(a.ent.len(), |i: int| spec_fx_add(a.ent[i], b.ent[i / a.cols as int])),
    }
}

/// The transpose of `a`.
pub open spec fn spec_mat_transpose(a: MatView) -> MatView {
    MatView {
        rows: a.cols,
        cols: a.rows,
        ent: Seq::new(
            a.cols * a.rows,
            |i: int| a.ent[(i % a.rows as int) * a.cols + i / a.rows as int],
        ),
    }
}

/// The dot product of row `r` of `a` with column `c` of `b`, over the first
/// `k` terms, accumulated left to right.
pub open spec fn spec_dot(a: MatView, b: MatView, r: int, c: int, k: int) -> i64
    recommends
        a.wf(),
        b.wf(),
        a.cols == b.rows,
    decreases k,
    when k >= 0
{
    if k <= 0 {
        0
    } else {
        spec_fx_add(spec_dot(a, b, r, c, k - 1), spec_fx_mul(a.at(r, k - 1), b.at(k - 1, c)))
    }
}

/// The matrix product of `a` and `b`.
pub open spec fn spec_mat_mul(a: MatView, b: MatView) -> MatView
    recommends
        a.wf(),
        b.wf(),
        a.cols == b.rows,
{
    MatView {
        rows: a.rows,
        cols: b.cols,
        ent: Seq::new(
            a.rows * b.cols,
            |i: int| spec_dot(a, b, i / b.cols as int, i % b.cols as int, a.cols as int),
        ),
    }
}

/// The wrapping sum of the first `k` values of `s`, accumulated left to
/// right.
pub open spec fn spec_sum_prefix(s: Seq<i64>, k: int) -> i64
    decreases k,
    when k >= 0
{
    if k <= 0 {
        0
    } else {
        spec_fx_add(spec_sum_prefix(s, k - 1), s[k - 1])
    }
}

/// The wrapping sum of all entries of `a`.
pub open spec fn spec_mat_sum(a: MatView) -> i64 {
    spec_sum_prefix(a.ent, a.ent.len() as int)
}

/// Elementwise wrapping addition is associative.
pub proof fn lemma_mat_add_assoc(a: MatView, b: MatView, c: MatView)
    requires
        a.wf(),
        b.wf(),
        c.wf(),
        a.same_shape(b),
        a.same_shape(c),
    ensures
        spec_mat_add(spec_mat_add(a, b), c) == spec_mat_add(a, spec_mat_add(b, c)),
{
    let l = spec_mat_add(spec_mat_add(a, b), c);
    let r = spec_mat_add(a, spec_mat_add(b, c));
    assert forall|i: int| 0 <= i < a.ent.len() implies l.ent[i] == r.ent[i] by {
        crate::fixed::lemma_fx_add_assoc(a.ent[i], b.ent[i], c.ent[i]);
    }
    assert(l.ent =~= r.ent);
}

/// The zero matrix is the identity of elementwise addition.
pub proof fn lemma_mat_add_zero_right(a: MatView)
    requires
        a.wf(),
    ensures
        spec_mat_add(a, spec_mat_zero(a.rows, a.cols)) == a,
{
    let l = spec_mat_add(a, spec_mat_zero(a.rows, a.cols));
    assert forall|i: int| 0 <= i < a.ent.len() implies l.ent[i] == a.ent[i] by {
        crate::fixed::lemma_fx_add_zero(a.ent[i]);
    }
    assert(l.ent =~= a.ent);
}

/// Row and column recovered from a flat row-major position.
pub proof fn lemma_flat_unindex(cols: int, i: int, j: int)
    requires
        0 <= i,
        0 <= j < cols,
    ensures
        (i * cols + j) / cols == i,
        (i * cols + j) % cols == j,
{
    vstd::arithmetic::div_mod::lemma_div_multiples_vanish_fancy(i, j, cols);
    vstd::arithmetic::div_mod::lemma_mod_multiples_vanish(i, j, cols);
    vstd::arithmetic::div_mod::lemma_small_mod(j as nat, cols as nat);
    assert(i * cols == cols * i) by (nonlinear_arith);
}

/// Every view entry within the first `r * cols + c` positions stays in range.
pub proof fn lemma_flat_index(rows: int, cols: int, r: int, c: int)
    requires
        0 <= r < rows,
        0 <= c < cols,
    ensures
        0 <= r * cols + c < rows * cols,
{
    lemma_mul_inequality(r, rows - 1, cols);
    assert((rows - 1) * cols == rows * cols - cols) by (nonlinear_arith);
}

/// A matrix of fixed-point scalars, entries stored in row-major order.
#[derive(Debug)]
pub struct Matrix {
    rows: usize,
    cols: usize,
    data: Vec<i64>,
}

impl View for Matrix {
    type V = MatView;

    closed spec fn view(&self) -> MatView {
        MatView { rows: self.rows as nat, cols: self.cols as nat, ent: self.data@ }
    }
}

impl Clone for Matrix {
    /// An exact copy: the clone has the same view.
    fn clone(&self) -> (r: Self)
        ensures
            r@ == self@,
    {
        proof {
            use_type_invariant(self);
        }
        let data: Vec<i64> = self.data.clone();
        proof {
            assert(data@ =~= self.data@);
        }
        Matrix { rows: self.rows, cols: self.cols, data }
    }
}

impl Matrix {
    /// The entry count always matches the dimensions.
    #[verifier::type_invariant]
    pub open spec fn inv(self) -> bool {
        self@.wf()
    }

    /// Number of rows.
    pub fn nrows(&self) -> (r: usize)
        ensures
            r == self@.rows,
    {
        self.rows
    }

    /// Number of columns.
    pub fn ncols(&self) -> (r: usize)
        ensures
            r == self@.cols,
    {
        self.cols
    }

    /// The entry in row `r`, column `c`.
    pub fn get(&self, r: usize, c: usize) -> (v: i64)
        requires
            r < self@.rows,
            c < self@.cols,
        ensures
            v == self@.at(r as int, c as int),
    {
        let _len: usize = self.data.len();
        proof {
            use_type_invariant(self);
            lemma_flat_index(self@.rows as int, self@.cols as int, r as int, c as int);
        }
        self.data[r * self.cols + c]
    }

    /// Replace the entry in row `r`, column `c`.
    pub fn set(&mut self, r: usize, c: usize, v: i64)
        requires
            r < old(self)@.rows,
            c < old(self)@.cols,
        ensures
            final(self)@ == (MatView {
                ent: old(self)@.ent.update(r * old(self)@.cols + c, v),
                ..old(self)@
            }),
    {
        let _len: usize = self.data.len();
        proof {
            use_type_invariant(&*self);
            lemma_flat_index(self@.rows as int, self@.cols as int, r as int, c as int);
        }
        let idx: usize = r * self.cols + c;
        self.data[idx] = v;
    }

    /// The all-zero matrix of the given dimensions.
    pub fn zeros(rows: usize, cols: usize) -> (m: Matrix)
        requires
            rows <= MAX_DIM,
            cols <= MAX_DIM,
        ensures
            m@ == spec_mat_zero(rows as nat, cols as nat),
    {
        proof {
            assert(rows * cols <= MAX_DIM * MAX_DIM) by (nonlinear_arith)
                requires
                    rows <= MAX_DIM && cols <= MAX_DIM,
            ;
        }
        let n: usize = rows * cols;
        let mut data: Vec<i64> = Vec::new();
        let mut i: usize = 0;
        while i < n
            invariant
                i <= n,
                data@.len() == i,
                forall|j: int| 0 <= j < i ==> data@[j] == 0i64,
            decreases n - i,
        {
            data.push(0i64);
            i += 1;
        }
        let m = Matrix { rows, cols, data };
        proof {
            assert(m@.ent =~= spec_mat_zero(rows as nat, cols as nat).ent);
        }
        m
    }

    /// Build a matrix from a flat vector in column-major order, the order in
    /// which the entry lists of this crate's tests and datasets are written.
    pub fn from_vec(rows: usize, cols: usize, v: Vec<i64>) -> (m: Matrix)
        requires
            rows <= MAX_DIM,
            cols <= MAX_DIM,
            v@.len() == rows * cols,
        ensures
            m@.rows == rows,
            m@.cols == cols,
            m@.wf(),
            forall|r: int, c: int|
                0 <= r < rows && 0 <= c < cols ==> m@.at(r, c) == v@[c * rows + r],
    {
        let total: usize = v.len();
        let mut data: Vec<i64> = Vec::new();
        let mut r: usize = 0;
        while r < rows
            invariant
                r <= rows,
                total == v@.len(),
                v@.len() == rows * cols,
                data@.len() == r * cols,
                forall|k: int|
                    0 <= k < data@.len() ==> #[trigger] data@[k] == v@[(k % cols as int) * rows
                        + k / cols as int],
            decreases rows - r,
        {
            let mut c: usize = 0;
            while c < cols
                invariant
                    r < rows,
                    c <= cols,
                    total == v@.len(),
                    v@.len() == rows * cols,
                    data@.len() == r * cols + c,
                    forall|k: int|
                        0 <= k < data@.len() ==> #[trigger] data@[k] == v@[(k % cols as int)
                            * rows + k / cols as int],
                decreases cols - c,
            {
                proof {
                    lemma_flat_index(cols as int, rows as int, c as int, r as int);
                    lemma_flat_index(rows as int, cols as int, r as int, c as int);
                    lemma_flat_unindex(cols as int, r as int, c as int);
                    assert(cols * rows == rows * cols) by (nonlinear_arith);
                }
                data.push(v[c * rows + r]);
                c += 1;
            }
            r += 1;
            proof {
                assert(r * cols == (r - 1) * cols + cols) by (nonlinear_arith);
            }
        }
        let m = Matrix { rows, cols, data };
        proof {
            assert(m@.wf());
            assert forall|i: int, j: int|
                0 <= i < rows && 0 <= j < cols implies m@.at(i, j) == v@[j * rows + i] by {
                lemma_flat_index(rows as int, cols as int, i, j);
                lemma_flat_index(cols as int, rows as int, j, i);
                lemma_flat_unindex(cols as int, i, j);
                assert(cols * rows == rows * cols) by (nonlinear_arith);
            }
        }
        m
    }

    /// Number of entries.
    pub(crate) fn ent_count(&self) -> (n: usize)
        ensures
            n == self@.ent.len(),
            self@.wf(),
    {
        proof {
            use_type_invariant(self);
        }
        self.data.len()
    }

    /// The entry at flat row-major position `i`.
    pub(crate) fn get_flat(&self, i: usize) -> (v: i64)
        requires
            i < self@.ent.len(),
        ensures
            v == self@.ent[i as int],
    {
        proof {
            use_type_invariant(self);
        }
        self.data[i]
    }

    /// Assemble a matrix from row-major entries.
    pub(crate) fn from_flat(rows: usize, cols: usize, data: Vec<i64>) -> (m: Matrix)
        requires
            rows <= MAX_DIM,
            cols <= MAX_DIM,
            data@.len() == rows * cols,
        ensures
            m@ == (MatView { rows: rows as nat, cols: cols as nat, ent: data@ }),
    {
        Matrix { rows, cols, data }
    }

    /// Elementwise wrapping sum.
    pub fn mat_add(&self, other: &Matrix) -> (m: Matrix)
        requires
            self@.same_shape(other@),
        ensures
            m@ == spec_mat_add(self@, other@),
    {
        proof {
            use_type_invariant(self);
            use_type_invariant(other);
        }
        let n: usize = self.data.len();
        let mut data: Vec<i64> = Vec::new();
        let mut i: usize = 0;
        while i < n
            invariant
                i <= n,
                n == self.data@.len(),
                other.data@.len() == n,
                data@.len() == i,
                forall|j: int|
                    0 <= j < i ==> data@[j] == spec_fx_add(self.data@[j], other.data@[j]),
            decreases n - i,
        {
            let x: i64 = fx_add(self.data[i], other.data[i]);
            data.push(x);
            i += 1;
        }
        let m = Matrix { rows: self.rows, cols: self.cols, data };
        proof {
            assert(m@.ent =~= spec_mat_add(self@, other@).ent);
        }
        m
    }

    /// Elementwise wrapping difference.
    pub fn mat_sub(&self, other: &Matrix) -> (m: Matrix)
        requires
            self@.same_shape(other@),
        ensures
            m@ == spec_mat_sub(self@, other@),
    {
        proof {
            use_type_invariant(self);
            use_type_invariant(other);
        }
        let n: usize = self.data.len();
        let mut data: Vec<i64> = Vec::new();
        let mut i: usize = 0;
        while i < n
            invariant
                i <= n,
                n == self.data@.len(),
                other.data@.len() == n,
                data@.len() == i,
                forall|j: int|
                    0 <= j < i ==> data@[j] == spec_fx_sub(self.data@[j], other.data@[j]),
            decreases n - i,
        {
            let x: i64 = fx_sub(self.data[i], other.data[i]);
            data.push(x);
            i += 1;
        }
        let m = Matrix { rows: self.rows, cols: self.cols, data };
        proof {
            assert(m@.ent =~= spec_mat_sub(self@, other@).ent);
        }
        m
    }

    /// Elementwise (Hadamard) product.
    pub fn mat_hadamard(&self, other: &Matrix) -> (m: Matrix)
        requires
            self@.same_shape(other@),
        ensures
            m@ == spec_mat_hadamard(self@, other@),
    {
        proof {
            use_type_invariant(self);
            use_type_invariant(other);
        }
        let n: usize = self.data.len();
        let mut data: Vec<i64> = Vec::new();
        let mut i: usize = 0;
        while i < n
            invariant
                i <= n,
                n == self.data@.len(),
                other.data@.len() == n,
                data@.len() == i,
                forall|j: int|
                    0 <= j < i ==> data@[j] == spec_fx_mul(self.data@[j], other.data@[j]),
            decreases n - i,
        {
            let x: i64 = fx_mul(self.data[i], other.data[i]);
            data.push(x);
            i += 1;
        }
        let m = Matrix { rows: self.rows, cols: self.cols, data };
        proof {
            assert(m@.ent =~= spec_mat_hadamard(self@, other@).ent);
        }
        m
    }

    /// Elementwise quotient; every divisor entry must be positive.
    pub fn mat_div_elem(&self, other: &Matrix) -> (m: Matrix)
        requires
            self@.same_shape(other@),
            forall|i: int| 0 <= i < other@.ent.len() ==> other@.ent[i] > 0,
        ensures
            m@ == spec_mat_div_elem(self@, other@),
    {
        proof {
            use_type_invariant(self);
            use_type_invariant(other);
        }
        let n: usize = self.data.len();
        let mut data: Vec<i64> = Vec::new();
        let mut i: usize = 0;
        while i < n
            invariant
                i <= n,
                n == self.data@.len(),
                other.data@.len() == n,
                forall|j: int| 0 <= j < n ==> other.data@[j] > 0,
                data@.len() == i,
                forall|j: int|
                    0 <= j < i ==> data@[j] == spec_fx_div(self.data@[j], other.data@[j]),
            decreases n - i,
        {
            let x: i64 = fx_div(self.data[i], other.data[i]);
            data.push(x);
            i += 1;
        }
        let m = Matrix { rows: self.rows, cols: self.cols, data };
        proof {
            assert(m@.ent =~= spec_mat_div_elem(self@, other@).ent);
        }
        m
    }

    /// Every entry multiplied by the fixed-point factor `k`.
    pub fn mat_scale(&self, k: i64) -> (m: Matrix)
        ensures
            m@ == spec_mat_scale(k, self@),
    {
        proof {
            use_type_invariant(self);
        }
        let n: usize = self.data.len();
        let mut data: Vec<i64> = Vec::new();
        let mut i: usize = 0;
        while i < n
            invariant
                i <= n,
                n == self.data@.len(),
                data@.len() == i,
                forall|j: int| 0 <= j < i ==> data@[j] == spec_fx_mul(k, self.data@[j]),
            decreases n - i,
        {
            let x: i64 = fx_mul(k, self.data[i]);
            data.push(x);
            i += 1;
        }
        let m = Matrix { rows: self.rows, cols: self.cols, data };
        proof {
            assert(m@.ent =~= spec_mat_scale(k, self@).ent);
        }
        m
    }

    /// Every entry divided by the positive count `n`.
    pub fn mat_divn(&self, n: usize) -> (m: Matrix)
        requires
            n > 0,
        ensures
            m@ == spec_mat_divn(self@, n as int),
    {
        proof {
            use_type_invariant(self);
        }
        let len: usize = self.data.len();
        let mut data: Vec<i64> = Vec::new();
        let mut i: usize = 0;
        while i < len
            invariant
                i <= len,
                n > 0,
                len == self.data@.len(),
                data@.len() == i,
                forall|j: int| 0 <= j < i ==> data@[j] == spec_fx_divn(self.data@[j], n as int),
            decreases len - i,
        {
            let x: i64 = fx_divn(self.data[i], n);
            data.push(x);
            i += 1;
        }
        let m = Matrix { rows: self.rows, cols: self.cols, data };
        proof {
            assert(m@.ent =~= spec_mat_divn(self@, n as int).ent);
        }
        m
    }

    /// Every entry squared, saturating.
    pub fn mat_sq(&self) -> (m: Matrix)
        ensures
            m@ == spec_mat_sq(self@),
    {
        proof {
            use_type_invariant(self);
        }
        let n: usize = self.data.len();
        let mut data: Vec<i64> = Vec::new();
        let mut i: usize = 0;
        while i < n
            invariant
                i <= n,
                n == self.data@.len(),
                data@.len() == i,
                forall|j: int| 0 <= j < i ==> data@[j] == spec_fx_sq(self.data@[j]),
            decreases n - i,
        {
            let x: i64 = fx_sq(self.data[i]);
            data.push(x);
            i += 1;
        }
        let m = Matrix { rows: self.rows, cols: self.cols, data };
        proof {
            assert(m@.ent =~= spec_mat_sq(self@).ent);
        }
        m
    }

    /// The square root of every entry after the epsilon guard is added.
    pub fn mat_sqrt_guard(&self) -> (m: Matrix)
        ensures
            m@ == spec_mat_sqrt_guard(self@),
    {
        proof {
            use_type_invariant(self);
        }
        let n: usize = self.data.len();
        let mut data: Vec<i64> = Vec::new();
        let mut i: usize = 0;
        while i < n
            invariant
                i <= n,
                n == self.data@.len(),
                data@.len() == i,
                forall|j: int|
                    0 <= j < i ==> data@[j] == spec_fx_sqrt(
                        spec_fx_sat_add(self.data@[j], EPSILON),
                    ),
            decreases n - i,
        {
            let x: i64 = fx_sqrt(fx_sat_add(self.data[i], EPSILON));
            data.push(x);
            i += 1;
        }
        let m = Matrix { rows: self.rows, cols: self.cols, data };
        proof {
            assert(m@.ent =~= spec_mat_sqrt_guard(self@).ent);
        }
        m
    }

    /// The column vector `bias` added to every column.
    pub fn mat_add_bias(&self, bias: &Matrix) -> (m: Matrix)
        requires
            bias@.cols == 1,
            bias@.rows == self@.rows,
        ensures
            m@ == spec_mat_add_bias(self@, bias@),
    {
        proof {
            use_type_invariant(self);
            use_type_invariant(bias);
        }
        let n: usize = self.data.len();
        let mut data: Vec<i64> = Vec::new();
        let mut i: usize = 0;
        while i < n
            invariant
                i <= n,
                n == self.data@.len(),
                self@.wf(),
                bias@.cols == 1,
                bias@.rows == self@.rows,
                bias.data@.len() == bias@.rows,
                data@.len() == i,
                forall|j: int|
                    0 <= j < i ==> data@[j] == spec_fx_add(
                        self.data@[j],
                        bias.data@[j / self@.cols as int],
                    ),
            decreases n - i,
        {
            proof {
                assert(self@.cols > 0) by (nonlinear_arith)
                    requires
                        self@.ent.len() == self@.rows * self@.cols,
                        i < self@.ent.len(),
                ;
                assert(self@.cols * self@.rows == self@.rows * self@.cols) by (nonlinear_arith);
                vstd::arithmetic::div_mod::lemma_multiply_divide_lt(
                    i as int,
                    self@.cols as int,
                    self@.rows as int,
                );
                vstd::arithmetic::div_mod::lemma_div_pos_is_pos(i as int, self@.cols as int);
            }
            let row: usize = i / self.cols;
            let x: i64 = fx_add(self.data[i], bias.data[row]);
            data.push(x);
            i += 1;
        }
        let m = Matrix { rows: self.rows, cols: self.cols, data };
        proof {
            assert(m@.ent =~= spec_mat_add_bias(self@, bias@).ent);
        }
        m
    }

    /// The transpose.
    pub fn mat_transpose(&self) -> (m: Matrix)
        ensures
            m@ == spec_mat_transpose(self@),
    {
        proof {
            use_type_invariant(self);
        }
        let trows: usize = self.cols;
        let tcols: usize = self.rows;
        let mut data: Vec<i64> = Vec::new();
        let mut r: usize = 0;
        while r < trows
            invariant
                r <= trows,
                trows == self@.cols,
                tcols == self@.rows,
                self@.wf(),
                data@.len() == r * tcols,
                forall|p: int|
                    0 <= p < data@.len() ==> #[trigger] data@[p] == self@.ent[(p % tcols as int)
                        * trows as int + p / tcols as int],
            decreases trows - r,
        {
            let mut c: usize = 0;
            while c < tcols
                invariant
                    r < trows,
                    c <= tcols,
                    trows == self@.cols,
                    tcols == self@.rows,
                    self@.wf(),
                    data@.len() == r * tcols + c,
                    forall|p: int|
                        0 <= p < data@.len() ==> #[trigger] data@[p] == self@.ent[(p
                            % tcols as int) * trows as int + p / tcols as int],
                decreases tcols - c,
            {
                let x: i64 = self.get(c, r);
                proof {
                    lemma_flat_unindex(tcols as int, r as int, c as int);
                    lemma_flat_index(trows as int, tcols as int, r as int, c as int);
                }
                data.push(x);
                c += 1;
            }
            r += 1;
            proof {
                assert(r * tcols == (r - 1) * tcols + tcols) by (nonlinear_arith);
            }
        }
        let m = Matrix { rows: trows, cols: tcols, data };
        proof {
            assert(trows * tcols == self@.cols * self@.rows) by (nonlinear_arith)
                requires
                    trows == self@.cols && tcols == self@.rows,
            ;
            assert(m@.ent =~= spec_mat_transpose(self@).ent);
        }
        m
    }

    /// The matrix product.
    pub fn mat_mul(&self, other: &Matrix) -> (m: Matrix)
        requires
            self@.cols == other@.rows,
        ensures
            m@ == spec_mat_mul(self@, other@),
    {
        proof {
            use_type_invariant(self);
            use_type_invariant(other);
        }
        let rows: usize = self.rows;
        let inner: usize = self.cols;
        let cols: usize = other.cols;
        let mut data: Vec<i64> = Vec::new();
        let mut r: usize = 0;
        while r < rows
            invariant
                r <= rows,
                rows == self@.rows,
                inner == self@.cols,
                cols == other@.cols,
                self@.wf(),
                other@.wf(),
                self@.cols == other@.rows,
                data@.len() == r * cols,
                forall|p: int|
                    0 <= p < data@.len() ==> #[trigger] data@[p] == spec_dot(
                        self@,
                        other@,
                        p / cols as int,
                        p % cols as int,
                        inner as int,
                    ),
            decreases rows - r,
        {
            let mut c: usize = 0;
            while c < cols
                invariant
                    r < rows,
                    c <= cols,
                    rows == self@.rows,
                    inner == self@.cols,
                    cols == other@.cols,
                    self@.wf(),
                    other@.wf(),
                    self@.cols == other@.rows,
                    data@.len() == r * cols + c,
                    forall|p: int|
                        0 <= p < data@.len() ==> #[trigger] data@[p] == spec_dot(
                            self@,
                            other@,
                            p / cols as int,
                            p % cols as int,
                            inner as int,
                        ),
                decreases cols - c,
            {
                let mut acc: i64 = 0;
                let mut k: usize = 0;
                while k < inner
                    invariant
                        k <= inner,
                        r < rows,
                        c < cols,
                        rows == self@.rows,
                        inner == self@.cols,
                        cols == other@.cols,
                        self@.wf(),
                        other@.wf(),
                        self@.cols == other@.rows,
                        acc == spec_dot(self@, other@, r as int, c as int, k as int),
                    decreases inner - k,
                {
                    let x: i64 = fx_mul(self.get(r, k), other.get(k, c));
                    acc = fx_add(acc, x);
                    k += 1;
                }
                proof {
                    lemma_flat_unindex(cols as int, r as int, c as int);
                    lemma_flat_index(rows as int, cols as int, r as int, c as int);
                }
                data.push(acc);
                c += 1;
            }
            r += 1;
            proof {
                assert(r * cols == (r - 1) * cols + cols) by (nonlinear_arith);
            }
        }
        let m = Matrix { rows, cols, data };
        proof {
            assert(m@.ent =~= spec_mat_mul(self@, other@).ent);
        }
        m
    }

    /// The wrapping sum of all entries.
    pub fn mat_sum(&self) -> (s: i64)
        ensures
            s == spec_mat_sum(self@),
    {
        proof {
            use_type_invariant(self);
        }
        let n: usize = self.data.len();
        let mut acc: i64 = 0;
        let mut i: usize = 0;
        while i < n
            invariant
                i <= n,
                n == self.data@.len(),
                acc == spec_sum_prefix(self.data@, i as int),
            decreases n - i,
        {
            acc = fx_add(acc, self.data[i]);
            i += 1;
        }
        acc
    }
}

impl PartialEq for Matrix {
    /// Matrices are equal when their views are: same shape, same entries.
    fn eq(&self, other: &Self) -> (r: bool) {
        proof {
            use_type_invariant(self);
            use_type_invariant(other);
        }
        if self.rows != other.rows || self.cols != other.cols {
            proof {
                assert(self@ != other@);
            }
            return false;
        }
        let n: usize = self.data.len();
        let mut i: usize = 0;
        while i < n
            invariant
                i <= n,
                n == self.data@.len(),
                self@.wf(),
                other@.wf(),
                self@.rows == other@.rows,
                self@.cols == other@.cols,
                forall|j: int| 0 <= j < i ==> self.data@[j] == other.data@[j],
            decreases n - i,
        {
            if self.data[i] != other.data[i] {
                proof {
                    assert(self@.ent[i as int] != other@.ent[i as int]);
                }
                return false;
            }
            i += 1;
        }
        proof {
            assert(self@.ent =~= other@.ent);
        }
        true
    }
}

impl vstd::std_specs::cmp::PartialEqSpecImpl for Matrix {
    open spec fn obeys_eq_spec() -> bool {
        true
    }

    open spec fn eq_spec(&self, other: &Matrix) -> bool {
        self@ == other@
    }
}

} // verus!
