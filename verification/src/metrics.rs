//! Classification metrics.
//!
//! A confusion matrix is held as a square matrix of plain counts: entry
//! `(actual, predicted)` counts the samples of class `actual` that were
//! predicted as class `predicted`. Per-class precision, recall and their
//! harmonic mean are fixed-point fractions of one.

use vstd::prelude::*;

verus! {

use crate::fixed::{SCALE, spec_fx_add, spec_fx_mul, spec_fx_div, spec_fx_divn, fx_add, fx_mul,
    fx_div, fx_divn};
use crate::matrix::{Matrix, MatView, spec_mat_zero, lemma_flat_index, lemma_flat_unindex};
use crate::model::spec_views;

/// The sum of the first `k` entries, flat.
pub open spec fn spec_total_count_to(m: MatView, k: int) -> int
    decreases k,
    when k >= 0
{
    if k <= 0 {
        0
    } else {
        spec_total_count_to(m, k - 1) + m.ent[k - 1] as int
    }
}

/// The sum of the first `k` entries that lie in column `ci`.
pub open spec fn spec_col_count_to(m: MatView, ci: int, k: int) -> int
    decreases k,
    when k >= 0
{
    if k <= 0 {
        0
    } else {
        spec_col_count_to(m, ci, k - 1) + if (k - 1) % m.cols as int == ci {
            m.ent[k - 1] as int
        } else {
            0
        }
    }
}

/// The sum of the first `k` entries that lie in row `ci`.
pub open spec fn spec_row_count_to(m: MatView, ci: int, k: int) -> int
    decreases k,
    when k >= 0
{
    if k <= 0 {
        0
    } else {
        spec_row_count_to(m, ci, k - 1) + if (k - 1) / m.cols as int == ci {
            m.ent[k - 1] as int
        } else {
            0
        }
    }
}

/// The sum of the first `k` entries that lie in row `ci` or column `ci`.
pub open spec fn spec_union_count_to(m: MatView, ci: int, k: int) -> int
    decreases k,
    when k >= 0
{
    if k <= 0 {
        0
    } else {
        spec_union_count_to(m, ci, k - 1) + if (k - 1) / m.cols as int == ci || (k - 1)
            % m.cols as int == ci {
            m.ent[k - 1] as int
        } else {
            0
        }
    }
}

/// The sum of the first `k` entries that lie in row `ci` and column `ci`.
pub open spec fn spec_cell_count_to(m: MatView, ci: int, k: int) -> int
    decreases k,
    when k >= 0
{
    if k <= 0 {
        0
    } else {
        spec_cell_count_to(m, ci, k - 1) + if (k - 1) / m.cols as int == ci && (k - 1)
            % m.cols as int == ci {
            m.ent[k - 1] as int
        } else {
            0
        }
    }
}

/// The sum of all entries.
pub open spec fn spec_total_count(m: MatView) -> int {
    spec_total_count_to(m, m.ent.len() as int)
}

/// The sum of column `ci`.
pub open spec fn spec_col_count(m: MatView, ci: int) -> int {
    spec_col_count_to(m, ci, m.ent.len() as int)
}

/// The sum of row `ci`.
pub open spec fn spec_row_count(m: MatView, ci: int) -> int {
    spec_row_count_to(m, ci, m.ent.len() as int)
}

/// With non-negative entries, the partial counts are ordered: the diagonal
/// cell within its column and row, both within their union, and the union
/// within the total; and the union is the column plus the row minus the
/// cell counted twice.
pub proof fn lemma_count_partials(m: MatView, ci: int, k: int)
    requires
        forall|i: int| 0 <= i < m.ent.len() ==> #[trigger] m.ent[i] >= 0,
        0 <= k <= m.ent.len(),
    ensures
        0 <= spec_cell_count_to(m, ci, k),
        spec_cell_count_to(m, ci, k) <= spec_col_count_to(m, ci, k),
        spec_cell_count_to(m, ci, k) <= spec_row_count_to(m, ci, k),
        spec_union_count_to(m, ci, k) == spec_col_count_to(m, ci, k) + spec_row_count_to(m, ci, k)
            - spec_cell_count_to(m, ci, k),
        spec_col_count_to(m, ci, k) <= spec_union_count_to(m, ci, k),
        spec_row_count_to(m, ci, k) <= spec_union_count_to(m, ci, k),
        spec_union_count_to(m, ci, k) <= spec_total_count_to(m, k),
    decreases k,
{
    if k > 0 {
        lemma_count_partials(m, ci, k - 1);
    }
}

/// With non-negative entries the running total only grows.
pub proof fn lemma_total_mono(m: MatView, k1: int, k2: int)
    requires
        forall|i: int| 0 <= i < m.ent.len() ==> #[trigger] m.ent[i] >= 0,
        0 <= k1 <= k2 <= m.ent.len(),
    ensures
        spec_total_count_to(m, k1) <= spec_total_count_to(m, k2),
    decreases k2,
{
    if k1 < k2 {
        lemma_total_mono(m, k1, k2 - 1);
    }
}

/// The diagonal-cell count is exactly the diagonal entry once the running
/// index has passed it.
pub proof fn lemma_cell_value(m: MatView, ci: int, k: int)
    requires
        m.wf(),
        0 <= ci < m.rows,
        ci < m.cols,
        0 <= k <= m.ent.len(),
    ensures
        spec_cell_count_to(m, ci, k) == if ci * m.cols as int + ci < k {
            m.ent[ci * m.cols as int + ci] as int
        } else {
            0int
        },
    decreases k,
{
    if k > 0 {
        lemma_cell_value(m, ci, k - 1);
        let i = k - 1;
        let cols = m.cols as int;
        let idx = ci * cols + ci;
        lemma_flat_unindex(cols, ci, ci);
        assert(ci * cols == cols * ci) by (nonlinear_arith);
        vstd::arithmetic::div_mod::lemma_fundamental_div_mod(i, cols);
        if i / cols == ci && i % cols == ci {
            assert(i == cols * (i / cols) + i % cols);
            assert(i == idx);
        } else {
            assert(i != idx);
        }
    }
}

/// One class's view of a confusion matrix: how many samples of this class
/// and of the others were predicted as this class or another.
#[derive(Debug, PartialEq, Eq, Structural)]
pub struct ClassConfusionMatrix {
    pub false_negatives: usize,
    pub false_positives: usize,
    pub true_negatives: usize,
    pub true_positives: usize,
}

/// A fixed-point ratio `a / (a + b)`, zero when both are zero.
pub open spec fn spec_ratio_fx(a: int, b: int) -> int {
    if a + b == 0 {
        0
    } else {
        (a * SCALE) / (a + b)
    }
}

/// The harmonic mean of two fixed-point fractions, zero when both are
/// zero: `2 * (p * r) / (p + r)`.
pub open spec fn spec_f1_fx(p: i64, r: i64) -> i64
    recommends
        0 <= p,
        0 <= r,
        p + r <= i64::MAX,
{
    if p + r == 0 {
        0
    } else {
        spec_fx_div(spec_fx_mul(2_000_000i64, spec_fx_mul(p, r)), (p + r) as i64)
    }
}

impl Clone for ClassConfusionMatrix {
    /// An exact copy.
    fn clone(&self) -> (r: Self)
        ensures
            r == *self,
    {
        ClassConfusionMatrix {
            false_negatives: self.false_negatives,
            false_positives: self.false_positives,
            true_negatives: self.true_negatives,
            true_positives: self.true_positives,
        }
    }
}

impl ClassConfusionMatrix {
    /// The counts of one class, read off a square matrix of non-negative
    /// counts: true positives are its diagonal entry, false positives the
    /// rest of its column, false negatives the rest of its row, and true
    /// negatives everything else.
    pub fn new(confusion_matrix: &Matrix, class_index: usize) -> (r: ClassConfusionMatrix)
        requires
            confusion_matrix@.rows == confusion_matrix@.cols,
            class_index < confusion_matrix@.rows,
            forall|i: int|
                0 <= i < confusion_matrix@.ent.len() ==> #[trigger] confusion_matrix@.ent[i] >= 0,
            spec_total_count(confusion_matrix@) <= i64::MAX,
            spec_total_count(confusion_matrix@) <= usize::MAX,
        ensures
            ({
                let m = confusion_matrix@;
                let ci = class_index as int;
                let tp = m.at(ci, ci) as int;
                &&& r.true_positives == tp
                &&& r.false_positives == spec_col_count(m, ci) - tp
                &&& r.false_negatives == spec_row_count(m, ci) - tp
                &&& r.true_negatives == spec_total_count(m) - spec_col_count(m, ci)
                    - spec_row_count(m, ci) + tp
            }),
    {
        let ghost m: MatView = confusion_matrix@;
        let ghost ci_g: int = class_index as int;
        let n: usize = confusion_matrix.ent_count();
        let cols: usize = confusion_matrix.ncols();
        let mut acc_total: i64 = 0;
        let mut acc_col: i64 = 0;
        let mut acc_row: i64 = 0;
        let mut acc_cell: i64 = 0;
        let mut i: usize = 0;
        while i < n
            invariant
                i <= n,
                n == m.ent.len(),
                m == confusion_matrix@,
                m.wf(),
                m.rows == m.cols,
                cols == m.cols,
                cols >= 1,
                ci_g == class_index as int,
                0 <= ci_g < m.rows,
                forall|j: int| 0 <= j < m.ent.len() ==> #[trigger] m.ent[j] >= 0,
                spec_total_count(m) <= i64::MAX,
                spec_total_count(m) <= usize::MAX,
                acc_total == spec_total_count_to(m, i as int),
                acc_col == spec_col_count_to(m, ci_g, i as int),
                acc_row == spec_row_count_to(m, ci_g, i as int),
                acc_cell == spec_cell_count_to(m, ci_g, i as int),
            decreases n - i,
        {
            proof {
                lemma_count_partials(m, ci_g, i as int);
                lemma_count_partials(m, ci_g, i as int + 1);
                lemma_total_mono(m, i as int + 1, n as int);
            }
            let e: i64 = confusion_matrix.get_flat(i);
            acc_total = acc_total + e;
            if i % cols == class_index {
                acc_col = acc_col + e;
            }
            if i / cols == class_index {
                acc_row = acc_row + e;
            }
            if i / cols == class_index && i % cols == class_index {
                acc_cell = acc_cell + e;
            }
            i += 1;
        }
        proof {
            lemma_count_partials(m, ci_g, n as int);
            lemma_cell_value(m, ci_g, n as int);
            lemma_flat_index(m.rows as int, m.cols as int, ci_g, ci_g);
        }
        let true_positives: usize = acc_cell as usize;
        let false_positives: usize = (acc_col - acc_cell) as usize;
        let false_negatives: usize = (acc_row - acc_cell) as usize;
        let true_negatives: usize = (acc_total - ((acc_col - acc_cell) + acc_row)) as usize;
        ClassConfusionMatrix { false_negatives, false_positives, true_negatives, true_positives }
    }

    /// All counts zero.
    pub fn empty() -> (r: Self)
        ensures
            r.false_negatives == 0,
            r.false_positives == 0,
            r.true_negatives == 0,
            r.true_positives == 0,
    {
        Self { false_negatives: 0, false_positives: 0, true_negatives: 0, true_positives: 0 }
    }

    /// Precision: true positives over all predicted positives, as a
    /// fixed-point fraction; zero when nothing was predicted positive.
    pub fn precision(&self) -> (v: i64)
        ensures
            v == spec_ratio_fx(self.true_positives as int, self.false_positives as int),
            0 <= v <= SCALE,
    {
        ratio_fx(self.true_positives, self.false_positives)
    }

    /// Recall: true positives over all actual positives, as a fixed-point
    /// fraction; zero when the class never occurred.
    pub fn recall(&self) -> (v: i64)
        ensures
            v == spec_ratio_fx(self.true_positives as int, self.false_negatives as int),
            0 <= v <= SCALE,
    {
        ratio_fx(self.true_positives, self.false_negatives)
    }

    /// The harmonic mean of precision and recall; zero when both are zero.
    pub fn f1_score(&self) -> (v: i64)
        ensures
            v == spec_f1_fx(
                spec_ratio_fx(self.true_positives as int, self.false_positives as int) as i64,
                spec_ratio_fx(self.true_positives as int, self.false_negatives as int) as i64,
            ),
    {
        let precision: i64 = self.precision();
        let recall: i64 = self.recall();
        if precision + recall == 0 {
            0
        } else {
            fx_div(fx_mul(2_000_000i64, fx_mul(precision, recall)), precision + recall)
        }
    }
}

/// The position of the largest of the first `k` values, the last of equal
/// largest values winning, as the class picker behaves.
pub open spec fn spec_argmax_to(s: Seq<i64>, k: int) -> int
    decreases k,
    when k >= 1
{
    if k <= 1 {
        0
    } else {
        let p = spec_argmax_to(s, k - 1);
        if s[k - 1] >= s[p] {
            k - 1
        } else {
            p
        }
    }
}

/// The position of the largest value.
pub open spec fn spec_argmax(s: Seq<i64>) -> int {
    spec_argmax_to(s, s.len() as int)
}

/// The first position at or after `i` holding exactly one, or the length
/// when there is none.
pub open spec fn spec_first_unit_from(s: Seq<i64>, i: int) -> int
    decreases s.len() - i,
    when 0 <= i <= s.len()
{
    if i >= s.len() {
        s.len() as int
    } else if s[i] == SCALE {
        i
    } else {
        spec_first_unit_from(s, i + 1)
    }
}

/// The first position holding exactly one: the mark of a one-hot target.
pub open spec fn spec_first_unit(s: Seq<i64>) -> int {
    spec_first_unit_from(s, 0)
}

/// Some position holds exactly one.
pub open spec fn spec_has_unit(s: Seq<i64>) -> bool {
    exists|j: int| 0 <= j < s.len() && s[j] == SCALE
}

/// When a unit entry exists at or after `i`, the search finds one.
pub proof fn lemma_first_unit_from(s: Seq<i64>, i: int)
    requires
        0 <= i <= s.len(),
        exists|j: int| i <= j < s.len() && #[trigger] s[j] == SCALE,
    ensures
        i <= spec_first_unit_from(s, i) < s.len(),
        s[spec_first_unit_from(s, i)] == SCALE,
    decreases s.len() - i,
{
    if s[i] != SCALE {
        let j = choose|j: int| i <= j < s.len() && s[j] == SCALE;
        assert(i + 1 <= j);
        lemma_first_unit_from(s, i + 1);
    }
}

/// The argmax of a non-empty prefix lies within it.
pub proof fn lemma_argmax_in_range(s: Seq<i64>, k: int)
    requires
        1 <= k,
    ensures
        0 <= spec_argmax_to(s, k) < k,
    decreases k,
{
    if k > 1 {
        lemma_argmax_in_range(s, k - 1);
    }
}

/// The predicted class of one output column: the position of its largest
/// entry, later positions winning ties.
fn determine_predicted_class(matrix: &Matrix) -> (c: usize)
    requires
        matrix@.ent.len() >= 1,
    ensures
        c == spec_argmax(matrix@.ent),
        c < matrix@.ent.len(),
{
    let n: usize = matrix.ent_count();
    let mut best: usize = 0;
    let mut i: usize = 1;
    while i < n
        invariant
            1 <= i <= n,
            n == matrix@.ent.len(),
            best < i,
            best == spec_argmax_to(matrix@.ent, i as int),
        decreases n - i,
    {
        if matrix.get_flat(i) >= matrix.get_flat(best) {
            best = i;
        }
        i += 1;
    }
    best
}

/// The actual class of one one-hot target column: the first position
/// holding exactly one.
fn determine_actual_class(matrix: &Matrix) -> (c: usize)
    requires
        spec_has_unit(matrix@.ent),
    ensures
        c == spec_first_unit(matrix@.ent),
        c < matrix@.ent.len(),
{
    let ghost s: Seq<i64> = matrix@.ent;
    let n: usize = matrix.ent_count();
    let mut i: usize = 0;
    while i < n
        invariant
            i <= n,
            n == s.len(),
            s == matrix@.ent,
            spec_has_unit(s),
            spec_first_unit(s) == spec_first_unit_from(s, i as int),
            forall|j: int| 0 <= j < i ==> s[j] != SCALE,
        decreases n - i,
    {
        if matrix.get_flat(i) == SCALE {
            return i;
        }
        i += 1;
    }
    proof {
        lemma_first_unit_from(s, 0);
        assert(false);
    }
    0
}

/// A confusion matrix with the count of (actual, predicted) raised by one.
pub open spec fn spec_confusion_inc(m: MatView, r: int, c: int) -> MatView
    recommends
        0 <= r < m.rows,
        0 <= c < m.cols,
{
    MatView {
        ent: m.ent.update(
            r * m.cols as int + c,
            spec_fx_add(m.ent[r * m.cols as int + c], 1),
        ),
        ..m
    }
}

/// The confusion matrix of the first `k` prediction/target pairs.
pub open spec fn spec_confusion(
    preds: Seq<MatView>,
    targets: Seq<MatView>,
    classes: nat,
    k: int,
) -> MatView
    decreases k,
    when k >= 0
{
    if k <= 0 {
        spec_mat_zero(classes, classes)
    } else {
        spec_confusion_inc(
            spec_confusion(preds, targets, classes, k - 1),
            spec_first_unit(targets[k - 1].ent),
            spec_argmax(preds[k - 1].ent),
        )
    }
}

/// Pairs fit for a confusion matrix: every prediction is a non-empty
/// column of `classes` entries, every target a one-hot column of the same
/// height.
pub open spec fn spec_pairs_ok(preds: Seq<MatView>, targets: Seq<MatView>, classes: nat) -> bool {
    &&& preds.len() == targets.len()
    &&& classes >= 1
    &&& forall|i: int|
        0 <= i < preds.len() ==> (#[trigger] preds[i]).wf() && preds[i].rows == classes
            && preds[i].cols == 1
    &&& forall|i: int|
        0 <= i < targets.len() ==> (#[trigger] targets[i]).wf() && targets[i].rows == classes
            && targets[i].cols == 1 && spec_has_unit(targets[i].ent)
}

/// A total only moves at the position that was updated.
pub proof fn lemma_total_update(m: MatView, idx: int, v: i64, k: int)
    requires
        0 <= idx < m.ent.len(),
        0 <= k <= m.ent.len(),
    ensures
        spec_total_count_to(MatView { ent: m.ent.update(idx, v), ..m }, k)
            == spec_total_count_to(m, k) + if idx < k {
            v - m.ent[idx]
        } else {
            0int
        },
    decreases k,
{
    if k > 0 {
        lemma_total_update(m, idx, v, k - 1);
    }
}

/// The confusion matrix of `k` pairs is square of the class count, its
/// entries are non-negative, and they sum to exactly `k`: one count per
/// sample.
pub proof fn lemma_confusion_props(
    preds: Seq<MatView>,
    targets: Seq<MatView>,
    classes: nat,
    k: int,
)
    requires
        spec_pairs_ok(preds, targets, classes),
        0 <= k <= preds.len(),
        k <= i64::MAX,
    ensures
        ({
            let m = spec_confusion(preds, targets, classes, k);
            &&& m.rows == classes
            &&& m.cols == classes
            &&& m.wf() == (classes <= crate::matrix::MAX_DIM)
            &&& m.ent.len() == classes * classes
            &&& forall|i: int| 0 <= i < m.ent.len() ==> #[trigger] m.ent[i] >= 0
            &&& spec_total_count(m) == k
        }),
    decreases k,
{
    if k <= 0 {
        let m = spec_confusion(preds, targets, classes, k);
        lemma_count_partials(m, 0, m.ent.len() as int);
        assert forall|i: int| 0 <= i < m.ent.len() implies #[trigger] m.ent[i] >= 0 by {}
        lemma_total_zero(m, m.ent.len() as int);
    } else {
        lemma_confusion_props(preds, targets, classes, k - 1);
        let prev = spec_confusion(preds, targets, classes, k - 1);
        let r = spec_first_unit(targets[k - 1].ent);
        let c = spec_argmax(preds[k - 1].ent);
        lemma_first_unit_from(targets[k - 1].ent, 0);
        lemma_argmax_in_range(preds[k - 1].ent, preds[k - 1].ent.len() as int);
        assert(targets[k - 1].ent.len() == classes * 1);
        assert(preds[k - 1].ent.len() == classes * 1);
        let idx = r * classes as int + c;
        lemma_flat_index(classes as int, classes as int, r, c);
        let m = spec_confusion(preds, targets, classes, k);
        // The previous entry is below the previous total, so the increment
        // cannot wrap.
        lemma_entry_le_total(prev, idx, prev.ent.len() as int);
        crate::fixed::lemma_wrap64_id(prev.ent[idx] + 1);
        lemma_total_update(prev, idx, spec_fx_add(prev.ent[idx], 1i64), prev.ent.len() as int);
    }
}

/// With non-negative entries, each entry is at most the running total that
/// has passed it.
pub proof fn lemma_entry_le_total(m: MatView, idx: int, k: int)
    requires
        forall|i: int| 0 <= i < m.ent.len() ==> #[trigger] m.ent[i] >= 0,
        0 <= idx < k,
        k <= m.ent.len(),
    ensures
        m.ent[idx] <= spec_total_count_to(m, k),
    decreases k,
{
    if idx < k - 1 {
        lemma_entry_le_total(m, idx, k - 1);
    } else {
        lemma_total_nonneg(m, k - 1);
    }
}

/// With non-negative entries every running total is non-negative.
pub proof fn lemma_total_nonneg(m: MatView, k: int)
    requires
        forall|i: int| 0 <= i < m.ent.len() ==> #[trigger] m.ent[i] >= 0,
        0 <= k <= m.ent.len(),
    ensures
        spec_total_count_to(m, k) >= 0,
    decreases k,
{
    if k > 0 {
        lemma_total_nonneg(m, k - 1);
    }
}

/// An empty prefix sums to zero; so does every prefix of an all-zero
/// matrix.
pub proof fn lemma_total_zero(m: MatView, k: int)
    requires
        0 <= k <= m.ent.len(),
        forall|i: int| 0 <= i < m.ent.len() ==> #[trigger] m.ent[i] == 0,
    ensures
        spec_total_count_to(m, k) == 0,
    decreases k,
{
    if k > 0 {
        lemma_total_zero(m, k - 1);
    }
}

/// The confusion matrix of a run: rows are actual classes, columns
/// predicted ones, each pair of one prediction column and its one-hot
/// target raising one count.
pub fn calculate_confusion_matrix(predictions: &Vec<Matrix>, targets: &Vec<Matrix>) -> (cm: Matrix)
    requires
        predictions@.len() >= 1,
        predictions@.len() <= i64::MAX,
        spec_pairs_ok(
            spec_views(predictions@),
            spec_views(targets@),
            predictions@[0]@.rows,
        ),
    ensures
        cm@ == spec_confusion(
            spec_views(predictions@),
            spec_views(targets@),
            predictions@[0]@.rows,
            predictions@.len() as int,
        ),
{
    let ghost pv: Seq<MatView> = spec_views(predictions@);
    let ghost tv: Seq<MatView> = spec_views(targets@);
    let ghost classes: nat = predictions@[0]@.rows;
    proof {
        assert(pv[0] == predictions@[0]@);
        assert(predictions@[0]@.wf());
    }
    let num_classes: usize = predictions[0].nrows();
    let n: usize = predictions.len();
    let mut cm: Matrix = Matrix::zeros(num_classes, num_classes);
    let mut i: usize = 0;
    proof {
        assert(cm@ =~= spec_confusion(pv, tv, classes, 0));
    }
    while i < n
        invariant
            i <= n,
            n == predictions@.len(),
            n <= i64::MAX,
            targets@.len() == n,
            pv == spec_views(predictions@),
            tv == spec_views(targets@),
            pv.len() == n,
            tv.len() == n,
            classes == num_classes,
            num_classes <= crate::matrix::MAX_DIM,
            spec_pairs_ok(pv, tv, classes),
            cm@ == spec_confusion(pv, tv, classes, i as int),
        decreases n - i,
    {
        proof {
            assert(pv[i as int] == predictions@[i as int]@);
            assert(tv[i as int] == targets@[i as int]@);
            assert(pv[i as int].ent.len() == classes * 1);
            assert(tv[i as int].ent.len() == classes * 1);
            lemma_first_unit_from(tv[i as int].ent, 0);
            lemma_argmax_in_range(pv[i as int].ent, pv[i as int].ent.len() as int);
            lemma_confusion_props(pv, tv, classes, i as int);
        }
        let predicted_class: usize = determine_predicted_class(&predictions[i]);
        let actual_class: usize = determine_actual_class(&targets[i]);
        let e: i64 = cm.get(actual_class, predicted_class);
        cm.set(actual_class, predicted_class, fx_add(e, 1));
        i += 1;
    }
    cm
}

/// One per-class view for every class of a confusion matrix.
pub fn get_class_confusion_matrices(confusion_matrix: &Matrix) -> (r: Vec<ClassConfusionMatrix>)
    requires
        confusion_matrix@.rows == confusion_matrix@.cols,
        forall|i: int|
            0 <= i < confusion_matrix@.ent.len() ==> #[trigger] confusion_matrix@.ent[i] >= 0,
        spec_total_count(confusion_matrix@) <= i64::MAX,
        spec_total_count(confusion_matrix@) <= usize::MAX,
    ensures
        r@.len() == confusion_matrix@.rows,
        forall|c: int|
            0 <= c < confusion_matrix@.rows ==> {
                let m = confusion_matrix@;
                let tp = m.at(c, c) as int;
                &&& (#[trigger] r@[c]).true_positives == tp
                &&& r@[c].false_positives == spec_col_count(m, c) - tp
                &&& r@[c].false_negatives == spec_row_count(m, c) - tp
                &&& r@[c].true_negatives == spec_total_count(m) - spec_col_count(m, c)
                    - spec_row_count(m, c) + tp
            },
{
    let classes: usize = confusion_matrix.nrows();
    let mut r: Vec<ClassConfusionMatrix> = Vec::new();
    let mut c: usize = 0;
    while c < classes
        invariant
            c <= classes,
            classes == confusion_matrix@.rows,
            confusion_matrix@.rows == confusion_matrix@.cols,
            forall|i: int|
                0 <= i < confusion_matrix@.ent.len() ==> #[trigger] confusion_matrix@.ent[i] >= 0,
            spec_total_count(confusion_matrix@) <= i64::MAX,
            spec_total_count(confusion_matrix@) <= usize::MAX,
            r@.len() == c,
            forall|k: int|
                0 <= k < c ==> {
                    let m = confusion_matrix@;
                    let tp = m.at(k, k) as int;
                    &&& (#[trigger] r@[k]).true_positives == tp
                    &&& r@[k].false_positives == spec_col_count(m, k) - tp
                    &&& r@[k].false_negatives == spec_row_count(m, k) - tp
                    &&& r@[k].true_negatives == spec_total_count(m) - spec_col_count(m, k)
                        - spec_row_count(m, k) + tp
                },
        decreases classes - c,
    {
        let ccm: ClassConfusionMatrix = ClassConfusionMatrix::new(confusion_matrix, c);
        r.push(ccm);
        c += 1;
    }
    r
}

/// The reported metrics.
#[derive(Clone, Copy, PartialEq, Eq, Structural, Debug)]
pub enum Metric {
    /// Correct predictions over all predictions.
    Accuracy,
    /// The mean per-class precision.
    Precision,
    /// The mean per-class recall.
    Recall,
    /// The mean per-class harmonic mean of precision and recall.
    F1,
}

/// The sum of the first `k` diagonal entries, flat: the correct
/// predictions.
pub open spec fn spec_diag_count_to(m: MatView, k: int) -> int
    decreases k,
    when k >= 0
{
    if k <= 0 {
        0
    } else {
        spec_diag_count_to(m, k - 1) + if (k - 1) / m.cols as int == (k - 1) % m.cols as int {
            m.ent[k - 1] as int
        } else {
            0
        }
    }
}

/// With non-negative entries the diagonal sum sits between zero and the
/// total.
pub proof fn lemma_diag_partials(m: MatView, k: int)
    requires
        forall|i: int| 0 <= i < m.ent.len() ==> #[trigger] m.ent[i] >= 0,
        0 <= k <= m.ent.len(),
    ensures
        0 <= spec_diag_count_to(m, k) <= spec_total_count_to(m, k),
    decreases k,
{
    if k > 0 {
        lemma_diag_partials(m, k - 1);
    }
}

/// One class's contribution to a mean metric.
pub open spec fn spec_class_score(metric: Metric, m: MatView, c: int) -> i64 {
    let tp = m.at(c, c) as int;
    match metric {
        Metric::Accuracy => 0,
        Metric::Precision => spec_ratio_fx(tp, spec_col_count(m, c) - tp) as i64,
        Metric::Recall => spec_ratio_fx(tp, spec_row_count(m, c) - tp) as i64,
        Metric::F1 => spec_f1_fx(
            spec_ratio_fx(tp, spec_col_count(m, c) - tp) as i64,
            spec_ratio_fx(tp, spec_row_count(m, c) - tp) as i64,
        ),
    }
}

/// The per-class scores of the first `k` classes, summed.
pub open spec fn spec_score_sum(metric: Metric, m: MatView, k: int) -> i64
    decreases k,
    when k >= 0
{
    if k <= 0 {
        0
    } else {
        spec_fx_add(spec_score_sum(metric, m, k - 1), spec_class_score(metric, m, k - 1))
    }
}

/// The score of one metric over a confusion matrix: accuracy is the
/// diagonal over the total; the others are the mean of the per-class
/// scores.
pub open spec fn spec_metric_score(metric: Metric, m: MatView) -> i64
    recommends
        m.rows == m.cols,
        m.rows >= 1,
{
    match metric {
        Metric::Accuracy => {
            let diag = spec_diag_count_to(m, m.ent.len() as int);
            let total = spec_total_count(m);
            spec_ratio_fx(diag, total - diag) as i64
        },
        _ => spec_fx_divn(spec_score_sum(metric, m, m.rows as int), m.rows as int),
    }
}

/// The score of one metric over a confusion matrix of non-negative counts.
pub fn metric_score(metric: Metric, confusion_matrix: &Matrix) -> (v: i64)
    requires
        confusion_matrix@.rows == confusion_matrix@.cols,
        confusion_matrix@.rows >= 1,
        forall|i: int|
            0 <= i < confusion_matrix@.ent.len() ==> #[trigger] confusion_matrix@.ent[i] >= 0,
        spec_total_count(confusion_matrix@) <= i64::MAX,
        spec_total_count(confusion_matrix@) <= usize::MAX,
    ensures
        v == spec_metric_score(metric, confusion_matrix@),
{
    let ghost m: MatView = confusion_matrix@;
    match metric {
        Metric::Accuracy => {
            let n: usize = confusion_matrix.ent_count();
            let cols: usize = confusion_matrix.ncols();
            proof {
                assert(m.ent.len() == m.rows * m.cols);
                assert(m.rows * m.cols >= 1 * 1) by (nonlinear_arith)
                    requires
                        m.rows >= 1 && m.cols >= 1,
                ;
            }
            let mut acc_total: i64 = 0;
            let mut acc_diag: i64 = 0;
            let mut i: usize = 0;
            while i < n
                invariant
                    i <= n,
                    n == m.ent.len(),
                    m == confusion_matrix@,
                    cols == m.cols,
                    cols >= 1,
                    forall|j: int| 0 <= j < m.ent.len() ==> #[trigger] m.ent[j] >= 0,
                    spec_total_count(m) <= i64::MAX,
                    spec_total_count(m) <= usize::MAX,
                    acc_total == spec_total_count_to(m, i as int),
                    acc_diag == spec_diag_count_to(m, i as int),
                decreases n - i,
            {
                proof {
                    lemma_diag_partials(m, i as int);
                    lemma_diag_partials(m, i as int + 1);
                    lemma_total_mono(m, i as int + 1, n as int);
                }
                let e: i64 = confusion_matrix.get_flat(i);
                acc_total = acc_total + e;
                if i / cols == i % cols {
                    acc_diag = acc_diag + e;
                }
                i += 1;
            }
            proof {
                lemma_diag_partials(m, n as int);
            }
            ratio_fx(acc_diag as usize, (acc_total - acc_diag) as usize)
        },
        _ => {
            let classes: usize = confusion_matrix.nrows();
            let mut acc: i64 = 0;
            let mut c: usize = 0;
            while c < classes
                invariant
                    c <= classes,
                    classes == m.rows,
                    m == confusion_matrix@,
                    m.rows == m.cols,
                    m.rows >= 1,
                    forall|j: int| 0 <= j < m.ent.len() ==> #[trigger] m.ent[j] >= 0,
                    spec_total_count(m) <= i64::MAX,
                    spec_total_count(m) <= usize::MAX,
                    !(metric is Accuracy),
                    acc == spec_score_sum(metric, m, c as int),
                decreases classes - c,
            {
                let ccm: ClassConfusionMatrix = ClassConfusionMatrix::new(confusion_matrix, c);
                let score: i64 = match metric {
                    Metric::Accuracy => 0,
                    Metric::Precision => ccm.precision(),
                    Metric::Recall => ccm.recall(),
                    Metric::F1 => ccm.f1_score(),
                };
                acc = fx_add(acc, score);
                c += 1;
            }
            fx_divn(acc, classes)
        },
    }
}

/// The fixed-point ratio `a / (a + b)`.
fn ratio_fx(a: usize, b: usize) -> (v: i64)
    ensures
        v == spec_ratio_fx(a as int, b as int),
        0 <= v <= SCALE,
{
    let denom: u128 = a as u128 + b as u128;
    if denom == 0 {
        0
    } else {
        let num: u128 = (a as u128) * (SCALE as u128);
        let q: u128 = num / denom;
        proof {
            vstd::arithmetic::mul::lemma_mul_inequality(a as int, denom as int, SCALE as int);
            vstd::arithmetic::div_mod::lemma_div_is_ordered(
                num as int,
                denom as int * SCALE as int,
                denom as int,
            );
            vstd::arithmetic::div_mod::lemma_div_multiples_vanish(SCALE as int, denom as int);
            vstd::arithmetic::div_mod::lemma_div_pos_is_pos(num as int, denom as int);
        }
        q as i64
    }
}

} // verus!
