//! Confusion-matrix evaluation of a binary classifier.
//!
//! Labels are `i64` values; a pair contributes to one of the four
//! counts only when both members are exactly `+1` or `-1`, any other
//! value is dropped from every count.  Derived metrics are exact
//! rationals; a metric whose denominator is zero is `None` rather than
//! an error, mirroring a silent division by zero.

use vstd::prelude::*;
use crate::error::SvmError;
use crate::ratio::{Ratio, q_add, q_mul, q_div, q_int, q_zero, q_one, q_lt, q_eqv};

verus! {

/// Number of indices `k < i` with `y[k] == a` and `yh[k] == b`.
pub open spec fn count_pair_to(y: Seq<int>, yh: Seq<int>, a: int, b: int, i: int) -> int
    decreases i,
{
    if i <= 0 {
        0
    } else {
        count_pair_to(y, yh, a, b, i - 1) + if y[i - 1] == a && yh[i - 1] == b {
            1int
        } else {
            0int
        }
    }
}

/// Number of positions where `y` holds `a` and `yh` holds `b`.
pub open spec fn count_pair(y: Seq<int>, yh: Seq<int>, a: int, b: int) -> int {
    count_pair_to(y, yh, a, b, y.len() as int)
}

/// Every value of the sequence is `+1` or `-1`.
pub open spec fn all_pm_one(s: Seq<int>) -> bool {
    forall|i: int| 0 <= i < s.len() ==> #[trigger] s[i] == 1 || s[i] == -1
}

proof fn lemma_counts_cover_to(y: Seq<int>, yh: Seq<int>, i: int)
    requires
        0 <= i <= y.len(),
        y.len() == yh.len(),
        all_pm_one(y),
        all_pm_one(yh),
    ensures
        count_pair_to(y, yh, 1, 1, i) + count_pair_to(y, yh, -1, -1, i) + count_pair_to(
            y,
            yh,
            -1,
            1,
            i,
        ) + count_pair_to(y, yh, 1, -1, i) == i,
    decreases i,
{
    if i > 0 {
        lemma_counts_cover_to(y, yh, i - 1);
        assert(y[i - 1] == 1 || y[i - 1] == -1);
        assert(yh[i - 1] == 1 || yh[i - 1] == -1);
    }
}

/// When both sequences hold only `+1`/`-1` values, the four buckets
/// partition the positions.
pub proof fn lemma_counts_cover(y: Seq<int>, yh: Seq<int>)
    requires
        y.len() == yh.len(),
        all_pm_one(y),
        all_pm_one(yh),
    ensures
        count_pair(y, yh, 1, 1) + count_pair(y, yh, -1, -1) + count_pair(y, yh, -1, 1)
            + count_pair(y, yh, 1, -1) == y.len(),
{
    lemma_counts_cover_to(y, yh, y.len() as int);
}

proof fn lemma_count_self_mismatch_to(y: Seq<int>, a: int, b: int, i: int)
    requires
        a != b,
        0 <= i <= y.len(),
    ensures
        count_pair_to(y, y, a, b, i) == 0,
    decreases i,
{
    if i > 0 {
        lemma_count_self_mismatch_to(y, a, b, i - 1);
    }
}

/// The two-parameter tally of a binary classification run.
#[derive(Clone, Copy, Debug, PartialEq, Eq, Structural)]
pub struct ConfusionMatrix {
    pub tp: u64,
    pub tn: u64,
    pub fp: u64,
    pub fn_: u64,
}

impl ConfusionMatrix {
    /// The counts are small enough for every derived metric's exact
    /// numerator and denominator to fit in `i64`.
    pub open spec fn wf(self) -> bool {
        self.tp + self.tn + self.fp + self.fn_ <= 0x3fffffffffffffff
    }

    /// Tally the four buckets from paired label sequences.
    ///
    /// Fails exactly when the sequences differ in length.  A pair whose
    /// members are not both in `{+1, -1}` falls in no bucket.
    pub fn new(y: &Vec<i64>, y_hat: &Vec<i64>) -> (r: Result<ConfusionMatrix, SvmError>)
        requires
            y@.len() <= 0x3fffffffffffffff,
        ensures
            r is Err <==> y@.len() != y_hat@.len(),
            r is Err ==> r == Err::<ConfusionMatrix, SvmError>(SvmError::LengthMismatch),
            r matches Ok(cm) ==> cm.wf() && cm.tp == count_pair(
                crate::ratio::int_seq(y@),
                crate::ratio::int_seq(y_hat@),
                1,
                1,
            ) && cm.tn == count_pair(crate::ratio::int_seq(y@), crate::ratio::int_seq(y_hat@), -1, -1)
                && cm.fp == count_pair(crate::ratio::int_seq(y@), crate::ratio::int_seq(y_hat@), -1, 1)
                && cm.fn_ == count_pair(crate::ratio::int_seq(y@), crate::ratio::int_seq(y_hat@), 1, -1),
    {
        let n = y.len();
        if n != y_hat.len() {
            return Err(SvmError::LengthMismatch);
        }
        let ghost ys = crate::ratio::int_seq(y@);
        let ghost yhs = crate::ratio::int_seq(y_hat@);
        let mut tp: u64 = 0;
        let mut tn: u64 = 0;
        let mut fp: u64 = 0;
        let mut fn_: u64 = 0;
        let mut i: usize = 0;
        while i < n
            invariant
                n == y@.len(),
                n == y_hat@.len(),
                n <= 0x3fffffffffffffff,
                0 <= i <= n,
                ys == crate::ratio::int_seq(y@),
                yhs == crate::ratio::int_seq(y_hat@),
                tp == count_pair_to(ys, yhs, 1, 1, i as int),
                tn == count_pair_to(ys, yhs, -1, -1, i as int),
                fp == count_pair_to(ys, yhs, -1, 1, i as int),
                fn_ == count_pair_to(ys, yhs, 1, -1, i as int),
                tp + tn + fp + fn_ <= i,
            decreases n - i,
        {
            let yi = y[i];
            let yhi = y_hat[i];
            proof {
                assert(ys[i as int] == y@[i as int] as int);
                assert(yhs[i as int] == y_hat@[i as int] as int);
            }
            if yi == 1 && yhi == 1 {
                tp = tp + 1;
            } else if yi == -1 && yhi == -1 {
                tn = tn + 1;
            } else if yi == -1 && yhi == 1 {
                fp = fp + 1;
            } else if yi == 1 && yhi == -1 {
                fn_ = fn_ + 1;
            }
            i = i + 1;
        }
        Ok(ConfusionMatrix { tp, tn, fp, fn_ })
    }

    /// A derived metric as an exact fraction; `None` when the
    /// denominator is zero.
    pub open spec fn metric(num: int, den: int) -> Option<(int, int)> {
        if den > 0 {
            Some((num, den))
        } else {
            None
        }
    }

    pub open spec fn acc_spec(self) -> Option<(int, int)> {
        Self::metric(self.tp + self.tn, self.tp + self.tn + self.fp + self.fn_)
    }

    pub open spec fn ppv_spec(self) -> Option<(int, int)> {
        Self::metric(self.tp as int, self.tp + self.fp)
    }

    pub open spec fn tpr_spec(self) -> Option<(int, int)> {
        Self::metric(self.tp as int, self.tp + self.fn_)
    }

    pub open spec fn tnr_spec(self) -> Option<(int, int)> {
        Self::metric(self.tn as int, self.tn + self.fp)
    }

    pub open spec fn npv_spec(self) -> Option<(int, int)> {
        Self::metric(self.tn as int, self.tn + self.fn_)
    }

    pub open spec fn fnr_spec(self) -> Option<(int, int)> {
        Self::metric(self.fn_ as int, self.fn_ + self.tp)
    }

    pub open spec fn fpr_spec(self) -> Option<(int, int)> {
        Self::metric(self.fp as int, self.fp + self.tn)
    }

    /// The harmonic-mean score reduced to counts; defined exactly when
    /// `tp > 0` (otherwise precision and recall are both zero or
    /// undefined and the quotient is a division by zero).
    pub open spec fn f1_spec(self) -> Option<(int, int)> {
        if self.tp > 0 {
            Some((2 * self.tp, 2 * self.tp + self.fp + self.fn_))
        } else {
            None
        }
    }

    /// Accuracy `(TP+TN) / total`.
    pub fn acc(&self) -> (r: Option<Ratio>)
        requires
            self.wf(),
        ensures
            r is Some <==> self.acc_spec() is Some,
            r matches Some(v) ==> v.wf() && v@ == self.acc_spec()->Some_0 && 0 <= v@.0 <= v@.1,
    {
        let den = self.tp + self.tn + self.fp + self.fn_;
        if den > 0 {
            Some(Ratio::new((self.tp + self.tn) as i64, den as i64))
        } else {
            None
        }
    }

    /// Precision `TP / (TP+FP)`.
    pub fn ppv(&self) -> (r: Option<Ratio>)
        requires
            self.wf(),
        ensures
            r is Some <==> self.ppv_spec() is Some,
            r matches Some(v) ==> v.wf() && v@ == self.ppv_spec()->Some_0 && 0 <= v@.0 <= v@.1,
    {
        let den = self.tp + self.fp;
        if den > 0 {
            Some(Ratio::new(self.tp as i64, den as i64))
        } else {
            None
        }
    }

    /// Recall `TP / (TP+FN)`.
    pub fn tpr(&self) -> (r: Option<Ratio>)
        requires
            self.wf(),
        ensures
            r is Some <==> self.tpr_spec() is Some,
            r matches Some(v) ==> v.wf() && v@ == self.tpr_spec()->Some_0 && 0 <= v@.0 <= v@.1,
    {
        let den = self.tp + self.fn_;
        if den > 0 {
            Some(Ratio::new(self.tp as i64, den as i64))
        } else {
            None
        }
    }

    /// Specificity `TN / (TN+FP)`.
    pub fn tnr(&self) -> (r: Option<Ratio>)
        requires
            self.wf(),
        ensures
            r is Some <==> self.tnr_spec() is Some,
            r matches Some(v) ==> v.wf() && v@ == self.tnr_spec()->Some_0 && 0 <= v@.0 <= v@.1,
    {
        let den = self.tn + self.fp;
        if den > 0 {
            Some(Ratio::new(self.tn as i64, den as i64))
        } else {
            None
        }
    }

    /// Negative predictive value `TN / (TN+FN)`.
    pub fn npv(&self) -> (r: Option<Ratio>)
        requires
            self.wf(),
        ensures
            r is Some <==> self.npv_spec() is Some,
            r matches Some(v) ==> v.wf() && v@ == self.npv_spec()->Some_0 && 0 <= v@.0 <= v@.1,
    {
        let den = self.tn + self.fn_;
        if den > 0 {
            Some(Ratio::new(self.tn as i64, den as i64))
        } else {
            None
        }
    }

    /// False-negative rate `FN / (FN+TP)`.
    pub fn fnr(&self) -> (r: Option<Ratio>)
        requires
            self.wf(),
        ensures
            r is Some <==> self.fnr_spec() is Some,
            r matches Some(v) ==> v.wf() && v@ == self.fnr_spec()->Some_0 && 0 <= v@.0 <= v@.1,
    {
        let den = self.fn_ + self.tp;
        if den > 0 {
            Some(Ratio::new(self.fn_ as i64, den as i64))
        } else {
            None
        }
    }

    /// False-positive rate `FP / (FP+TN)`.
    pub fn fpr(&self) -> (r: Option<Ratio>)
        requires
            self.wf(),
        ensures
            r is Some <==> self.fpr_spec() is Some,
            r matches Some(v) ==> v.wf() && v@ == self.fpr_spec()->Some_0 && 0 <= v@.0 <= v@.1,
    {
        let den = self.fp + self.tn;
        if den > 0 {
            Some(Ratio::new(self.fp as i64, den as i64))
        } else {
            None
        }
    }

    /// F1 score `2·ppv·tpr / (ppv+tpr)`, reduced to counts.
    pub fn f1_score(&self) -> (r: Option<Ratio>)
        requires
            self.wf(),
        ensures
            r is Some <==> self.f1_spec() is Some,
            r matches Some(v) ==> v.wf() && v@ == self.f1_spec()->Some_0 && 0 <= v@.0 <= v@.1,
    {
        if self.tp > 0 {
            Some(Ratio::new((2 * self.tp) as i64, (2 * self.tp + self.fp + self.fn_) as i64))
        } else {
            None
        }
    }

    /// The counts as a 2-by-2 table `[[TP, FP], [FN, TN]]`.
    pub fn to_matrix(&self) -> (r: Vec<Vec<u64>>)
        ensures
            r@.len() == 2,
            r@[0]@ == seq![self.tp, self.fp],
            r@[1]@ == seq![self.fn_, self.tn],
    {
        let mut row0: Vec<u64> = Vec::new();
        row0.push(self.tp);
        row0.push(self.fp);
        let mut row1: Vec<u64> = Vec::new();
        row1.push(self.fn_);
        row1.push(self.tn);
        let mut m: Vec<Vec<u64>> = Vec::new();
        m.push(row0);
        m.push(row1);
        proof {
            assert(m@[0]@ =~= seq![self.tp, self.fp]);
            assert(m@[1]@ =~= seq![self.fn_, self.tn]);
        }
        m
    }
}

/// The four counts of a matrix built from `+1`/`-1` sequences sum to
/// the paired-sequence length.
pub proof fn lemma_total_count(cm: ConfusionMatrix, y: Seq<int>, yh: Seq<int>)
    requires
        y.len() == yh.len(),
        all_pm_one(y),
        all_pm_one(yh),
        cm.tp == count_pair(y, yh, 1, 1),
        cm.tn == count_pair(y, yh, -1, -1),
        cm.fp == count_pair(y, yh, -1, 1),
        cm.fn_ == count_pair(y, yh, 1, -1),
    ensures
        cm.tp + cm.tn + cm.fp + cm.fn_ == y.len(),
{
    lemma_counts_cover(y, yh);
}

/// When the predictions equal the labels exactly and the non-empty
/// label sequence holds only `+1`/`-1` values, accuracy is exactly one.
pub proof fn lemma_accuracy_perfect(cm: ConfusionMatrix, y: Seq<int>)
    requires
        y.len() > 0,
        all_pm_one(y),
        cm.tp == count_pair(y, y, 1, 1),
        cm.tn == count_pair(y, y, -1, -1),
        cm.fp == count_pair(y, y, -1, 1),
        cm.fn_ == count_pair(y, y, 1, -1),
    ensures
        cm.acc_spec() is Some,
        q_eqv(cm.acc_spec()->Some_0, q_one()),
{
    lemma_counts_cover(y, y);
    lemma_count_self_mismatch_to(y, -1, 1, y.len() as int);
    lemma_count_self_mismatch_to(y, 1, -1, y.len() as int);
    assert(cm.tp + cm.tn == y.len());
}

/// The reduced F1 value equals `2·ppv·tpr / (ppv+tpr)` whenever that
/// quotient is not degenerate (`ppv + tpr > 0`).
pub proof fn lemma_f1_formula(cm: ConfusionMatrix)
    requires
        cm.ppv_spec() is Some,
        cm.tpr_spec() is Some,
        q_lt(q_zero(), q_add(cm.ppv_spec()->Some_0, cm.tpr_spec()->Some_0)),
    ensures
        cm.f1_spec() is Some,
        q_eqv(
            cm.f1_spec()->Some_0,
            q_div(
                q_mul(q_mul(q_int(2), cm.ppv_spec()->Some_0), cm.tpr_spec()->Some_0),
                q_add(cm.ppv_spec()->Some_0, cm.tpr_spec()->Some_0),
            ),
        ),
{
    let t = cm.tp as int;
    let p = cm.tp + cm.fp;
    let r = cm.tp + cm.fn_;
    assert(t > 0) by (nonlinear_arith)
        requires
            0 * (p * r) < (t * r + t * p) * 1,
            p > 0,
            r > 0,
            t >= 0,
    ;
    assert((2 * t) * ((p * r) * (t * r + t * p)) == ((2 * t) * t * (p * r)) * (2 * t + (p - t) + (r
        - t))) by (nonlinear_arith);
}

} // verus!
