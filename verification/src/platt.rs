//! Platt-scaling support: smoothed calibration targets and the ROC
//! threshold sweep.
//!
//! The nonlinear least-squares fit of the two logistic parameters and
//! the sigmoid transform itself need transcendental arithmetic and are
//! outside this library; everything the calibration computes before
//! and after that fit — the Bayesian-smoothed per-example targets and
//! the ROC points obtained by thresholding calibrated probabilities —
//! is exact rational work and is verified here.

use vstd::prelude::*;
use crate::error::SvmError;
use crate::confusion::{ConfusionMatrix, count_pair, all_pm_one};
use crate::ratio::{Ratio, int_seq, vq, vq_wf, q_wf, q_zero, q_one, q_le, q_lt, q_eqv};

verus! {

/// Number of indices `k < i` with `s[k] == v`.
pub open spec fn count_val_to(s: Seq<int>, v: int, i: int) -> int
    decreases i,
{
    if i <= 0 {
        0
    } else {
        count_val_to(s, v, i - 1) + if s[i - 1] == v {
            1int
        } else {
            0int
        }
    }
}

/// Number of positions of `s` that hold `v`.
pub open spec fn count_val(s: Seq<int>, v: int) -> int {
    count_val_to(s, v, s.len() as int)
}

/// The smoothed target for a positive example: `(N_pos+1) / (N_pos+2)`.
pub open spec fn platt_target_pos(np: int) -> (int, int) {
    (np + 1, np + 2)
}

/// The smoothed target for every other example: `1 / (N_neg+2)`.
pub open spec fn platt_target_neg(nn: int) -> (int, int) {
    (1, nn + 2)
}

/// The target assigned to a label: the positive target for a label
/// equal to `+1`, the negative one for every other value.
pub open spec fn platt_target_of(v: int, np: int, nn: int) -> (int, int) {
    if v == 1 {
        platt_target_pos(np)
    } else {
        platt_target_neg(nn)
    }
}

/// The Bayesian-smoothed regression targets of a Platt-scaling run,
/// one per example: `(N_pos+1)/(N_pos+2)` for a `+1` label and
/// `1/(N_neg+2)` otherwise, where `N_pos` and `N_neg` count the `+1`
/// and `-1` labels of the whole sequence.
pub fn platt_targets(y: &Vec<i64>) -> (r: Vec<Ratio>)
    requires
        y@.len() <= 0x3fffffffffffffff,
    ensures
        r@.len() == y@.len(),
        vq_wf(r@),
        forall|i: int|
            0 <= i < y@.len() ==> (#[trigger] r@[i])@ == platt_target_of(
                y@[i] as int,
                count_val(int_seq(y@), 1),
                count_val(int_seq(y@), -1),
            ),
{
    let n = y.len();
    let ghost ys = int_seq(y@);
    let mut np: u64 = 0;
    let mut nn: u64 = 0;
    let mut i: usize = 0;
    while i < n
        invariant
            0 <= i <= n,
            n == y@.len(),
            ys == int_seq(y@),
            np == count_val_to(ys, 1, i as int),
            nn == count_val_to(ys, -1, i as int),
            np <= i,
            nn <= i,
        decreases n - i,
    {
        if y[i] == 1 {
            np = np + 1;
        } else if y[i] == -1 {
            nn = nn + 1;
        }
        i = i + 1;
    }
    let tp = Ratio::new((np + 1) as i64, (np + 2) as i64);
    let tn = Ratio::new(1, (nn + 2) as i64);
    let mut r: Vec<Ratio> = Vec::new();
    let mut i: usize = 0;
    while i < n
        invariant
            0 <= i <= n,
            n == y@.len(),
            ys == int_seq(y@),
            r@.len() == i,
            tp.wf(),
            tn.wf(),
            tp@ == platt_target_pos(count_val(ys, 1)),
            tn@ == platt_target_neg(count_val(ys, -1)),
            forall|k: int|
                0 <= k < i ==> (#[trigger] r@[k])@ == platt_target_of(
                    y@[k] as int,
                    count_val(ys, 1),
                    count_val(ys, -1),
                ) && r@[k].wf(),
        decreases n - i,
    {
        if y[i] == 1 {
            r.push(tp);
        } else {
            r.push(tn);
        }
        i = i + 1;
    }
    r
}

/// The prediction a probability gets under a threshold: `+1` when the
/// probability is strictly greater, `-1` otherwise.
pub open spec fn threshold_pred(p: (int, int), t: (int, int)) -> int {
    if q_lt(t, p) {
        1
    } else {
        -1
    }
}

pub open spec fn threshold_preds(ps: Seq<(int, int)>, t: (int, int)) -> Seq<int> {
    ps.map_values(|p: (int, int)| threshold_pred(p, t))
}

/// The false-positive rate of the matrix tallied from labels and
/// predictions: `FP / (FP+TN)`.
pub open spec fn roc_fpr(ys: Seq<int>, preds: Seq<int>) -> Option<(int, int)> {
    ConfusionMatrix::metric(
        count_pair(ys, preds, -1, 1),
        count_pair(ys, preds, -1, 1) + count_pair(ys, preds, -1, -1),
    )
}

/// The true-positive rate of the matrix tallied from labels and
/// predictions: `TP / (TP+FN)`.
pub open spec fn roc_tpr(ys: Seq<int>, preds: Seq<int>) -> Option<(int, int)> {
    ConfusionMatrix::metric(
        count_pair(ys, preds, 1, 1),
        count_pair(ys, preds, 1, 1) + count_pair(ys, preds, 1, -1),
    )
}

/// One point of the ROC sweep; a rate is `None` when its denominator
/// is zero (a silent division by zero rather than an error).
#[derive(Clone, Copy, Debug, PartialEq, Eq)]
pub struct RocPoint {
    pub fpr: Option<Ratio>,
    pub tpr: Option<Ratio>,
}

/// An `Option<Ratio>` as an optional pair.
pub open spec fn opt_q(o: Option<Ratio>) -> Option<(int, int)> {
    match o {
        Option::None => Option::None,
        Option::Some(r) => Option::Some(r@),
    }
}

/// The ROC sweep: `m` thresholds equally spaced over `[0, 1]` (with
/// `m` the number of examples, `t_k = k/(m-1)`); for each, classify
/// `probability > threshold` as `+1` else `-1`, tally a confusion
/// matrix against the true labels, and record its `(fpr, tpr)`.
///
/// Fails exactly when the two sequences differ in length.
pub fn roc_points(y: &Vec<i64>, probs: &Vec<Ratio>) -> (r: Result<Vec<RocPoint>, SvmError>)
    requires
        2 <= y@.len() <= 0x3fffffffffffffff,
        vq_wf(probs@),
    ensures
        r is Err <==> y@.len() != probs@.len(),
        r is Err ==> r == Err::<Vec<RocPoint>, SvmError>(SvmError::LengthMismatch),
        r matches Ok(v) ==> ({
            &&& v@.len() == y@.len()
            &&& forall|k: int|
                0 <= k < v@.len() ==> ({
                    let preds = threshold_preds(vq(probs@), (k, y@.len() - 1));
                    &&& opt_q((#[trigger] v@[k]).fpr) == roc_fpr(int_seq(y@), preds)
                    &&& opt_q(v@[k].tpr) == roc_tpr(int_seq(y@), preds)
                    &&& (v@[k].fpr matches Some(f) ==> f.wf() && 0 <= f@.0 <= f@.1)
                    &&& (v@[k].tpr matches Some(t) ==> t.wf() && 0 <= t@.0 <= t@.1)
                })
        }),
    {
    let m = y.len();
    if m != probs.len() {
        return Err(SvmError::LengthMismatch);
    }
    let ghost ys = int_seq(y@);
    let ghost pq = vq(probs@);
    let mut out: Vec<RocPoint> = Vec::new();
    let mut k: usize = 0;
    while k < m
        invariant
            0 <= k <= m,
            2 <= m <= 0x3fffffffffffffff,
            m == y@.len(),
            m == probs@.len(),
            ys == int_seq(y@),
            pq == vq(probs@),
            vq_wf(probs@),
            out@.len() == k,
            forall|j: int|
                0 <= j < k ==> ({
                    let preds = threshold_preds(pq, (j, m - 1));
                    &&& opt_q((#[trigger] out@[j]).fpr) == roc_fpr(ys, preds)
                    &&& opt_q(out@[j].tpr) == roc_tpr(ys, preds)
                    &&& (out@[j].fpr matches Some(f) ==> f.wf() && 0 <= f@.0 <= f@.1)
                    &&& (out@[j].tpr matches Some(t) ==> t.wf() && 0 <= t@.0 <= t@.1)
                }),
        decreases m - k,
    {
        let t = Ratio::new(k as i64, (m - 1) as i64);
        let ghost tv = t@;
        let mut preds: Vec<i64> = Vec::new();
        let mut i: usize = 0;
        while i < m
            invariant
                0 <= i <= m,
                m == probs@.len(),
                pq == vq(probs@),
                vq_wf(probs@),
                t.wf(),
                t@ == tv,
                preds@.len() == i,
                forall|j: int|
                    0 <= j < i ==> #[trigger] preds@[j] as int == threshold_pred(pq[j], tv),
            decreases m - i,
        {
            proof {
                assert(pq[i as int] == probs@[i as int]@);
            }
            if t.lt(probs[i]) {
                preds.push(1);
            } else {
                preds.push(-1);
            }
            i = i + 1;
        }
        proof {
            assert(int_seq(preds@) =~= threshold_preds(pq, tv));
        }
        let cm = match ConfusionMatrix::new(y, &preds) {
            Result::Err(_) => {
                proof {
                    assert(false);
                }
                return Err(SvmError::LengthMismatch);
            },
            Result::Ok(cm) => cm,
        };
        let point = RocPoint { fpr: cm.fpr(), tpr: cm.tpr() };
        out.push(point);
        k = k + 1;
    }
    Ok(out)
}

proof fn lemma_count_pair_const(ys: Seq<int>, preds: Seq<int>, a: int, b: int, c: int, i: int)
    requires
        ys.len() == preds.len(),
        forall|j: int| 0 <= j < preds.len() ==> #[trigger] preds[j] == c,
        0 <= i <= ys.len(),
    ensures
        crate::confusion::count_pair_to(ys, preds, a, b, i) == if b == c {
            count_val_to(ys, a, i)
        } else {
            0
        },
    decreases i,
{
    if i > 0 {
        lemma_count_pair_const(ys, preds, a, b, c, i - 1);
    }
}

/// Law: the point the sweep records at a probability threshold is the
/// point implied by thresholding the raw decision values, whenever the
/// probability cut and the decision cut classify every example alike —
/// as they do under any strictly monotone calibration map that sends
/// the decision cutoff to the probability threshold.
pub proof fn lemma_roc_matches_decision_cut(
    ys: Seq<int>,
    ps: Seq<(int, int)>,
    t: (int, int),
    ds: Seq<(int, int)>,
    c: (int, int),
)
    requires
        ps.len() == ds.len(),
        forall|i: int| 0 <= i < ps.len() ==> (q_lt(t, #[trigger] ps[i]) <==> q_lt(c, ds[i])),
    ensures
        threshold_preds(ps, t) == threshold_preds(ds, c),
        roc_fpr(ys, threshold_preds(ps, t)) == roc_fpr(ys, threshold_preds(ds, c)),
        roc_tpr(ys, threshold_preds(ps, t)) == roc_tpr(ys, threshold_preds(ds, c)),
{
    assert(threshold_preds(ps, t) =~= threshold_preds(ds, c));
}

proof fn lemma_q_le_lt_trans(t1: (int, int), t2: (int, int), p: (int, int))
    requires
        q_wf(t1),
        q_wf(t2),
        q_wf(p),
        q_lt(t2, p),
        t1.0 * t2.1 <= t2.0 * t1.1,
    ensures
        q_lt(t1, p),
{
    assert(t1.0 * p.1 < p.0 * t1.1) by (nonlinear_arith)
        requires
            t1.1 > 0,
            t2.1 > 0,
            p.1 > 0,
            t1.0 * t2.1 <= t2.0 * t1.1,
            t2.0 * p.1 < p.0 * t2.1,
    ;
}

proof fn lemma_count_pair_nonneg(ys: Seq<int>, p: Seq<int>, a: int, b: int, i: int)
    ensures
        0 <= crate::confusion::count_pair_to(ys, p, a, b, i),
    decreases i,
{
    if i > 0 {
        lemma_count_pair_nonneg(ys, p, a, b, i - 1);
    }
}

proof fn lemma_count_pair_mono(ys: Seq<int>, p1: Seq<int>, p2: Seq<int>, a: int, i: int)
    requires
        p1.len() == ys.len(),
        p2.len() == ys.len(),
        forall|j: int| 0 <= j < p2.len() ==> #[trigger] p2[j] == 1 ==> p1[j] == 1,
        0 <= i <= ys.len(),
    ensures
        crate::confusion::count_pair_to(ys, p2, a, 1, i) <= crate::confusion::count_pair_to(
            ys,
            p1,
            a,
            1,
            i,
        ),
    decreases i,
{
    if i > 0 {
        lemma_count_pair_mono(ys, p1, p2, a, i - 1);
    }
}

proof fn lemma_pair_split(ys: Seq<int>, p: Seq<int>, a: int, i: int)
    requires
        p.len() == ys.len(),
        forall|j: int| 0 <= j < p.len() ==> #[trigger] p[j] == 1 || p[j] == -1,
        0 <= i <= ys.len(),
    ensures
        crate::confusion::count_pair_to(ys, p, a, 1, i) + crate::confusion::count_pair_to(
            ys,
            p,
            a,
            -1,
            i,
        ) == count_val_to(ys, a, i),
    decreases i,
{
    if i > 0 {
        lemma_pair_split(ys, p, a, i - 1);
    }
}

/// Law: the ROC sweep is monotone.  Raising the threshold can only
/// withdraw `+1` predictions, so with both classes present both rates
/// are defined everywhere and neither the false- nor the true-positive
/// rate increases.
pub proof fn lemma_roc_monotone(ys: Seq<int>, ps: Seq<(int, int)>, t1: (int, int), t2: (int, int))
    requires
        ys.len() == ps.len(),
        all_pm_one(ys),
        forall|i: int| 0 <= i < ps.len() ==> q_wf(#[trigger] ps[i]),
        q_wf(t1),
        q_wf(t2),
        q_le(t1, t2),
        count_val(ys, 1) > 0,
        count_val(ys, -1) > 0,
    ensures
        roc_tpr(ys, threshold_preds(ps, t1)) is Some,
        roc_tpr(ys, threshold_preds(ps, t2)) is Some,
        q_le(
            roc_tpr(ys, threshold_preds(ps, t2))->Some_0,
            roc_tpr(ys, threshold_preds(ps, t1))->Some_0,
        ),
        roc_fpr(ys, threshold_preds(ps, t1)) is Some,
        roc_fpr(ys, threshold_preds(ps, t2)) is Some,
        q_le(
            roc_fpr(ys, threshold_preds(ps, t2))->Some_0,
            roc_fpr(ys, threshold_preds(ps, t1))->Some_0,
        ),
{
    let p1 = threshold_preds(ps, t1);
    let p2 = threshold_preds(ps, t2);
    let n = ys.len() as int;
    assert(forall|j: int|
        0 <= j < ps.len() ==> #[trigger] p1[j] == threshold_pred(ps[j], t1) && #[trigger] p2[j]
            == threshold_pred(ps[j], t2));
    assert forall|j: int| 0 <= j < p2.len() && #[trigger] p2[j] == 1 implies p1[j] == 1 by {
        lemma_q_le_lt_trans(t1, t2, ps[j]);
    }
    assert(forall|j: int| 0 <= j < p1.len() ==> #[trigger] p1[j] == 1 || p1[j] == -1);
    assert(forall|j: int| 0 <= j < p2.len() ==> #[trigger] p2[j] == 1 || p2[j] == -1);
    lemma_pair_split(ys, p1, 1, n);
    lemma_pair_split(ys, p2, 1, n);
    lemma_pair_split(ys, p1, -1, n);
    lemma_pair_split(ys, p2, -1, n);
    lemma_count_pair_mono(ys, p1, p2, 1, n);
    lemma_count_pair_mono(ys, p1, p2, -1, n);
    lemma_count_pair_nonneg(ys, p1, 1, 1, n);
    lemma_count_pair_nonneg(ys, p2, 1, 1, n);
    lemma_count_pair_nonneg(ys, p1, -1, 1, n);
    lemma_count_pair_nonneg(ys, p2, -1, 1, n);
    let tp1 = count_pair(ys, p1, 1, 1);
    let tp2 = count_pair(ys, p2, 1, 1);
    let npos = count_val(ys, 1);
    assert(tp2 * npos <= tp1 * npos) by (nonlinear_arith)
        requires
            tp2 <= tp1,
            npos > 0,
    ;
    let fp1 = count_pair(ys, p1, -1, 1);
    let fp2 = count_pair(ys, p2, -1, 1);
    let nneg = count_val(ys, -1);
    assert(fp2 * nneg <= fp1 * nneg) by (nonlinear_arith)
        requires
            fp2 <= fp1,
            nneg > 0,
    ;
}

/// Law: at the extreme thresholds the ROC sweep reaches its corners.
/// With every probability strictly inside `(0, 1)` and both classes
/// present, threshold `0` classifies every example `+1` and gives the
/// point `(1, 1)`, and threshold `1` classifies every example `-1`
/// and gives the point `(0, 0)`.
pub proof fn lemma_roc_extremes(ys: Seq<int>, ps: Seq<(int, int)>)
    requires
        ys.len() == ps.len(),
        all_pm_one(ys),
        forall|i: int|
            0 <= i < ps.len() ==> q_wf(#[trigger] ps[i]) && q_lt(q_zero(), ps[i]) && q_lt(
                ps[i],
                q_one(),
            ),
        count_val(ys, 1) > 0,
        count_val(ys, -1) > 0,
    ensures
        roc_fpr(ys, threshold_preds(ps, q_zero())) is Some && q_eqv(
            roc_fpr(ys, threshold_preds(ps, q_zero()))->Some_0,
            q_one(),
        ),
        roc_tpr(ys, threshold_preds(ps, q_zero())) is Some && q_eqv(
            roc_tpr(ys, threshold_preds(ps, q_zero()))->Some_0,
            q_one(),
        ),
        roc_fpr(ys, threshold_preds(ps, q_one())) is Some && q_eqv(
            roc_fpr(ys, threshold_preds(ps, q_one()))->Some_0,
            q_zero(),
        ),
        roc_tpr(ys, threshold_preds(ps, q_one())) is Some && q_eqv(
            roc_tpr(ys, threshold_preds(ps, q_one()))->Some_0,
            q_zero(),
        ),
{
    let lo = threshold_preds(ps, q_zero());
    let hi = threshold_preds(ps, q_one());
    assert(forall|j: int| 0 <= j < lo.len() ==> #[trigger] lo[j] == 1) by {
        assert(forall|j: int|
            0 <= j < ps.len() ==> q_lt(q_zero(), #[trigger] ps[j]) && threshold_preds(
                ps,
                q_zero(),
            )[j] == threshold_pred(ps[j], q_zero()));
    }
    assert(forall|j: int| 0 <= j < hi.len() ==> #[trigger] hi[j] == -1) by {
        assert(forall|j: int|
            0 <= j < ps.len() ==> !q_lt(q_one(), #[trigger] ps[j]) && threshold_preds(
                ps,
                q_one(),
            )[j] == threshold_pred(ps[j], q_one()));
    }
    let n = ys.len() as int;
    lemma_count_pair_const(ys, lo, -1, 1, 1, n);
    lemma_count_pair_const(ys, lo, -1, -1, 1, n);
    lemma_count_pair_const(ys, lo, 1, 1, 1, n);
    lemma_count_pair_const(ys, lo, 1, -1, 1, n);
    lemma_count_pair_const(ys, hi, -1, 1, -1, n);
    lemma_count_pair_const(ys, hi, -1, -1, -1, n);
    lemma_count_pair_const(ys, hi, 1, 1, -1, n);
    lemma_count_pair_const(ys, hi, 1, -1, -1, n);
}

} // verus!
