//! A linear support-vector machine trained by per-row sub-gradient
//! descent with hinge loss and L2 regularization.
//!
//! All scalars are exact rationals.  The training recurrence is
//! modelled at the spec level by `row_step`, `pass_from` and
//! `fit_iters`, which mirror the checked arithmetic exactly: a `None`
//! means some intermediate left the representable range, and the
//! executable trainer reports it as `SvmError::Overflow` while leaving
//! the model untouched.

use vstd::prelude::*;
use crate::error::SvmError;
use crate::ratio::{
    Ratio, q_int, q_zero, q_one, q_le, q_lt, q_add, q_mul, qc_add, qc_sub, qc_mul, qc_neg, vq,
    vq_wf, int_seq,
};

verus! {

/// The internal class mapping: a label equal to `+1` stays `+1`, every
/// other value collapses to `-1`.
pub open spec fn cls_of(v: int) -> int {
    if v == 1 {
        1
    } else {
        -1
    }
}

pub open spec fn cls_seq(s: Seq<int>) -> Seq<int> {
    s.map_values(|v: int| cls_of(v))
}

/// The views of a feature matrix held as rows of rationals.
pub open spec fn mat_q(x: Seq<Vec<Ratio>>) -> Seq<Seq<(int, int)>> {
    x.map_values(|row: Vec<Ratio>| vq(row@))
}

/// Every entry of every row is a well-formed rational.
pub open spec fn mat_wf(x: Seq<Vec<Ratio>>) -> bool {
    forall|i: int| 0 <= i < x.len() ==> vq_wf((#[trigger] x[i])@)
}

/// Every row has length `d`.
pub open spec fn mat_uniform(x: Seq<Vec<Ratio>>, d: int) -> bool {
    forall|i: int| 0 <= i < x.len() ==> (#[trigger] x[i])@.len() == d
}

/// The feature dimensionality: the first row's length.
pub open spec fn mat_dim(x: Seq<Vec<Ratio>>) -> int {
    if x.len() > 0 {
        x[0]@.len() as int
    } else {
        0
    }
}

/// The all-zero weight vector of dimension `d`.
pub open spec fn zero_w(d: int) -> Seq<(int, int)> {
    Seq::new(if d >= 0 { d } else { 0 } as nat, |j: int| (0int, 1int))
}

/// Checked dot product of `w` and `x` from index `i` on, started at
/// `acc`: each step multiplies one coordinate pair and adds it to the
/// accumulator, in that order.
pub open spec fn qc_dot_from(
    w: Seq<(int, int)>,
    x: Seq<(int, int)>,
    i: int,
    acc: (int, int),
) -> Option<(int, int)>
    decreases w.len() - i,
{
    if i < 0 || i >= w.len() {
        Some(acc)
    } else {
        match qc_mul(w[i], x[i]) {
            Option::None => Option::None,
            Option::Some(p) => match qc_add(acc, p) {
                Option::None => Option::None,
                Option::Some(s) => qc_dot_from(w, x, i + 1, s),
            },
        }
    }
}

pub open spec fn qc_dot(w: Seq<(int, int)>, x: Seq<(int, int)>) -> Option<(int, int)> {
    qc_dot_from(w, x, 0, q_zero())
}

/// The raw decision value `w·x + b`.
pub open spec fn qc_linear(w: Seq<(int, int)>, b: (int, int), x: Seq<(int, int)>) -> Option<
    (int, int),
> {
    match qc_dot(w, x) {
        Option::None => Option::None,
        Option::Some(d) => qc_add(d, b),
    }
}

/// The margin `y · (w·x + b)`.
pub open spec fn qc_margin(
    w: Seq<(int, int)>,
    b: (int, int),
    x: Seq<(int, int)>,
    y: int,
) -> Option<(int, int)> {
    match qc_linear(w, b, x) {
        Option::None => Option::None,
        Option::Some(lm) => qc_mul(lm, q_int(y)),
    }
}

/// The weight sub-gradient for one coordinate: `λ·w_j` when the margin
/// constraint holds, `λ·w_j − y·x_j` when it is violated.
pub open spec fn qc_dw(
    lambda: (int, int),
    wj: (int, int),
    xj: (int, int),
    y: int,
    constrain: bool,
) -> Option<(int, int)> {
    if constrain {
        qc_mul(lambda, wj)
    } else {
        match qc_mul(lambda, wj) {
            Option::None => Option::None,
            Option::Some(a) => match qc_mul(q_int(y), xj) {
                Option::None => Option::None,
                Option::Some(p) => qc_sub(a, p),
            },
        }
    }
}

/// The bias sub-gradient: `0` when the constraint holds, `−y` when it
/// is violated.
pub open spec fn qc_db(y: int, constrain: bool) -> Option<(int, int)> {
    if constrain {
        Some(q_zero())
    } else {
        qc_neg(q_int(y))
    }
}

/// One descent step on a scalar: `v − lr·dv`.
pub open spec fn qc_wstep(lr: (int, int), v: (int, int), dv: (int, int)) -> Option<(int, int)> {
    match qc_mul(lr, dv) {
        Option::None => Option::None,
        Option::Some(p) => qc_sub(v, p),
    }
}

/// One row of training: evaluate the margin, pick the sub-gradient,
/// and apply it immediately to every weight coordinate and to the bias.
pub open spec fn row_step(
    w: Seq<(int, int)>,
    b: (int, int),
    x: Seq<(int, int)>,
    y: int,
    lr: (int, int),
    lambda: (int, int),
) -> Option<(Seq<(int, int)>, (int, int))> {
    match qc_margin(w, b, x, y) {
        Option::None => Option::None,
        Option::Some(m) => {
            let c = q_le(q_one(), m);
            if (forall|j: int|
                0 <= j < w.len() ==> (#[trigger] qc_dw(lambda, w[j], x[j], y, c)) is Some)
                && qc_db(y, c) is Some && (forall|j: int|
                0 <= j < w.len() ==> (#[trigger] qc_wstep(
                    lr,
                    w[j],
                    qc_dw(lambda, w[j], x[j], y, c)->Some_0,
                )) is Some) && qc_wstep(lr, b, qc_db(y, c)->Some_0) is Some {
                Some(
                    (
                        Seq::new(
                            w.len(),
                            |j: int|
                                qc_wstep(
                                    lr,
                                    w[j],
                                    qc_dw(lambda, w[j], x[j], y, c)->Some_0,
                                )->Some_0,
                        ),
                        qc_wstep(lr, b, qc_db(y, c)->Some_0)->Some_0,
                    ),
                )
            } else {
                Option::None
            }
        },
    }
}

/// One full pass over the rows from index `i` on, updating the state
/// row by row in row order.
pub open spec fn pass_from(
    w: Seq<(int, int)>,
    b: (int, int),
    xs: Seq<Seq<(int, int)>>,
    ys: Seq<int>,
    lr: (int, int),
    lambda: (int, int),
    i: int,
) -> Option<(Seq<(int, int)>, (int, int))>
    decreases xs.len() - i,
{
    if i < 0 || i >= xs.len() {
        Some((w, b))
    } else {
        match row_step(w, b, xs[i], ys[i], lr, lambda) {
            Option::None => Option::None,
            Option::Some(s) => pass_from(s.0, s.1, xs, ys, lr, lambda, i + 1),
        }
    }
}

/// `k` full passes over the rows.
pub open spec fn fit_iters(
    w: Seq<(int, int)>,
    b: (int, int),
    xs: Seq<Seq<(int, int)>>,
    ys: Seq<int>,
    lr: (int, int),
    lambda: (int, int),
    k: int,
) -> Option<(Seq<(int, int)>, (int, int))>
    decreases k,
{
    if k <= 0 {
        Some((w, b))
    } else {
        match pass_from(w, b, xs, ys, lr, lambda, 0) {
            Option::None => Option::None,
            Option::Some(s) => fit_iters(s.0, s.1, xs, ys, lr, lambda, k - 1),
        }
    }
}

/// The sign rule for predictions: `+1` on a strictly positive decision
/// value, `-1` otherwise.
pub open spec fn sign_of(d: (int, int)) -> int {
    if q_lt(q_zero(), d) {
        1
    } else {
        -1
    }
}

/// A linear two-class classifier trained by stochastic sub-gradient
/// descent on the hinge loss.
#[derive(Clone, Debug)]
pub struct SVM {
    /// Learning rate.
    pub lr: Ratio,
    /// L2 regularization strength.
    pub lambda: Ratio,
    /// Number of full passes a fit makes over the rows.
    pub n_iters: usize,
    /// Weight vector; a placeholder until the first fit or baseline.
    pub w: Vec<Ratio>,
    /// Bias.
    pub b: Ratio,
    /// The `+1`/`-1` class mapping derived from the labels of the last
    /// fit; a placeholder before that.
    pub cls_map: Vec<i64>,
}

/// The all-zero weight vector of dimension `d` as a value.
fn zero_vec(d: usize) -> (r: Vec<Ratio>)
    ensures
        r@.len() == d,
        vq(r@) == zero_w(d as int),
        vq_wf(r@),
{
    let mut r: Vec<Ratio> = Vec::new();
    let mut j: usize = 0;
    while j < d
        invariant
            0 <= j <= d,
            r@.len() == j,
            forall|k: int| 0 <= k < j ==> (#[trigger] r@[k])@ == (0int, 1int) && r@[k].wf(),
        decreases d - j,
    {
        r.push(Ratio::zero());
        j = j + 1;
    }
    proof {
        assert(vq(r@) =~= zero_w(d as int));
    }
    r
}

/// The class mapping of a label vector as a value.
fn cls_vec(y: &Vec<i64>) -> (r: Vec<i64>)
    ensures
        r@.len() == y@.len(),
        int_seq(r@) == cls_seq(int_seq(y@)),
        forall|i: int| 0 <= i < r@.len() ==> #[trigger] r@[i] == 1 || r@[i] == -1,
{
    let n = y.len();
    let mut r: Vec<i64> = Vec::new();
    let mut i: usize = 0;
    while i < n
        invariant
            0 <= i <= n,
            n == y@.len(),
            r@.len() == i,
            forall|k: int| 0 <= k < i ==> #[trigger] r@[k] == cls_of(y@[k] as int),
        decreases n - i,
    {
        if y[i] == 1 {
            r.push(1);
        } else {
            r.push(-1);
        }
        i = i + 1;
    }
    proof {
        assert(int_seq(r@) =~= cls_seq(int_seq(y@)));
        assert(forall|i: int|
            0 <= i < r@.len() ==> #[trigger] r@[i] == 1 || r@[i] == -1) by {
            assert(forall|k: int| 0 <= k < r@.len() ==> #[trigger] r@[k] == cls_of(y@[k] as int));
        }
    }
    r
}

/// Checked dot product of two equally long rational vectors.
fn dot(w: &Vec<Ratio>, x: &Vec<Ratio>) -> (r: Option<Ratio>)
    requires
        vq_wf(w@),
        vq_wf(x@),
        w@.len() == x@.len(),
    ensures
        r is Some <==> qc_dot(vq(w@), vq(x@)) is Some,
        r matches Some(v) ==> v.wf() && v@ == qc_dot(vq(w@), vq(x@))->Some_0,
{
    let n = w.len();
    let mut acc = Ratio::zero();
    let mut j: usize = 0;
    while j < n
        invariant
            0 <= j <= n,
            n == w@.len(),
            n == x@.len(),
            vq_wf(w@),
            vq_wf(x@),
            acc.wf(),
            qc_dot(vq(w@), vq(x@)) == qc_dot_from(vq(w@), vq(x@), j as int, acc@),
        decreases n - j,
    {
        proof {
            assert(vq(w@)[j as int] == w@[j as int]@);
            assert(vq(x@)[j as int] == x@[j as int]@);
        }
        match w[j].mul(x[j]) {
            Option::None => {
                return Option::None;
            },
            Option::Some(p) => {
                match acc.add(p) {
                    Option::None => {
                        return Option::None;
                    },
                    Option::Some(s) => {
                        acc = s;
                    },
                }
            },
        }
        j = j + 1;
    }
    Some(acc)
}

impl SVM {
    /// Every rational field is well-formed.
    pub open spec fn wf(self) -> bool {
        &&& self.lr.wf()
        &&& self.lambda.wf()
        &&& self.b.wf()
        &&& vq_wf(self.w@)
    }

    /// What a fit starting from this model computes: zero weights of
    /// the feature dimensionality, the current bias, and `n_iters`
    /// passes of sub-gradient descent under the collapsed labels.
    pub open spec fn fit_model_spec(self, x: Seq<Vec<Ratio>>, y: Seq<i64>) -> Option<
        (Seq<(int, int)>, (int, int)),
    > {
        fit_iters(
            zero_w(mat_dim(x)),
            self.b@,
            mat_q(x),
            cls_seq(int_seq(y)),
            self.lr@,
            self.lambda@,
            self.n_iters as int,
        )
    }

    /// Construct a model with a placeholder weight, zero bias and a
    /// placeholder class mapping.
    ///
    /// Hyperparameters are taken as given: a non-positive learning
    /// rate or a negative regularization strength is not rejected and
    /// silently yields a degenerate model.
    pub fn new(lr: Ratio, lambda: Ratio, n_iters: usize) -> (r: SVM)
        requires
            lr.wf(),
            lambda.wf(),
        ensures
            r.wf(),
            r.lr == lr,
            r.lambda == lambda,
            r.n_iters == n_iters,
            vq(r.w@) == zero_w(1),
            r.b@ == q_zero(),
            r.cls_map@ == seq![0i64],
    {
        let mut cls: Vec<i64> = Vec::new();
        cls.push(0);
        let r = SVM { lr, lambda, n_iters, w: zero_vec(1), b: Ratio::zero(), cls_map: cls };
        proof {
            assert(r.cls_map@ =~= seq![0i64]);
        }
        r
    }

    /// Resize the weight vector to the feature dimensionality, zeroed.
    pub fn init_weight(&mut self, x: &Vec<Vec<Ratio>>)
        ensures
            final(self).w@.len() == mat_dim(x@),
            vq(final(self).w@) == zero_w(mat_dim(x@)),
            vq_wf(final(self).w@),
            final(self).lr == old(self).lr,
            final(self).lambda == old(self).lambda,
            final(self).n_iters == old(self).n_iters,
            final(self).b == old(self).b,
            final(self).cls_map == old(self).cls_map,
    {
        let d = if x.len() > 0 {
            x[0].len()
        } else {
            0
        };
        self.w = zero_vec(d);
    }

    /// Re-derive the internal class mapping from the labels.
    pub fn get_cls_map(&mut self, y: &Vec<i64>)
        ensures
            final(self).cls_map@.len() == y@.len(),
            int_seq(final(self).cls_map@) == cls_seq(int_seq(y@)),
            forall|i: int|
                0 <= i < final(self).cls_map@.len() ==> #[trigger] final(self).cls_map@[i] == 1
                    || final(self).cls_map@[i] == -1,
            final(self).lr == old(self).lr,
            final(self).lambda == old(self).lambda,
            final(self).n_iters == old(self).n_iters,
            final(self).w == old(self).w,
            final(self).b == old(self).b,
    {
        self.cls_map = cls_vec(y);
    }

    /// Whether row `idx` satisfies the margin constraint
    /// `y·(w·x + b) >= 1` under the current weights.
    pub fn satisfy_constraint(&self, x: &Vec<Ratio>, idx: usize) -> (r: Result<bool, SvmError>)
        requires
            self.wf(),
            vq_wf(x@),
            x@.len() == self.w@.len(),
            idx < self.cls_map@.len(),
        ensures
            r is Ok <==> qc_margin(
                vq(self.w@),
                self.b@,
                vq(x@),
                self.cls_map@[idx as int] as int,
            ) is Some,
            r matches Ok(c) ==> c == q_le(
                q_one(),
                qc_margin(vq(self.w@), self.b@, vq(x@), self.cls_map@[idx as int] as int)->Some_0,
            ),
            r is Err ==> r == Err::<bool, SvmError>(SvmError::Overflow),
    {
        let d = match dot(&self.w, x) {
            Option::None => {
                return Err(SvmError::Overflow);
            },
            Option::Some(d) => d,
        };
        let lm = match d.add(self.b) {
            Option::None => {
                return Err(SvmError::Overflow);
            },
            Option::Some(lm) => lm,
        };
        let y = Ratio::from_int(self.cls_map[idx]);
        let m = match lm.mul(y) {
            Option::None => {
                return Err(SvmError::Overflow);
            },
            Option::Some(m) => m,
        };
        Ok(Ratio::one().le(m))
    }

    /// The sub-gradients `(dw, db)` for row `idx`, given whether the
    /// margin constraint held.
    pub fn get_gradients(&self, constrain: bool, x: &Vec<Ratio>, idx: usize) -> (r: Result<
        (Vec<Ratio>, Ratio),
        SvmError,
    >)
        requires
            self.wf(),
            vq_wf(x@),
            x@.len() == self.w@.len(),
            idx < self.cls_map@.len(),
        ensures
            r is Ok <==> ((forall|j: int|
                0 <= j < self.w@.len() ==> (#[trigger] qc_dw(
                    self.lambda@,
                    vq(self.w@)[j],
                    vq(x@)[j],
                    self.cls_map@[idx as int] as int,
                    constrain,
                )) is Some) && qc_db(self.cls_map@[idx as int] as int, constrain) is Some),
            r matches Ok(g) ==> ({
                &&& g.0@.len() == self.w@.len()
                &&& vq_wf(g.0@)
                &&& forall|j: int|
                    0 <= j < self.w@.len() ==> (#[trigger] g.0@[j])@ == qc_dw(
                        self.lambda@,
                        vq(self.w@)[j],
                        vq(x@)[j],
                        self.cls_map@[idx as int] as int,
                        constrain,
                    )->Some_0
                &&& g.1.wf()
                &&& g.1@ == qc_db(self.cls_map@[idx as int] as int, constrain)->Some_0
            }),
            r is Err ==> r == Err::<(Vec<Ratio>, Ratio), SvmError>(SvmError::Overflow),
    {
        let ghost yv = self.cls_map@[idx as int] as int;
        let n = self.w.len();
        let y = Ratio::from_int(self.cls_map[idx]);
        let mut dw: Vec<Ratio> = Vec::new();
        let mut j: usize = 0;
        while j < n
            invariant
                0 <= j <= n,
                n == self.w@.len(),
                n == x@.len(),
                self.wf(),
                vq_wf(x@),
                idx < self.cls_map@.len(),
                yv == self.cls_map@[idx as int] as int,
                y.wf(),
                y@ == q_int(yv),
                dw@.len() == j,
                forall|k: int|
                    0 <= k < j ==> (#[trigger] qc_dw(
                        self.lambda@,
                        vq(self.w@)[k],
                        vq(x@)[k],
                        yv,
                        constrain,
                    )) is Some,
                forall|k: int|
                    0 <= k < j ==> (#[trigger] dw@[k])@ == qc_dw(
                        self.lambda@,
                        vq(self.w@)[k],
                        vq(x@)[k],
                        yv,
                        constrain,
                    )->Some_0 && dw@[k].wf(),
            decreases n - j,
        {
            proof {
                assert(vq(self.w@)[j as int] == self.w@[j as int]@);
                assert(vq(x@)[j as int] == x@[j as int]@);
            }
            let a = match self.lambda.mul(self.w[j]) {
                Option::None => {
                    proof {
                        assert(qc_dw(
                            self.lambda@,
                            vq(self.w@)[j as int],
                            vq(x@)[j as int],
                            yv,
                            constrain,
                        ) is None);
                    }
                    return Err(SvmError::Overflow);
                },
                Option::Some(a) => a,
            };
            if constrain {
                dw.push(a);
            } else {
                let p = match y.mul(x[j]) {
                    Option::None => {
                        proof {
                            assert(qc_dw(
                                self.lambda@,
                                vq(self.w@)[j as int],
                                vq(x@)[j as int],
                                yv,
                                constrain,
                            ) is None);
                        }
                        return Err(SvmError::Overflow);
                    },
                    Option::Some(p) => p,
                };
                let g = match a.sub(p) {
                    Option::None => {
                        proof {
                            assert(qc_dw(
                                self.lambda@,
                                vq(self.w@)[j as int],
                                vq(x@)[j as int],
                                yv,
                                constrain,
                            ) is None);
                        }
                        return Err(SvmError::Overflow);
                    },
                    Option::Some(g) => g,
                };
                dw.push(g);
            }
            j = j + 1;
        }
        let db = if constrain {
            Ratio::zero()
        } else {
            match y.neg() {
                Option::None => {
                    return Err(SvmError::Overflow);
                },
                Option::Some(nb) => nb,
            }
        };
        Ok((dw, db))
    }

    /// Apply one descent step: `w ← w − lr·dw`, `b ← b − lr·db`.
    /// On overflow the model is left unchanged.
    pub fn update_weight_bias(&mut self, dw: Vec<Ratio>, db: Ratio) -> (r: Result<(), SvmError>)
        requires
            old(self).wf(),
            vq_wf(dw@),
            db.wf(),
            dw@.len() == old(self).w@.len(),
        ensures
            r is Ok <==> ((forall|j: int|
                0 <= j < old(self).w@.len() ==> (#[trigger] qc_wstep(
                    old(self).lr@,
                    vq(old(self).w@)[j],
                    vq(dw@)[j],
                )) is Some) && qc_wstep(old(self).lr@, old(self).b@, db@) is Some),
            r is Ok ==> ({
                &&& final(self).w@.len() == old(self).w@.len()
                &&& forall|j: int|
                    0 <= j < old(self).w@.len() ==> (#[trigger] final(self).w@[j])@ == qc_wstep(
                        old(self).lr@,
                        vq(old(self).w@)[j],
                        vq(dw@)[j],
                    )->Some_0
                &&& final(self).b@ == qc_wstep(old(self).lr@, old(self).b@, db@)->Some_0
                &&& final(self).wf()
                &&& final(self).lr == old(self).lr
                &&& final(self).lambda == old(self).lambda
                &&& final(self).n_iters == old(self).n_iters
                &&& final(self).cls_map == old(self).cls_map
            }),
            r is Err ==> *final(self) == *old(self) && r == Err::<(), SvmError>(SvmError::Overflow),
    {
        let n = self.w.len();
        let mut nw: Vec<Ratio> = Vec::new();
        let mut j: usize = 0;
        while j < n
            invariant
                0 <= j <= n,
                n == self.w@.len(),
                n == dw@.len(),
                self.wf(),
                vq_wf(dw@),
                nw@.len() == j,
                forall|k: int|
                    0 <= k < j ==> (#[trigger] qc_wstep(
                        self.lr@,
                        vq(self.w@)[k],
                        vq(dw@)[k],
                    )) is Some,
                forall|k: int|
                    0 <= k < j ==> (#[trigger] nw@[k])@ == qc_wstep(
                        self.lr@,
                        vq(self.w@)[k],
                        vq(dw@)[k],
                    )->Some_0 && nw@[k].wf(),
            decreases n - j,
        {
            proof {
                assert(vq(self.w@)[j as int] == self.w@[j as int]@);
                assert(vq(dw@)[j as int] == dw@[j as int]@);
            }
            let p = match self.lr.mul(dw[j]) {
                Option::None => {
                    proof {
                        assert(qc_wstep(self.lr@, vq(self.w@)[j as int], vq(dw@)[j as int]) is None);
                    }
                    return Err(SvmError::Overflow);
                },
                Option::Some(p) => p,
            };
            let v = match self.w[j].sub(p) {
                Option::None => {
                    proof {
                        assert(qc_wstep(self.lr@, vq(self.w@)[j as int], vq(dw@)[j as int]) is None);
                    }
                    return Err(SvmError::Overflow);
                },
                Option::Some(v) => v,
            };
            nw.push(v);
            j = j + 1;
        }
        let pb = match self.lr.mul(db) {
            Option::None => {
                return Err(SvmError::Overflow);
            },
            Option::Some(p) => p,
        };
        let nb = match self.b.sub(pb) {
            Option::None => {
                return Err(SvmError::Overflow);
            },
            Option::Some(v) => v,
        };
        self.w = nw;
        self.b = nb;
        Ok(())
    }

    /// Train: resize the weights to the feature dimensionality
    /// (zeroed), re-derive the class mapping, then make `n_iters` full
    /// passes of immediate per-row sub-gradient updates, in row order.
    ///
    /// On any error the model is left exactly as it was.
    #[verifier::loop_isolation(false)]
    pub fn fit(&mut self, x: &Vec<Vec<Ratio>>, y: &Vec<i64>) -> (r: Result<(), SvmError>)
        requires
            old(self).wf(),
            mat_wf(x@),
        ensures
            r is Err ==> *final(self) == *old(self),
            x@.len() != y@.len() ==> r == Err::<(), SvmError>(SvmError::LengthMismatch),
            x@.len() == y@.len() && !mat_uniform(x@, mat_dim(x@)) ==> r == Err::<(), SvmError>(
                SvmError::DimensionMismatch,
            ),
            x@.len() == y@.len() && mat_uniform(x@, mat_dim(x@)) ==> ({
                &&& (r is Ok <==> old(self).fit_model_spec(x@, y@) is Some)
                &&& (r is Err ==> r == Err::<(), SvmError>(SvmError::Overflow))
                &&& (r is Ok ==> ({
                    &&& vq(final(self).w@) == old(self).fit_model_spec(x@, y@)->Some_0.0
                    &&& final(self).b@ == old(self).fit_model_spec(x@, y@)->Some_0.1
                    &&& int_seq(final(self).cls_map@) == cls_seq(int_seq(y@))
                    &&& final(self).lr == old(self).lr
                    &&& final(self).lambda == old(self).lambda
                    &&& final(self).n_iters == old(self).n_iters
                    &&& final(self).wf()
                }))
            }),
    {
        let n = x.len();
        if n != y.len() {
            return Err(SvmError::LengthMismatch);
        }
        let d = if n > 0 {
            x[0].len()
        } else {
            0
        };
        let mut i: usize = 0;
        while i < n
            invariant
                0 <= i <= n,
                forall|k: int| 0 <= k < i ==> (#[trigger] x@[k])@.len() == d,
            decreases n - i,
        {
            if x[i].len() != d {
                return Err(SvmError::DimensionMismatch);
            }
            i = i + 1;
        }
        assert(mat_uniform(x@, mat_dim(x@)));
        let cls = cls_vec(y);
        let mut m = SVM {
            lr: self.lr,
            lambda: self.lambda,
            n_iters: self.n_iters,
            w: zero_vec(d),
            b: self.b,
            cls_map: cls,
        };
        let ghost xs = mat_q(x@);
        let ghost ys = cls_seq(int_seq(y@));
        let ghost lrv = self.lr@;
        let ghost lam = self.lambda@;
        let iters = self.n_iters;
        let ghost spec0 = fit_iters(zero_w(d as int), self.b@, xs, ys, lrv, lam, iters as int);
        assert(spec0 == old(self).fit_model_spec(x@, y@));
        let mut it: usize = 0;
        while it < iters
            invariant
                0 <= it <= iters,
                m.wf(),
                m.w@.len() == d,
                m.cls_map@.len() == n,
                int_seq(m.cls_map@) == ys,
                m.lr == old(self).lr,
                m.lambda == old(self).lambda,
                m.n_iters == old(self).n_iters,
                m.lr@ == lrv,
                m.lambda@ == lam,
                spec0 == fit_iters(vq(m.w@), m.b@, xs, ys, lrv, lam, (iters - it) as int),
            decreases iters - it,
        {
            let ghost rem = iters - it - 1;
            let mut i: usize = 0;
            while i < n
                invariant
                    0 <= i <= n,
                    it < iters,
                    m.wf(),
                    m.w@.len() == d,
                    m.cls_map@.len() == n,
                    int_seq(m.cls_map@) == ys,
                    m.lr == old(self).lr,
                    m.lambda == old(self).lambda,
                    m.n_iters == old(self).n_iters,
                    m.lr@ == lrv,
                    m.lambda@ == lam,
                    spec0 == (match pass_from(vq(m.w@), m.b@, xs, ys, lrv, lam, i as int) {
                        Option::None => Option::<(Seq<(int, int)>, (int, int))>::None,
                        Option::Some(s) => fit_iters(s.0, s.1, xs, ys, lrv, lam, rem as int),
                    }),
                decreases n - i,
            {
                let ghost mw0 = vq(m.w@);
                let ghost mb0 = m.b@;
                let ghost yi = ys[i as int];
                proof {
                    assert(xs[i as int] == vq(x@[i as int]@));
                    assert(m.cls_map@[i as int] as int == yi);
                }
                let row = &x[i];
                let c = match m.satisfy_constraint(row, i) {
                    Result::Err(_) => {
                        proof {
                            assert(row_step(mw0, mb0, xs[i as int], yi, lrv, lam) is None);
                        }
                        return Err(SvmError::Overflow);
                    },
                    Result::Ok(c) => c,
                };
                let g = match m.get_gradients(c, row, i) {
                    Result::Err(_) => {
                        proof {
                            assert(row_step(mw0, mb0, xs[i as int], yi, lrv, lam) is None);
                        }
                        return Err(SvmError::Overflow);
                    },
                    Result::Ok(g) => g,
                };
                let ghost dwv = g.0@;
                let ghost dbv = g.1@;
                match m.update_weight_bias(g.0, g.1) {
                    Result::Err(_) => {
                        proof {
                            assert(forall|j: int|
                                0 <= j < mw0.len() ==> vq(dwv)[j] == (#[trigger] qc_dw(
                                    lam,
                                    mw0[j],
                                    xs[i as int][j],
                                    yi,
                                    c,
                                ))->Some_0);
                            assert(row_step(mw0, mb0, xs[i as int], yi, lrv, lam) is None);
                        }
                        return Err(SvmError::Overflow);
                    },
                    Result::Ok(_) => {},
                }
                proof {
                    assert(forall|j: int|
                        0 <= j < mw0.len() ==> vq(dwv)[j] == (#[trigger] qc_dw(
                            lam,
                            mw0[j],
                            xs[i as int][j],
                            yi,
                            c,
                        ))->Some_0);
                    assert(dbv == qc_db(yi, c)->Some_0);
                    let st = row_step(mw0, mb0, xs[i as int], yi, lrv, lam);
                    assert(st is Some);
                    assert(vq(m.w@) =~= st->Some_0.0);
                    assert(m.b@ == st->Some_0.1);
                }
                i = i + 1;
            }
            it = it + 1;
        }
        assert(spec0 == Some((vq(m.w@), m.b@)));
        *self = m;
        Ok(())
    }

    /// The raw decision value `w·x + b` for every row, unclipped.
    pub fn compute_decision_values(&self, x: &Vec<Vec<Ratio>>) -> (r: Result<Vec<Ratio>, SvmError>)
        requires
            self.wf(),
            mat_wf(x@),
        ensures
            !mat_uniform(x@, self.w@.len() as int) ==> r == Err::<Vec<Ratio>, SvmError>(
                SvmError::DimensionMismatch,
            ),
            mat_uniform(x@, self.w@.len() as int) ==> ({
                &&& (r is Ok <==> (forall|i: int|
                    0 <= i < x@.len() ==> (#[trigger] qc_linear(
                        vq(self.w@),
                        self.b@,
                        mat_q(x@)[i],
                    )) is Some))
                &&& (r matches Ok(v) ==> v@.len() == x@.len() && vq_wf(v@) && (forall|i: int|
                    0 <= i < x@.len() ==> (#[trigger] v@[i])@ == qc_linear(
                        vq(self.w@),
                        self.b@,
                        mat_q(x@)[i],
                    )->Some_0))
                &&& (r is Err ==> r == Err::<Vec<Ratio>, SvmError>(SvmError::Overflow))
            }),
    {
        let n = x.len();
        let d = self.w.len();
        let mut i: usize = 0;
        while i < n
            invariant
                0 <= i <= n,
                n == x@.len(),
                d == self.w@.len(),
                forall|k: int| 0 <= k < i ==> (#[trigger] x@[k])@.len() == d,
            decreases n - i,
        {
            if x[i].len() != d {
                return Err(SvmError::DimensionMismatch);
            }
            i = i + 1;
        }
        let mut out: Vec<Ratio> = Vec::new();
        let mut i: usize = 0;
        while i < n
            invariant
                0 <= i <= n,
                n == x@.len(),
                d == self.w@.len(),
                self.wf(),
                mat_wf(x@),
                mat_uniform(x@, d as int),
                out@.len() == i,
                forall|k: int|
                    0 <= k < i ==> (#[trigger] qc_linear(vq(self.w@), self.b@, mat_q(x@)[k])) is Some,
                forall|k: int|
                    0 <= k < i ==> (#[trigger] out@[k])@ == qc_linear(
                        vq(self.w@),
                        self.b@,
                        mat_q(x@)[k],
                    )->Some_0 && out@[k].wf(),
            decreases n - i,
        {
            proof {
                assert(mat_q(x@)[i as int] == vq(x@[i as int]@));
            }
            let dv = match dot(&self.w, &x[i]) {
                Option::None => {
                    proof {
                        assert(qc_linear(vq(self.w@), self.b@, mat_q(x@)[i as int]) is None);
                    }
                    return Err(SvmError::Overflow);
                },
                Option::Some(dv) => dv,
            };
            let lm = match dv.add(self.b) {
                Option::None => {
                    proof {
                        assert(qc_linear(vq(self.w@), self.b@, mat_q(x@)[i as int]) is None);
                    }
                    return Err(SvmError::Overflow);
                },
                Option::Some(lm) => lm,
            };
            out.push(lm);
            i = i + 1;
        }
        Ok(out)
    }

    /// Hard predictions: `+1` for a strictly positive decision value,
    /// `-1` otherwise (a decision value of exactly zero maps to `-1`).
    pub fn predict(&self, x: &Vec<Vec<Ratio>>) -> (r: Result<Vec<i64>, SvmError>)
        requires
            self.wf(),
            mat_wf(x@),
        ensures
            !mat_uniform(x@, self.w@.len() as int) ==> r == Err::<Vec<i64>, SvmError>(
                SvmError::DimensionMismatch,
            ),
            mat_uniform(x@, self.w@.len() as int) ==> ({
                &&& (r is Ok <==> (forall|i: int|
                    0 <= i < x@.len() ==> (#[trigger] qc_linear(
                        vq(self.w@),
                        self.b@,
                        mat_q(x@)[i],
                    )) is Some))
                &&& (r matches Ok(p) ==> p@.len() == x@.len() && (forall|i: int|
                    0 <= i < x@.len() ==> #[trigger] p@[i] as int == sign_of(
                        qc_linear(vq(self.w@), self.b@, mat_q(x@)[i])->Some_0,
                    )))
                &&& (r is Err ==> r == Err::<Vec<i64>, SvmError>(SvmError::Overflow))
            }),
    {
        let vals = match self.compute_decision_values(x) {
            Result::Err(e) => {
                return Err(e);
            },
            Result::Ok(v) => v,
        };
        let n = vals.len();
        let zero = Ratio::zero();
        let mut p: Vec<i64> = Vec::new();
        let mut i: usize = 0;
        while i < n
            invariant
                0 <= i <= n,
                n == vals@.len(),
                n == x@.len(),
                vq_wf(vals@),
                p@.len() == i,
                zero.wf(),
                zero@ == q_zero(),
                forall|k: int|
                    0 <= k < n ==> (#[trigger] vals@[k])@ == qc_linear(
                        vq(self.w@),
                        self.b@,
                        mat_q(x@)[k],
                    )->Some_0,
                forall|k: int|
                    0 <= k < i ==> #[trigger] p@[k] as int == sign_of(
                        qc_linear(vq(self.w@), self.b@, mat_q(x@)[k])->Some_0,
                    ),
            decreases n - i,
        {
            if zero.lt(vals[i]) {
                p.push(1);
            } else {
                p.push(-1);
            }
            i = i + 1;
        }
        Ok(p)
    }

    /// Reset the weights to all-zero (the bias is kept) and predict:
    /// the trivial reference classifier.
    pub fn baseline(&mut self, x: &Vec<Vec<Ratio>>) -> (r: Result<Vec<i64>, SvmError>)
        requires
            old(self).wf(),
            mat_wf(x@),
        ensures
            vq(final(self).w@) == zero_w(mat_dim(x@)),
            final(self).b == old(self).b,
            final(self).lr == old(self).lr,
            final(self).lambda == old(self).lambda,
            final(self).n_iters == old(self).n_iters,
            final(self).cls_map == old(self).cls_map,
            final(self).wf(),
            !mat_uniform(x@, mat_dim(x@)) ==> r == Err::<Vec<i64>, SvmError>(
                SvmError::DimensionMismatch,
            ),
            mat_uniform(x@, mat_dim(x@)) ==> ({
                &&& (r is Ok <==> (forall|i: int|
                    0 <= i < x@.len() ==> (#[trigger] qc_linear(
                        zero_w(mat_dim(x@)),
                        old(self).b@,
                        mat_q(x@)[i],
                    )) is Some))
                &&& (r matches Ok(p) ==> p@.len() == x@.len() && (forall|i: int|
                    0 <= i < x@.len() ==> #[trigger] p@[i] as int == sign_of(
                        qc_linear(zero_w(mat_dim(x@)), old(self).b@, mat_q(x@)[i])->Some_0,
                    )))
                &&& (r is Err ==> r == Err::<Vec<i64>, SvmError>(SvmError::Overflow))
            }),
    {
        self.init_weight(x);
        self.predict(x)
    }
}

/// Law: a fit that makes zero passes applies no sub-gradient step; it
/// leaves the (re-zeroed) weight vector all-zero and the bias as it
/// was.  On a freshly constructed model the bias is zero, so such a
/// model has exactly the state the zero-weight baseline predicts with.
pub proof fn lemma_fit_zero_iterations(m: SVM, x: Seq<Vec<Ratio>>, y: Seq<i64>)
    requires
        m.n_iters == 0,
    ensures
        m.fit_model_spec(x, y) == Some((zero_w(mat_dim(x)), m.b@)),
{
}

proof fn lemma_dot_zero_from(w: Seq<(int, int)>, x: Seq<(int, int)>, i: int)
    requires
        forall|j: int| 0 <= j < w.len() ==> #[trigger] w[j] == (0int, 1int),
        w.len() == x.len(),
        forall|j: int| 0 <= j < x.len() ==> (#[trigger] x[j]).1 > 0,
    ensures
        qc_dot_from(w, x, i, (0int, 1int)) == Some((0int, 1int)),
    decreases w.len() - i,
{
    if 0 <= i < w.len() {
        assert(q_mul(w[i], x[i]) == (0int, x[i].1));
        crate::ratio::lemma_norm_zero(x[i].1);
        assert(q_add((0int, 1int), (0int, 1int)) == (0int, 1int));
        crate::ratio::lemma_norm_zero(1);
        lemma_dot_zero_from(w, x, i + 1);
    }
}

/// Law: with an all-zero weight vector and a zero-valued bias every
/// decision value is defined and exactly zero, so every prediction is
/// `-1` (the strict `> 0` sign rule).
pub proof fn lemma_zero_weight_prediction(w: Seq<(int, int)>, b: (int, int), x: Seq<(int, int)>)
    requires
        w == zero_w(w.len() as int),
        b.0 == 0,
        b.1 > 0,
        w.len() == x.len(),
        forall|j: int| 0 <= j < x.len() ==> (#[trigger] x[j]).1 > 0,
    ensures
        qc_linear(w, b, x) == Some((0int, 1int)),
        sign_of((0int, 1int)) == -1,
{
    assert(forall|j: int| 0 <= j < w.len() ==> #[trigger] w[j] == (0int, 1int));
    lemma_dot_zero_from(w, x, 0);
    assert(q_add((0int, 1int), b) == (b.0, b.1));
    crate::ratio::lemma_norm_zero(b.1);
}

/// Law: prediction is a pure function of the model state and the
/// features.  Any two prediction sequences that satisfy `predict`'s
/// contract for the same weights, bias and features are equal, so a
/// repeated call with unchanged state returns identical results.
pub proof fn lemma_predict_deterministic(
    w: Seq<(int, int)>,
    b: (int, int),
    xs: Seq<Seq<(int, int)>>,
    p1: Seq<int>,
    p2: Seq<int>,
)
    requires
        p1.len() == xs.len(),
        p2.len() == xs.len(),
        forall|i: int|
            0 <= i < xs.len() ==> #[trigger] p1[i] == sign_of(qc_linear(w, b, xs[i])->Some_0),
        forall|i: int|
            0 <= i < xs.len() ==> #[trigger] p2[i] == sign_of(qc_linear(w, b, xs[i])->Some_0),
    ensures
        p1 == p2,
{
    assert(p1 =~= p2);
}

} // verus!
