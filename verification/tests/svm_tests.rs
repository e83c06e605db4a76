use svm::error::SvmError;
use svm::ratio::Ratio;
use svm::svm::SVM;

fn rows(vals: &[&[i64]]) -> Vec<Vec<Ratio>> {
    vals.iter().map(|r| r.iter().map(|&v| Ratio::from_int(v)).collect()).collect()
}

#[test]
fn new_model_has_placeholder_state() {
    let m = SVM::new(Ratio::new(1, 10), Ratio::zero(), 5);
    assert_eq!(m.w.len(), 1);
    assert!(m.w[0].eq_val(Ratio::zero()));
    assert!(m.b.eq_val(Ratio::zero()));
    assert_eq!(m.cls_map, vec![0i64]);
    assert_eq!(m.n_iters, 5);
}

#[test]
fn one_pass_matches_hand_derived_trace() {
    // features [[2,0],[-2,0]], labels [+1,-1], lr = 1/10, no
    // regularization, one pass.  Both rows start with margin 0 < 1, so
    // both are violated; row 1 is updated first with the fresh weights,
    // row 2 with the already-updated ones:
    //   after row 1: w = [0.2, 0], b = 0.1
    //   after row 2: w = [0.4, 0], b = 0
    let x = rows(&[&[2, 0], &[-2, 0]]);
    let y: Vec<i64> = vec![1, -1];
    let mut m = SVM::new(Ratio::new(1, 10), Ratio::zero(), 1);
    m.fit(&x, &y).unwrap();
    assert!(m.w[0].eq_val(Ratio::new(2, 5)));
    assert!(m.w[1].eq_val(Ratio::zero()));
    assert!(m.b.eq_val(Ratio::zero()));
    assert_eq!(m.cls_map, vec![1i64, -1]);
}

#[test]
fn fit_with_zero_iterations_matches_baseline() {
    let x = rows(&[&[3, 1], &[-1, 2], &[0, 0]]);
    let y: Vec<i64> = vec![1, -1, 1];

    let mut fitted = SVM::new(Ratio::new(1, 10), Ratio::new(1, 100), 0);
    fitted.fit(&x, &y).unwrap();
    assert_eq!(fitted.w.len(), 2);
    assert!(fitted.w.iter().all(|w| w.eq_val(Ratio::zero())));
    assert!(fitted.b.eq_val(Ratio::zero()));

    let mut reference = SVM::new(Ratio::new(1, 10), Ratio::new(1, 100), 0);
    let base_pred = reference.baseline(&x).unwrap();
    let fit_pred = fitted.predict(&x).unwrap();
    assert_eq!(fit_pred, base_pred);
    assert_eq!(fit_pred, vec![-1i64, -1, -1]);
}

#[test]
fn predict_is_idempotent() {
    let x = rows(&[&[2, 0], &[-2, 0], &[1, 1]]);
    let y: Vec<i64> = vec![1, -1, 1];
    let mut m = SVM::new(Ratio::new(1, 10), Ratio::zero(), 3);
    m.fit(&x, &y).unwrap();
    let p1 = m.predict(&x).unwrap();
    let p2 = m.predict(&x).unwrap();
    assert_eq!(p1, p2);
}

#[test]
fn zero_decision_value_predicts_negative() {
    let m = SVM {
        lr: Ratio::new(1, 10),
        lambda: Ratio::zero(),
        n_iters: 1,
        w: vec![Ratio::one()],
        b: Ratio::zero(),
        cls_map: vec![0],
    };
    let x = rows(&[&[0], &[1], &[-1]]);
    assert_eq!(m.predict(&x).unwrap(), vec![-1i64, 1, -1]);
}

#[test]
fn decision_values_are_exact() {
    let m = SVM {
        lr: Ratio::new(1, 10),
        lambda: Ratio::zero(),
        n_iters: 1,
        w: vec![Ratio::one(), Ratio::from_int(2)],
        b: Ratio::new(1, 2),
        cls_map: vec![0],
    };
    let x = rows(&[&[1, 1], &[-1, 0]]);
    let d = m.compute_decision_values(&x).unwrap();
    assert!(d[0].eq_val(Ratio::new(7, 2)));
    assert!(d[1].eq_val(Ratio::new(-1, 2)));
}

#[test]
fn baseline_resets_weights_and_predicts_negative() {
    let x = rows(&[&[5, 5], &[-5, -5]]);
    let mut m = SVM::new(Ratio::new(1, 10), Ratio::zero(), 4);
    let p = m.baseline(&x).unwrap();
    assert_eq!(p, vec![-1i64, -1]);
    assert_eq!(m.w.len(), 2);
    assert!(m.w.iter().all(|w| w.eq_val(Ratio::zero())));
}

#[test]
fn fit_on_empty_input_succeeds_with_empty_weights() {
    let x: Vec<Vec<Ratio>> = vec![];
    let y: Vec<i64> = vec![];
    let mut m = SVM::new(Ratio::new(1, 10), Ratio::zero(), 7);
    m.fit(&x, &y).unwrap();
    assert!(m.w.is_empty());
    assert_eq!(m.predict(&x).unwrap(), Vec::<i64>::new());
}

#[test]
fn fit_rejects_mismatched_lengths() {
    let x = rows(&[&[1], &[2]]);
    let y: Vec<i64> = vec![1];
    let mut m = SVM::new(Ratio::new(1, 10), Ratio::zero(), 1);
    assert_eq!(m.fit(&x, &y), Err(SvmError::LengthMismatch));
}

#[test]
fn fit_rejects_ragged_rows() {
    let x = rows(&[&[1, 2], &[3]]);
    let y: Vec<i64> = vec![1, -1];
    let mut m = SVM::new(Ratio::new(1, 10), Ratio::zero(), 1);
    assert_eq!(m.fit(&x, &y), Err(SvmError::DimensionMismatch));
}

#[test]
fn predict_rejects_wrong_dimensionality() {
    let m = SVM::new(Ratio::new(1, 10), Ratio::zero(), 1);
    // The placeholder weight has dimension 1; two-column rows mismatch.
    let x = rows(&[&[1, 2]]);
    assert_eq!(m.predict(&x), Err(SvmError::DimensionMismatch));
}

#[test]
fn fit_overflow_leaves_model_untouched() {
    let x = vec![vec![Ratio::new(i64::MAX, 1)]];
    let y: Vec<i64> = vec![-1];
    let mut m = SVM::new(Ratio::one(), Ratio::zero(), 2);
    assert_eq!(m.fit(&x, &y), Err(SvmError::Overflow));
    // Untouched: still the placeholder state from the constructor.
    assert_eq!(m.w.len(), 1);
    assert!(m.w[0].eq_val(Ratio::zero()));
    assert!(m.b.eq_val(Ratio::zero()));
    assert_eq!(m.cls_map, vec![0i64]);
}

#[test]
fn labels_other_than_plus_one_collapse_to_minus_one() {
    let x = rows(&[&[1], &[2]]);
    let y: Vec<i64> = vec![1, 7];
    let mut m = SVM::new(Ratio::new(1, 10), Ratio::zero(), 0);
    m.fit(&x, &y).unwrap();
    assert_eq!(m.cls_map, vec![1i64, -1]);
}

#[test]
fn fit_applies_hinge_pull_from_zeroed_weights() {
    let mut m = SVM {
        lr: Ratio::new(1, 2),
        lambda: Ratio::new(1, 2),
        n_iters: 1,
        w: vec![Ratio::one()],
        b: Ratio::zero(),
        cls_map: vec![0],
    };
    let x = rows(&[&[100]]);
    let y: Vec<i64> = vec![1];
    m.fit(&x, &y).unwrap();
    // fit re-zeroes the weights first; the margin is then 0 < 1,
    // violated: dw = λ·0 - 1·100 = -100, w = 0 + 50 = 50, b = 1/2.
    assert!(m.w[0].eq_val(Ratio::new(50, 1)));
    assert!(m.b.eq_val(Ratio::new(1, 2)));
}

#[test]
fn constraint_and_gradient_steps_are_consistent() {
    let mut m = SVM {
        lr: Ratio::new(1, 10),
        lambda: Ratio::zero(),
        n_iters: 1,
        w: vec![Ratio::one()],
        b: Ratio::zero(),
        cls_map: vec![1, -1],
    };
    let row: Vec<Ratio> = vec![Ratio::from_int(2)];
    // Margin of row 0 is 1·(1·2+0) = 2 >= 1: satisfied.
    assert!(m.satisfy_constraint(&row, 0).unwrap());
    // Margin of row 1 is -1·2 = -2 < 1: violated.
    assert!(!m.satisfy_constraint(&row, 1).unwrap());
    // Violated gradients for row 1: dw = 0·w - (-1)·2 = 2, db = 1.
    let (dw, db) = m.get_gradients(false, &row, 1).unwrap();
    assert!(dw[0].eq_val(Ratio::from_int(2)));
    assert!(db.eq_val(Ratio::one()));
    // One step: w = 1 - 2/10 = 4/5, b = 0 - 1/10.
    m.update_weight_bias(dw, db).unwrap();
    assert!(m.w[0].eq_val(Ratio::new(4, 5)));
    assert!(m.b.eq_val(Ratio::new(-1, 10)));
}
