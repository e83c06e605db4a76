//! The full flow on a small deterministic dataset: train, predict,
//! evaluate, derive calibration targets, sweep the ROC thresholds.

use svm::confusion::ConfusionMatrix;
use svm::platt::{platt_targets, roc_points};
use svm::ratio::Ratio;
use svm::svm::SVM;

#[test]
fn train_evaluate_and_sweep_on_separable_data() {
    let x: Vec<Vec<Ratio>> = vec![
        vec![Ratio::from_int(2), Ratio::from_int(0)],
        vec![Ratio::from_int(3), Ratio::from_int(1)],
        vec![Ratio::from_int(-2), Ratio::from_int(0)],
        vec![Ratio::from_int(-3), Ratio::from_int(-1)],
    ];
    let y: Vec<i64> = vec![1, 1, -1, -1];

    let mut model = SVM::new(Ratio::new(1, 10), Ratio::zero(), 1);
    model.fit(&x, &y).unwrap();
    // Hand trace: rows 1-3 violate their margin and pull the weights;
    // row 4 is already satisfied and only sees the (zero) decay.
    assert!(model.w[0].eq_val(Ratio::new(7, 10)));
    assert!(model.w[1].eq_val(Ratio::new(1, 10)));
    assert!(model.b.eq_val(Ratio::new(1, 10)));

    let y_hat = model.predict(&x).unwrap();
    assert_eq!(y_hat, vec![1i64, 1, -1, -1]);

    let f_hat = model.compute_decision_values(&x).unwrap();
    assert!(f_hat[0].eq_val(Ratio::new(3, 2)));
    assert!(f_hat[3].eq_val(Ratio::new(-21, 10)));

    let cm = ConfusionMatrix::new(&y, &y_hat).unwrap();
    assert_eq!((cm.tp, cm.tn, cm.fp, cm.fn_), (2, 2, 0, 0));
    assert!(cm.acc().unwrap().eq_val(Ratio::one()));
    assert!(cm.f1_score().unwrap().eq_val(Ratio::one()));

    let targets = platt_targets(&y);
    assert!(targets[0].eq_val(Ratio::new(3, 4)));
    assert!(targets[2].eq_val(Ratio::new(1, 4)));

    let probs: Vec<Ratio> = vec![
        Ratio::new(9, 10),
        Ratio::new(8, 10),
        Ratio::new(2, 10),
        Ratio::new(1, 10),
    ];
    let pts = roc_points(&y, &probs).unwrap();
    assert_eq!(pts.len(), 4);
    assert!(pts[0].fpr.unwrap().eq_val(Ratio::one()));
    assert!(pts[0].tpr.unwrap().eq_val(Ratio::one()));
    assert!(pts[1].fpr.unwrap().eq_val(Ratio::zero()));
    assert!(pts[1].tpr.unwrap().eq_val(Ratio::one()));
    assert!(pts[3].fpr.unwrap().eq_val(Ratio::zero()));
    assert!(pts[3].tpr.unwrap().eq_val(Ratio::zero()));
}
