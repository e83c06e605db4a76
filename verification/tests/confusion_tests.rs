use svm::confusion::ConfusionMatrix;
use svm::error::SvmError;
use svm::ratio::Ratio;

fn sample_matrix() -> ConfusionMatrix {
    // y:      1   1  -1  -1   1
    // y_hat:  1  -1  -1   1   1
    let y: Vec<i64> = vec![1, 1, -1, -1, 1];
    let y_hat: Vec<i64> = vec![1, -1, -1, 1, 1];
    ConfusionMatrix::new(&y, &y_hat).unwrap()
}

#[test]
fn counts_are_tallied_per_bucket() {
    let cm = sample_matrix();
    assert_eq!(cm.tp, 2);
    assert_eq!(cm.fn_, 1);
    assert_eq!(cm.tn, 1);
    assert_eq!(cm.fp, 1);
}

#[test]
fn counts_sum_to_length_for_pure_labels() {
    let cm = sample_matrix();
    assert_eq!(cm.tp + cm.tn + cm.fp + cm.fn_, 5);
}

#[test]
fn length_mismatch_is_an_error() {
    let y: Vec<i64> = vec![1, -1];
    let y_hat: Vec<i64> = vec![1];
    assert_eq!(ConfusionMatrix::new(&y, &y_hat), Err(SvmError::LengthMismatch));
}

#[test]
fn foreign_label_values_fall_in_no_bucket() {
    let y: Vec<i64> = vec![0, 1];
    let y_hat: Vec<i64> = vec![1, 1];
    let cm = ConfusionMatrix::new(&y, &y_hat).unwrap();
    assert_eq!(cm.tp, 1);
    assert_eq!(cm.tn + cm.fp + cm.fn_, 0);
}

#[test]
fn metrics_have_exact_values() {
    let cm = sample_matrix();
    assert!(cm.acc().unwrap().eq_val(Ratio::new(3, 5)));
    assert!(cm.ppv().unwrap().eq_val(Ratio::new(2, 3)));
    assert!(cm.tpr().unwrap().eq_val(Ratio::new(2, 3)));
    assert!(cm.tnr().unwrap().eq_val(Ratio::new(1, 2)));
    assert!(cm.npv().unwrap().eq_val(Ratio::new(1, 2)));
    assert!(cm.fnr().unwrap().eq_val(Ratio::new(1, 3)));
    assert!(cm.fpr().unwrap().eq_val(Ratio::new(1, 2)));
}

#[test]
fn f1_matches_harmonic_mean_of_precision_and_recall() {
    let cm = sample_matrix();
    let f1 = cm.f1_score().unwrap();
    let p = cm.ppv().unwrap();
    let r = cm.tpr().unwrap();
    // 2·p·r / (p+r), evaluated in floating point for the cross-check.
    let pf = p.num as f64 / p.den as f64;
    let rf = r.num as f64 / r.den as f64;
    let expect = 2.0 * pf * rf / (pf + rf);
    let got = f1.num as f64 / f1.den as f64;
    assert!((got - expect).abs() < 1e-12);
    assert!(f1.eq_val(Ratio::new(2, 3)));
}

#[test]
fn perfect_predictions_have_accuracy_one() {
    let y: Vec<i64> = vec![1, -1, -1, 1, 1];
    let cm = ConfusionMatrix::new(&y, &y).unwrap();
    assert!(cm.acc().unwrap().eq_val(Ratio::one()));
}

#[test]
fn degenerate_metrics_are_none() {
    let y: Vec<i64> = vec![1, 1];
    let cm = ConfusionMatrix::new(&y, &y).unwrap();
    // No negatives at all: every negative-based rate is undefined.
    assert!(cm.tnr().is_none());
    assert!(cm.fpr().is_none());
    assert!(cm.npv().is_none());
    assert!(cm.acc().unwrap().eq_val(Ratio::one()));
}

#[test]
fn f1_is_undefined_without_true_positives() {
    let y: Vec<i64> = vec![1, -1];
    let y_hat: Vec<i64> = vec![-1, 1];
    let cm = ConfusionMatrix::new(&y, &y_hat).unwrap();
    assert_eq!(cm.tp, 0);
    assert!(cm.f1_score().is_none());
}

#[test]
fn empty_input_has_no_defined_accuracy() {
    let y: Vec<i64> = vec![];
    let cm = ConfusionMatrix::new(&y, &y).unwrap();
    assert!(cm.acc().is_none());
}

#[test]
fn to_matrix_lays_counts_out_row_major() {
    let cm = sample_matrix();
    let m = cm.to_matrix();
    assert_eq!(m, vec![vec![2u64, 1u64], vec![1u64, 1u64]]);
}
