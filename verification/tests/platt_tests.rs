use svm::error::SvmError;
use svm::platt::{platt_targets, roc_points};
use svm::ratio::Ratio;

fn to_f64(r: Ratio) -> f64 {
    r.num as f64 / r.den as f64
}

#[test]
fn targets_use_smoothed_class_counts() {
    // Three positives, one negative: t+ = 4/5, t- = 1/3.
    let y: Vec<i64> = vec![1, 1, 1, -1];
    let t = platt_targets(&y);
    assert_eq!(t.len(), 4);
    assert!(t[0].eq_val(Ratio::new(4, 5)));
    assert!(t[1].eq_val(Ratio::new(4, 5)));
    assert!(t[2].eq_val(Ratio::new(4, 5)));
    assert!(t[3].eq_val(Ratio::new(1, 3)));
}

#[test]
fn foreign_labels_get_the_negative_target_but_count_in_neither_class() {
    // One positive, no "-1" at all: t+ = 2/3, t- = 1/2; the 0 label
    // takes the negative target without enlarging N_neg.
    let y: Vec<i64> = vec![1, 0];
    let t = platt_targets(&y);
    assert!(t[0].eq_val(Ratio::new(2, 3)));
    assert!(t[1].eq_val(Ratio::new(1, 2)));
}

#[test]
fn roc_endpoints_reach_the_corners() {
    // Two thresholds: 0 and 1.  All probabilities lie strictly inside
    // (0,1), so threshold 0 classifies everything +1 (point (1,1)) and
    // threshold 1 classifies everything -1 (point (0,0)).
    let y: Vec<i64> = vec![1, -1];
    let probs: Vec<Ratio> = vec![Ratio::new(3, 4), Ratio::new(1, 4)];
    let pts = roc_points(&y, &probs).unwrap();
    assert_eq!(pts.len(), 2);
    assert!(pts[0].fpr.unwrap().eq_val(Ratio::one()));
    assert!(pts[0].tpr.unwrap().eq_val(Ratio::one()));
    assert!(pts[1].fpr.unwrap().eq_val(Ratio::zero()));
    assert!(pts[1].tpr.unwrap().eq_val(Ratio::zero()));
}

#[test]
fn roc_interior_threshold_separates_calibrated_scores() {
    // Four rows, thresholds k/3 for k = 0..3.  Probabilities 0.9, 0.6,
    // 0.4, 0.1 for labels 1, 1, -1, -1: at threshold 1/3 the
    // predictions are [1, 1, 1, -1] (fpr 1/2, tpr 1), at threshold 2/3
    // they are [1, -1, -1, -1] (fpr 0, tpr 1/2).
    let y: Vec<i64> = vec![1, 1, -1, -1];
    let probs: Vec<Ratio> = vec![
        Ratio::new(9, 10),
        Ratio::new(6, 10),
        Ratio::new(4, 10),
        Ratio::new(1, 10),
    ];
    let pts = roc_points(&y, &probs).unwrap();
    assert_eq!(pts.len(), 4);
    assert!(pts[1].fpr.unwrap().eq_val(Ratio::new(1, 2)));
    assert!(pts[1].tpr.unwrap().eq_val(Ratio::one()));
    assert!(pts[2].fpr.unwrap().eq_val(Ratio::zero()));
    assert!(pts[2].tpr.unwrap().eq_val(Ratio::new(1, 2)));
}

#[test]
fn roc_rates_stay_inside_the_unit_interval() {
    let y: Vec<i64> = vec![1, -1, 1, -1, 1];
    let probs: Vec<Ratio> = vec![
        Ratio::new(8, 10),
        Ratio::new(7, 10),
        Ratio::new(5, 10),
        Ratio::new(2, 10),
        Ratio::new(6, 10),
    ];
    let pts = roc_points(&y, &probs).unwrap();
    for p in pts {
        if let Some(f) = p.fpr {
            let v = to_f64(f);
            assert!((0.0..=1.0).contains(&v));
        }
        if let Some(t) = p.tpr {
            let v = to_f64(t);
            assert!((0.0..=1.0).contains(&v));
        }
    }
}

#[test]
fn roc_rates_never_increase_along_the_sweep() {
    let y: Vec<i64> = vec![1, -1, 1, -1, 1, -1];
    let probs: Vec<Ratio> = vec![
        Ratio::new(9, 10),
        Ratio::new(8, 10),
        Ratio::new(6, 10),
        Ratio::new(3, 10),
        Ratio::new(5, 10),
        Ratio::new(2, 10),
    ];
    let pts = roc_points(&y, &probs).unwrap();
    for w in pts.windows(2) {
        let (a, b) = (w[0], w[1]);
        assert!(b.fpr.unwrap().le(a.fpr.unwrap()));
        assert!(b.tpr.unwrap().le(a.tpr.unwrap()));
    }
}

#[test]
fn roc_rejects_mismatched_lengths() {
    let y: Vec<i64> = vec![1, -1];
    let probs: Vec<Ratio> = vec![Ratio::new(1, 2)];
    assert_eq!(roc_points(&y, &probs), Err(SvmError::LengthMismatch));
}

#[test]
fn fitted_slope_is_negative_for_separated_data() {
    // Platt's parameterization maps a decision value f to
    // 1/(1+exp(A·f+B)); when every positive decision value exceeds
    // every negative one, the fitted A must be negative.  The fit here
    // is a plain gradient descent on the squared error against the
    // library's smoothed targets.
    let y: Vec<i64> = vec![1, 1, -1, -1];
    let f: Vec<f64> = vec![2.0, 1.5, -1.0, -2.0];
    let t: Vec<f64> = platt_targets(&y).into_iter().map(to_f64).collect();

    let mut a = 1.0f64;
    let mut b = 1.0f64;
    let lr = 0.5f64;
    for _ in 0..5000 {
        let mut ga = 0.0f64;
        let mut gb = 0.0f64;
        for i in 0..f.len() {
            let s = 1.0 / (1.0 + (a * f[i] + b).exp());
            let common = 2.0 * (s - t[i]) * (-s) * (1.0 - s);
            ga += common * f[i];
            gb += common;
        }
        a -= lr * ga;
        b -= lr * gb;
    }
    assert!(a < 0.0);
}
