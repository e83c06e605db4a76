use svm::ratio::Ratio;

#[test]
fn add_is_exact() {
    let a = Ratio::new(1, 2);
    let b = Ratio::new(1, 3);
    let s = a.add(b).unwrap();
    assert_eq!(s, Ratio::new(5, 6));
}

#[test]
fn sub_is_exact() {
    let a = Ratio::new(1, 2);
    let b = Ratio::new(1, 3);
    let d = a.sub(b).unwrap();
    assert_eq!(d, Ratio::new(1, 6));
}

#[test]
fn results_come_out_in_canonical_form() {
    let a = Ratio::new(2, 4);
    let b = Ratio::new(3, 5);
    let p = a.mul(b).unwrap();
    assert_eq!(p, Ratio::new(3, 10));
    let s = Ratio::new(1, 4).add(Ratio::new(1, 4)).unwrap();
    assert_eq!(s, Ratio::new(1, 2));
}

#[test]
fn neg_flips_sign() {
    let a = Ratio::new(3, 7);
    assert_eq!(a.neg().unwrap(), Ratio::new(-3, 7));
}

#[test]
fn add_overflow_is_reported() {
    let a = Ratio::new(i64::MAX, 1);
    let b = Ratio::one();
    assert!(a.add(b).is_none());
}

#[test]
fn mul_overflow_is_reported() {
    let a = Ratio::new(i64::MAX, 1);
    assert!(a.mul(a).is_none());
}

#[test]
fn neg_overflow_is_reported() {
    let a = Ratio::new(i64::MIN, 1);
    assert!(a.neg().is_none());
}

#[test]
fn comparisons_are_value_based() {
    let half = Ratio::new(1, 2);
    let two_thirds = Ratio::new(2, 3);
    let also_half = Ratio::new(2, 4);
    assert!(half.lt(two_thirds));
    assert!(!two_thirds.lt(half));
    assert!(half.le(also_half));
    assert!(half.eq_val(also_half));
    assert!(!half.eq_val(two_thirds));
}

#[test]
fn constructors_give_expected_values() {
    assert_eq!(Ratio::zero(), Ratio::new(0, 1));
    assert_eq!(Ratio::one(), Ratio::new(1, 1));
    assert_eq!(Ratio::from_int(-7), Ratio::new(-7, 1));
}
