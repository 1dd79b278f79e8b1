//! Tests of the elementwise pipeline stages: prediction, residuals,
//! and the two gradient reductions. All values are fixed point: an
//! `i64` counts millionths, so `1.0` is written `1_000_000`.

use linreg::{predict, error, dm, db, RegError, SCALE};

#[test]
fn predict_applies_affine_formula() {
    let f: Vec<i64> = vec![2 * SCALE, 3 * SCALE, 0, -4 * SCALE];
    let p = predict(&f, (5 * SCALE, 50 * SCALE)).unwrap();
    assert_eq!(p, vec![60 * SCALE, 65 * SCALE, 50 * SCALE, 30 * SCALE]);
}

#[test]
fn predict_truncates_toward_zero() {
    // -1.5 * 0.333333 = -0.4999995, truncated toward zero at the sixth digit
    let f: Vec<i64> = vec![-1_500_000];
    let p = predict(&f, (333_333, 250_000)).unwrap();
    assert_eq!(p, vec![-249_999]);
}

#[test]
fn predict_on_empty_input_is_empty() {
    let f: Vec<i64> = Vec::new();
    let p = predict(&f, (SCALE, 0)).unwrap();
    assert!(p.is_empty());
}

#[test]
fn predict_reports_overflow() {
    // 2.0 * i64::MAX leaves the representable range
    let f: Vec<i64> = vec![i64::MAX];
    assert_eq!(predict(&f, (2 * SCALE, 0)), Err(RegError::Overflow));
}

#[test]
fn error_is_elementwise_difference() {
    let p: Vec<i64> = vec![60 * SCALE, 66 * SCALE, 69 * SCALE];
    let l: Vec<i64> = vec![60 * SCALE, 65 * SCALE, 70 * SCALE];
    let e = error(&p, &l).unwrap();
    assert_eq!(e, vec![0, SCALE, -SCALE]);
}

#[test]
fn error_rejects_mismatched_lengths() {
    let p: Vec<i64> = vec![SCALE, 2 * SCALE];
    let l: Vec<i64> = vec![SCALE];
    assert_eq!(error(&p, &l), Err(RegError::LengthMismatch));
    let empty: Vec<i64> = Vec::new();
    assert_eq!(error(&p, &empty), Err(RegError::LengthMismatch));
}

#[test]
fn error_reports_overflow() {
    let p: Vec<i64> = vec![i64::MAX];
    let l: Vec<i64> = vec![-1];
    assert_eq!(error(&p, &l), Err(RegError::Overflow));
}

#[test]
fn dm_matches_formula() {
    // 2 * (2.0 * 1.0) / 1 = 4.0
    let f: Vec<i64> = vec![2 * SCALE];
    let e: Vec<i64> = vec![SCALE];
    assert_eq!(dm(&f, &e), Ok(4 * SCALE));
}

#[test]
fn dm_reports_overflow() {
    // the doubled inner product leaves i128 range
    let f: Vec<i64> = vec![i64::MAX, i64::MAX];
    let e: Vec<i64> = vec![i64::MAX, i64::MAX];
    assert_eq!(dm(&f, &e), Err(RegError::Overflow));
}

#[test]
fn db_matches_formula() {
    // 2 * (3.0 - 1.0) / 2 = 2.0
    let e: Vec<i64> = vec![3 * SCALE, -SCALE];
    assert_eq!(db(&e), Ok(2 * SCALE));
}

#[test]
fn db_reports_overflow() {
    // 2 * i64::MAX / 1 does not fit back into an i64
    let e: Vec<i64> = vec![i64::MAX];
    assert_eq!(db(&e), Err(RegError::Overflow));
}

#[test]
fn gradients_scale_with_residuals() {
    // residuals scaled by 3 scale dm by 3 (the division is exact here)
    let f: Vec<i64> = vec![2 * SCALE];
    let e: Vec<i64> = vec![SCALE];
    let e3: Vec<i64> = vec![3 * SCALE];
    assert_eq!(dm(&f, &e3), Ok(3 * dm(&f, &e).unwrap()));
    // residuals scaled by 2 scale db by 2
    let r: Vec<i64> = vec![3 * SCALE, -SCALE];
    let r2: Vec<i64> = vec![6 * SCALE, -2 * SCALE];
    assert_eq!(db(&r2), Ok(2 * db(&r).unwrap()));
}
