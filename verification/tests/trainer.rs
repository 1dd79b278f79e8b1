//! Tests of the gradient-descent trainer on whole datasets.

use linreg::{predict, linreg, RegError, SCALE};

fn sample_features() -> Vec<i64> {
    (2..=10).map(|x: i64| x * SCALE).collect()
}

fn sample_labels() -> Vec<i64> {
    (0..9).map(|i: i64| (60 + 5 * i) * SCALE).collect()
}

#[test]
fn trainer_fits_sample_dataset() {
    // labels are exactly 5 * feature + 50; after 1000 steps at rate 0.01
    // the parameters approach (5.0, 50.0) without fully converging
    let (m, b) = linreg(&sample_features(), &sample_labels()).unwrap();
    assert_eq!((m, b), (5_317_929, 47_747_294));
    assert!((m - 5 * SCALE).abs() < SCALE);
    assert!((b - 50 * SCALE).abs() < 3 * SCALE);
}

#[test]
fn trainer_is_deterministic() {
    let r1 = linreg(&sample_features(), &sample_labels());
    let r2 = linreg(&sample_features(), &sample_labels());
    assert_eq!(r1, r2);
}

#[test]
fn inference_uses_fitted_parameters() {
    let (m, b) = linreg(&sample_features(), &sample_labels()).unwrap();
    let hours: Vec<i64> = vec![4_250_000];
    let p = predict(&hours, (m, b)).unwrap();
    // exactly trunc(4.25 * m) + b, about 70.35 for the sample data
    let scaled: i128 = 4_250_000i128 * (m as i128) / (SCALE as i128);
    assert_eq!(p[0], scaled as i64 + b);
    assert_eq!(p[0], 70_348_492);
}

#[test]
fn single_observation_dataset_trains() {
    // one observation: the fitted line passes (nearly) through the point
    let f: Vec<i64> = vec![3 * SCALE];
    let l: Vec<i64> = vec![7 * SCALE];
    let (m, b) = linreg(&f, &l).unwrap();
    assert_eq!((m, b), (2_200_001, 399_981));
    let p = predict(&f, (m, b)).unwrap();
    assert!((p[0] - 7 * SCALE).abs() < 100);
}

#[test]
fn diverging_dataset_reports_overflow() {
    // a huge feature value makes the fixed learning rate diverge, and
    // the parameters grow until an intermediate value leaves range
    let f: Vec<i64> = vec![1000 * SCALE];
    let l: Vec<i64> = vec![0];
    assert_eq!(linreg(&f, &l), Err(RegError::Overflow));
}
