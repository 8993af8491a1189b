use collision_mc::ieee::{bits_are_finite, bits_are_positive, bits_are_zero};
use collision_mc::samples::{check_samples, SampleError};

const M_SUN: f64 = 1.989e30;

fn bits(values: &[f64]) -> Vec<u64> {
    values.iter().map(|v| v.to_bits()).collect()
}

fn limits() -> (u64, u64) {
    ((0.1 * M_SUN).to_bits(), (50.0 * M_SUN).to_bits())
}

#[test]
fn batch_inside_limits_passes() {
    let (lo, hi) = limits();
    let s = bits(&[0.1 * M_SUN, M_SUN, 3.0 * M_SUN, 50.0 * M_SUN]);
    assert_eq!(check_samples(&s, 4, lo, hi, 0), Ok(()));
}

#[test]
fn empty_batch_of_size_zero_passes() {
    let (lo, hi) = limits();
    assert_eq!(check_samples(&Vec::new(), 0, lo, hi, 0), Ok(()));
}

#[test]
fn batch_of_wrong_size_is_refused() {
    let (lo, hi) = limits();
    let s = bits(&[M_SUN, M_SUN]);
    assert_eq!(check_samples(&s, 3, lo, hi, 0), Err(SampleError::WrongCount { expected: 3, found: 2 }));
}

#[test]
fn non_finite_sample_is_refused() {
    let (lo, hi) = limits();
    let s = bits(&[M_SUN, f64::NAN, 60.0 * M_SUN]);
    assert_eq!(check_samples(&s, 3, lo, hi, 0), Err(SampleError::NonFinite { index: 1 }));
    let s = bits(&[f64::INFINITY]);
    assert_eq!(check_samples(&s, 1, lo, hi, 0), Err(SampleError::NonFinite { index: 0 }));
}

#[test]
fn sample_outside_limits_is_refused() {
    let (lo, hi) = limits();
    let s = bits(&[M_SUN, 60.0 * M_SUN]);
    assert_eq!(check_samples(&s, 2, lo, hi, 0), Err(SampleError::OutOfRange { index: 1 }));
    let s = bits(&[0.01 * M_SUN]);
    assert_eq!(check_samples(&s, 1, lo, hi, 0), Err(SampleError::OutOfRange { index: 0 }));
    let s = bits(&[-M_SUN]);
    assert_eq!(check_samples(&s, 1, lo, hi, 0), Err(SampleError::OutOfRange { index: 0 }));
}

#[test]
fn slack_absorbs_rounding_at_the_limits() {
    let (lo, hi) = limits();
    let below = vec![lo - 1];
    let above = vec![hi + 2];
    assert_eq!(check_samples(&below, 1, lo, hi, 0), Err(SampleError::OutOfRange { index: 0 }));
    assert_eq!(check_samples(&below, 1, lo, hi, 1), Ok(()));
    assert_eq!(check_samples(&above, 1, lo, hi, 1), Err(SampleError::OutOfRange { index: 0 }));
    assert_eq!(check_samples(&above, 1, lo, hi, 2), Ok(()));
}

#[test]
fn huge_slack_stops_at_finite_values() {
    let (lo, hi) = limits();
    let s = bits(&[0.0, f64::MAX]);
    assert_eq!(check_samples(&s, 2, lo, hi, u64::MAX), Ok(()));
    let s = bits(&[f64::INFINITY]);
    assert_eq!(check_samples(&s, 1, lo, hi, u64::MAX), Err(SampleError::NonFinite { index: 0 }));
}

#[test]
fn bit_classification() {
    assert!(bits_are_finite(1.5f64.to_bits()));
    assert!(bits_are_finite(f64::MAX.to_bits()));
    assert!(!bits_are_finite(f64::INFINITY.to_bits()));
    assert!(!bits_are_finite(f64::NEG_INFINITY.to_bits()));
    assert!(!bits_are_finite(f64::NAN.to_bits()));
    assert!(bits_are_zero(0.0f64.to_bits()));
    assert!(bits_are_zero((-0.0f64).to_bits()));
    assert!(!bits_are_zero(f64::MIN_POSITIVE.to_bits()));
    assert!(bits_are_positive(f64::MIN_POSITIVE.to_bits()));
    assert!(bits_are_positive(5e-324f64.to_bits()));
    assert!(!bits_are_positive((-1.0f64).to_bits()));
    assert!(!bits_are_positive(0.0f64.to_bits()));
    assert!(!bits_are_positive(f64::INFINITY.to_bits()));
}
