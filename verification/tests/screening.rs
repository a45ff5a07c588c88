use rsomics_epps_singleton::es::{check_covariance, screen, EsError, Plan, Screening, ValueKind};

fn s(n: usize, off: f64) -> Vec<f64> {
    (0..n).map(|i| i as f64 + off).collect()
}

fn kinds(v: &[f64]) -> Vec<ValueKind> {
    v.iter()
        .map(|a| {
            if a.is_nan() {
                ValueKind::NotANumber
            } else if a.is_infinite() {
                ValueKind::Infinite
            } else {
                ValueKind::Finite
            }
        })
        .collect()
}

fn nonpositive(t: &[f64]) -> Vec<bool> {
    t.iter().map(|&v| v <= 0.0).collect()
}

fn check(x: &[f64], y: &[f64], t: &[f64]) -> Screening {
    screen(&kinds(x), &kinds(y), &nonpositive(t))
}

const T: [f64; 2] = [0.4, 0.8];

#[test]
fn nan_short_circuits_before_t_validation() {
    let mut x = s(6, 0.0);
    x[3] = f64::NAN;
    assert_eq!(check(&x, &s(6, 0.0), &[0.4, -0.8]), Screening::Undefined);
}

#[test]
fn inf_with_invalid_t_fails_loud() {
    let mut x = s(6, 0.0);
    x[3] = f64::INFINITY;
    assert_eq!(
        check(&x, &s(6, 0.0), &[0.4, -0.8]),
        Screening::Rejected(EsError::NonPositiveT)
    );
}

#[test]
fn inf_with_valid_t_propagates_nan() {
    let mut x = s(6, 0.0);
    x[3] = f64::INFINITY;
    assert_eq!(check(&x, &s(6, 0.0), &T), Screening::Undefined);
}

#[test]
fn finite_with_invalid_t_fails_loud() {
    assert_eq!(
        check(&s(6, 0.0), &s(6, 0.5), &[0.4, 0.0]),
        Screening::Rejected(EsError::NonPositiveT)
    );
}

#[test]
fn rejects_too_few_observations() {
    let r = check(&[1.0, 2.0, 3.0, 4.0], &[1.0, 2.0, 3.0, 4.0, 5.0], &[0.4, 0.8]);
    assert_eq!(r, Screening::Rejected(EsError::TooFew { nx: 4, ny: 5 }));
}

#[test]
fn rejects_non_positive_t() {
    let x: Vec<f64> = (0..10).map(f64::from).collect();
    assert_eq!(check(&x, &x, &[0.4, -0.8]), Screening::Rejected(EsError::NonPositiveT));
}

#[test]
fn nan_frequency_is_not_refused() {
    let x = s(10, 0.0);
    assert!(matches!(check(&x, &x, &[f64::NAN]), Screening::Proceed(_)));
}

#[test]
fn too_few_beats_bad_frequency() {
    assert_eq!(
        check(&s(3, 0.0), &s(6, 0.0), &[-1.0]),
        Screening::Rejected(EsError::TooFew { nx: 3, ny: 6 })
    );
}

#[test]
fn plan_of_small_samples() {
    assert_eq!(
        check(&s(6, 0.0), &s(7, 0.0), &T),
        Screening::Proceed(Plan { n: 13, k: 2, dim: 4, small_sample: true })
    );
}

#[test]
fn plan_of_large_sample() {
    assert_eq!(
        check(&s(6, 0.0), &s(25, 0.0), &[0.3, 0.6, 0.9]),
        Screening::Proceed(Plan { n: 31, k: 3, dim: 6, small_sample: false })
    );
}

#[test]
fn swapping_samples_swaps_counts() {
    let a = check(&s(4, 0.0), &s(9, 0.0), &T);
    let b = check(&s(9, 0.0), &s(4, 0.0), &T);
    assert_eq!(a, Screening::Rejected(EsError::TooFew { nx: 4, ny: 9 }));
    assert_eq!(b, Screening::Rejected(EsError::TooFew { nx: 9, ny: 4 }));
}

#[test]
fn degenerate_covariance_matches_scipy_error() {
    let cells = kinds(&[1.0, f64::NAN, 0.5, 2.0]);
    let err = check_covariance(&cells).unwrap_err();
    assert_eq!(err, EsError::SvdDidNotConverge);
    assert_eq!(err.message(), "SVD did not converge");
    assert_eq!(check_covariance(&kinds(&[1.0, 2.0])), Ok(()));
    assert!(check_covariance(&kinds(&[f64::NEG_INFINITY])).is_err());
}

#[test]
fn error_messages() {
    assert_eq!(
        EsError::TooFew { nx: 4, ny: 5 }.message(),
        "x and y should have at least 5 elements, but len(x) = 4 and len(y) = 5."
    );
    assert_eq!(
        EsError::TooFew { nx: 0, ny: 1234567 }.message(),
        "x and y should have at least 5 elements, but len(x) = 0 and len(y) = 1234567."
    );
    assert_eq!(
        EsError::NonPositiveT.message(),
        "t must contain positive elements only."
    );
}
