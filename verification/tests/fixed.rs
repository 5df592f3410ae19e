use covmat::fixed::{Fixed, SCALE};
use covmat::{Cov3, CovError, Jac33, Scalar, Vecn};

fn fx(x: f64) -> Fixed {
    Fixed { raw: (x * SCALE as f64) as i64 }
}

fn fixeds(xs: &[f64]) -> Vec<Fixed> {
    xs.iter().map(|x| fx(*x)).collect()
}

fn value(x: Fixed) -> f64 {
    x.raw as f64 / SCALE as f64
}

fn values(xs: Vec<Fixed>) -> Vec<f64> {
    xs.into_iter().map(value).collect()
}

fn close(a: &[f64], b: &[f64], tol: f64) -> bool {
    a.len() == b.len() && a.iter().zip(b).all(|(x, y)| (x - y).abs() <= tol)
}

#[test]
fn fixed_zero_and_one() {
    assert_eq!(Fixed::zero(), Fixed { raw: 0 });
    assert_eq!(Fixed::one(), Fixed { raw: 4294967296 });
    assert_eq!(SCALE, 4294967296);
}

#[test]
fn fixed_sum_and_difference() {
    assert_eq!(fx(1.5).add(fx(2.25)), fx(3.75));
    assert_eq!(fx(1.5).sub(fx(2.25)), fx(-0.75));
    assert_eq!(Fixed { raw: i64::MAX }.add(Fixed { raw: 1 }), Fixed { raw: i64::MAX });
    assert_eq!(Fixed { raw: i64::MIN }.add(Fixed { raw: -1 }), Fixed { raw: i64::MIN });
    assert_eq!(Fixed { raw: i64::MIN }.sub(Fixed { raw: 1 }), Fixed { raw: i64::MIN });
    assert_eq!(Fixed { raw: i64::MAX }.sub(Fixed { raw: -1 }), Fixed { raw: i64::MAX });
}

#[test]
fn fixed_product() {
    assert_eq!(fx(1.5).mul(fx(2.5)), Fixed { raw: 16106127360 });
    assert_eq!(fx(-1.5).mul(fx(2.5)), fx(-3.75));
    assert_eq!(Fixed { raw: 1 }.mul(fx(0.5)), Fixed { raw: 0 });
    assert_eq!(Fixed { raw: -1 }.mul(fx(0.5)), Fixed { raw: -1 });
    assert_eq!(fx(1.0e9).mul(fx(1.0e9)), Fixed { raw: i64::MAX });
    assert_eq!(fx(-1.0e9).mul(fx(1.0e9)), Fixed { raw: i64::MIN });
    assert_eq!(fx(123.456).mul(Fixed::one()), fx(123.456));
    assert_eq!(fx(123.456).mul(Fixed::zero()), Fixed::zero());
}

#[test]
fn fixed_quotient() {
    assert_eq!(fx(3.75).div(fx(2.5)), fx(1.5));
    assert_eq!(fx(1.0).div(fx(3.0)), Fixed { raw: 1431655765 });
    assert_eq!(fx(-1.0).div(fx(3.0)), Fixed { raw: -1431655766 });
    assert_eq!(fx(1.0).div(fx(-3.0)), Fixed { raw: -1431655765 });
    assert_eq!(fx(-1.0).div(fx(-3.0)), Fixed { raw: 1431655766 });
    assert_eq!(fx(1.0).div(Fixed::zero()), Fixed { raw: i64::MAX });
    assert_eq!(Fixed::zero().div(Fixed::zero()), Fixed { raw: i64::MAX });
    assert_eq!(fx(-1.0).div(Fixed::zero()), Fixed { raw: i64::MIN });
    assert_eq!(fx(1.0e9).div(Fixed { raw: 1 }), Fixed { raw: i64::MAX });
}

#[test]
fn fixed_square_root() {
    assert_eq!(fx(2.0).sqrt(), Fixed { raw: 6074000999 });
    assert_eq!(fx(0.25).sqrt(), fx(0.5));
    assert_eq!(fx(9.0).sqrt(), fx(3.0));
    assert_eq!(Fixed::zero().sqrt(), Fixed::zero());
    assert_eq!(fx(-4.0).sqrt(), Fixed::zero());
    assert_eq!(Fixed { raw: i64::MAX }.sqrt(), Fixed { raw: 199032864766430 });
}

#[test]
fn fixed_sign() {
    assert_eq!(fx(1.5).neg(), fx(-1.5));
    assert_eq!(fx(-1.5).abs(), fx(1.5));
    assert_eq!(fx(1.5).abs(), fx(1.5));
    assert_eq!(Fixed { raw: i64::MIN }.neg(), Fixed { raw: i64::MAX });
    assert_eq!(Fixed { raw: i64::MIN }.abs(), Fixed { raw: i64::MAX });
    assert!(fx(0.5).is_positive());
    assert!(!Fixed::zero().is_positive());
    assert!(!fx(-0.5).is_positive());
}

#[test]
fn fixed_cholesky_factor() {
    let a = Cov3::<Fixed>::from_vec(fixeds(&[2.0, -1.0, 0.0, 2.0, -1.0, 2.0])).unwrap();
    let l = a.choldc().unwrap();
    let expected = [
        1.414213562373095,
        0.0,
        0.0,
        -0.7071067811865475,
        1.224744871391589,
        0.0,
        0.0,
        -0.816496580927726,
        1.1547005383792515,
    ];
    assert!(close(&values(l.to_vec()), &expected, 1e-8));
    assert_eq!(a.det(), fx(4.0));
    let inv = a.cholinv().unwrap();
    assert!(close(&values(inv.to_vec()), &[0.75, 0.5, 0.25, 1.0, 0.5, 0.75], 1e-8));
    let unit = [1.0, 0.0, 0.0, 0.0, 1.0, 0.0, 0.0, 0.0, 1.0];
    assert!(close(&values(a.mul(&inv).to_vec()), &unit, 1e-8));
    assert!(close(&values(l.mul(&l.tr()).to_vec()), &values(a.to_dense().to_vec()), 1e-8));
}

#[test]
fn fixed_not_positive_definite() {
    let a = Cov3::<Fixed>::from_vec(fixeds(&[1.0, 2.0, 0.0, 1.0, 0.0, 1.0])).unwrap();
    assert_eq!(a.choldc().err(), Some(CovError::NotPositiveDefinite));
    assert_eq!(a.cholinv().err(), Some(CovError::NotPositiveDefinite));
}

#[test]
fn fixed_identity_congruence_is_exact() {
    let a = Cov3::<Fixed>::from_vec(fixeds(&[4.1, 2.2, 0.6, 5.3, 1.5, 3.7])).unwrap();
    assert_eq!(Jac33::<Fixed>::identity().congruence(&a).to_vec(), a.to_vec());
}

#[test]
fn fixed_dot_product() {
    let a = Vecn::<Fixed, 3>::from_vec(fixeds(&[10.0, 11.0, 12.0])).unwrap();
    assert_eq!(a.dot(&a), fx(365.0));
}
