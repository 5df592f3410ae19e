use covmat::layout::{dense_idx, packed_idx, packed_size};
use covmat::meas::{HMeas, QMeas, XMeas};
use covmat::{Cov, Cov3, Cov5, CovError, Jac, Jac33, Jac34, Scalar, Vecn};

/// Double-precision numbers as the scalars of the kernel.
#[derive(Clone, Copy, Debug, PartialEq)]
struct Real(f64);

impl Scalar for Real {
    fn zero_spec() -> Self {
        Self::zero()
    }

    fn one_spec() -> Self {
        Self::one()
    }

    fn add_spec(self, rhs: Self) -> Self {
        self.add(rhs)
    }

    fn sub_spec(self, rhs: Self) -> Self {
        self.sub(rhs)
    }

    fn mul_spec(self, rhs: Self) -> Self {
        self.mul(rhs)
    }

    fn div_spec(self, rhs: Self) -> Self {
        self.div(rhs)
    }

    fn sqrt_spec(self) -> Self {
        self.sqrt()
    }

    fn neg_spec(self) -> Self {
        self.neg()
    }

    fn abs_spec(self) -> Self {
        self.abs()
    }

    fn positive_spec(self) -> bool {
        self.is_positive()
    }

    fn zero() -> Self {
        Real(0.0)
    }

    fn one() -> Self {
        Real(1.0)
    }

    fn add(self, rhs: Self) -> Self {
        Real(self.0 + rhs.0)
    }

    fn sub(self, rhs: Self) -> Self {
        Real(self.0 - rhs.0)
    }

    fn mul(self, rhs: Self) -> Self {
        Real(self.0 * rhs.0)
    }

    fn div(self, rhs: Self) -> Self {
        Real(self.0 / rhs.0)
    }

    fn sqrt(self) -> Self {
        Real(self.0.sqrt())
    }

    fn neg(self) -> Self {
        Real(-self.0)
    }

    fn abs(self) -> Self {
        Real(self.0.abs())
    }

    fn is_positive(self) -> bool {
        self.0 > 0.0
    }
}

fn reals(xs: &[f64]) -> Vec<Real> {
    xs.iter().map(|x| Real(*x)).collect()
}

fn floats(xs: Vec<Real>) -> Vec<f64> {
    xs.into_iter().map(|x| x.0).collect()
}

fn cov3(xs: [f64; 6]) -> Cov3<Real> {
    Cov::from_vec(reals(&xs)).unwrap()
}

fn cov5(xs: [f64; 15]) -> Cov5<Real> {
    Cov::from_vec(reals(&xs)).unwrap()
}

fn tridiagonal3() -> Cov3<Real> {
    cov3([2.0, -1.0, 0.0, 2.0, -1.0, 2.0])
}

fn tridiagonal5() -> Cov5<Real> {
    cov5([2.0, -1.0, 0.0, 0.0, 0.0, 2.0, -1.0, 0.0, 0.0, 2.0, 0.0, 0.0, 2.0, 0.0, 2.0])
}

fn full5() -> Cov5<Real> {
    cov5([6.0, 1.0, 0.5, 0.25, 1.0, 5.0, 1.0, 0.5, 0.25, 4.0, 1.0, 0.5, 3.0, 1.0, 2.0])
}

fn close(a: &[f64], b: &[f64], tol: f64) -> bool {
    a.len() == b.len() && a.iter().zip(b).all(|(x, y)| (x - y).abs() <= tol * (1.0 + y.abs()))
}

fn identity(n: usize) -> Vec<f64> {
    (0..n * n).map(|k| if k / n == k % n { 1.0 } else { 0.0 }).collect()
}

fn product_of_squares(diag: Vec<f64>) -> f64 {
    diag.iter().fold(1.0, |p, x| p * x * x)
}

#[test]
fn test_cov() {
    let ch3 = tridiagonal3();
    let ch5 = tridiagonal5();

    let res = format!(
        "
chol: -----------------
A = L * L^T             {:?}
L                       {:?}
L * L^T                 {:?}
A^(-1) = L' * L'^T      {:?}
A * A^(-1)              {:?}
A = L * L^T             {:?}
L                       {:?}
L * L^T                 {:?}
A^(-1) = L' * L'^T      {:?}
A * A^(-1)              {:?}
det this                {:?}
",
        ch3,
        ch3.choldc().unwrap(),
        ch3.choldc().unwrap().mul(&ch3.choldc().unwrap().tr()),
        ch3.cholinv().unwrap(),
        ch3.clone().mul(&ch3.cholinv().unwrap()),
        ch5,
        ch5.choldc().unwrap(),
        ch5.choldc().unwrap().mul(&ch5.choldc().unwrap().tr()),
        ch5.cholinv().unwrap(),
        ch5.clone().mul(&ch5.cholinv().unwrap()),
        ch5.det(),
    );

    assert!(true, "test failed with '{}'", res);
}

#[test]
fn cholesky_factor_of_tridiagonal() {
    let l = tridiagonal3().choldc().unwrap();
    let expected = [
        1.414213562373095,
        0.0,
        0.0,
        -0.7071067811865475,
        1.224744871391589,
        0.0,
        0.0,
        -0.816496580927726,
        1.1547005383792515,
    ];
    assert!(close(&floats(l.to_vec()), &expected, 1e-12));
}

#[test]
fn cholesky_factor_is_zero_above_the_diagonal() {
    let l = full5().choldc().unwrap().to_vec();
    for i in 0..5 {
        for j in (i + 1)..5 {
            assert_eq!(l[i * 5 + j], Real(0.0));
        }
    }
}

#[test]
fn determinant_of_tridiagonal() {
    assert_eq!(tridiagonal3().det(), Real(4.0));
    assert_eq!(tridiagonal5().det(), Real(16.0));
}

#[test]
fn determinant_of_small_matrices() {
    let one = Cov::<Real, 1>::from_vec(reals(&[7.0])).unwrap();
    assert_eq!(one.det(), Real(7.0));
    let two = Cov::<Real, 2>::from_vec(reals(&[2.0, 3.0, 5.0])).unwrap();
    assert_eq!(two.det(), Real(1.0));
    let four = Cov::<Real, 4>::from_vec(reals(&[
        2.0, 1.0, 0.0, 0.0, 2.0, 1.0, 0.0, 2.0, 1.0, 2.0,
    ]))
    .unwrap();
    assert_eq!(four.det(), Real(5.0));
}

#[test]
fn inverse_of_tridiagonal() {
    let a = tridiagonal3();
    let inv = a.cholinv().unwrap();
    assert!(close(&floats(inv.to_vec()), &[0.75, 0.5, 0.25, 1.0, 0.5, 0.75], 1e-12));
    let product = a.mul(&inv);
    assert!(close(&floats(product.to_vec()), &identity(3), 1e-9));
}

#[test]
fn reconstruction_from_factor() {
    let a3 = tridiagonal3();
    let l3 = a3.choldc().unwrap();
    assert!(close(&floats(l3.mul(&l3.tr()).to_vec()), &floats(a3.to_dense().to_vec()), 1e-9));

    let a5 = full5();
    let l5 = a5.choldc().unwrap();
    assert!(close(&floats(l5.mul(&l5.tr()).to_vec()), &floats(a5.to_dense().to_vec()), 1e-9));
}

#[test]
fn reconstruction_by_congruence_of_identity() {
    let a = full5();
    let l = a.choldc().unwrap();
    let unit = Cov5::<Real>::from_vec(reals(&identity(5))).unwrap();
    let back = l.tr().congruence(&unit);
    assert!(close(&floats(back.to_vec()), &floats(a.to_vec()), 1e-9));
}

#[test]
fn matrix_times_inverse_is_identity() {
    let a3 = cov3([4.0, 2.0, 0.6, 5.0, 1.5, 3.0]);
    assert!(close(&floats(a3.mul(&a3.cholinv().unwrap()).to_vec()), &identity(3), 1e-9));

    let a5 = full5();
    assert!(close(&floats(a5.mul(&a5.cholinv().unwrap()).to_vec()), &identity(5), 1e-9));

    let t5 = tridiagonal5();
    assert!(close(&floats(t5.mul(&t5.cholinv().unwrap()).to_vec()), &identity(5), 1e-9));
}

#[test]
fn determinant_agrees_with_factor() {
    let a3 = cov3([4.0, 2.0, 0.6, 5.0, 1.5, 3.0]);
    let l3 = a3.choldc().unwrap();
    let d3 = product_of_squares(floats(l3.to_vec()).iter().step_by(4).cloned().collect());
    assert!(close(&[a3.det().0], &[d3], 1e-9));

    let a5 = full5();
    let l5 = a5.choldc().unwrap();
    let d5 = product_of_squares(floats(l5.to_vec()).iter().step_by(6).cloned().collect());
    assert!(close(&[a5.det().0], &[d5], 1e-9));
}

#[test]
fn identity_jacobian_leaves_covariance_unchanged() {
    let a3 = cov3([4.0, 2.0, 0.6, 5.0, 1.5, 3.0]);
    assert_eq!(Jac33::<Real>::identity().congruence(&a3).to_vec(), a3.to_vec());

    let a5 = full5();
    assert_eq!(Jac::<Real, 5, 5>::identity().congruence(&a5).to_vec(), a5.to_vec());
}

#[test]
fn diagonal_of_sum_is_sum_of_diagonals() {
    let a = cov3([4.0, 2.0, 0.6, 5.0, 1.5, 3.0]);
    let b = tridiagonal3();
    let sum = a.add(&b);
    assert_eq!(sum.to_vec(), reals(&[6.0, 1.0, 0.6, 7.0, 0.5, 5.0]));
    assert_eq!(sum.diag().to_vec(), a.diag().add(&b.diag()).to_vec());
    assert_eq!(sum.diag().to_vec(), reals(&[6.0, 7.0, 5.0]));
}

#[test]
fn diagonal_of_leading_block() {
    let a = full5();
    let block = a.leading::<3>().unwrap();
    assert_eq!(block.to_vec(), reals(&[6.0, 1.0, 0.5, 5.0, 1.0, 4.0]));
    assert_eq!(block.diag().to_vec(), a.diag().to_vec()[..3].to_vec());
    assert_eq!(a.diag().to_vec(), reals(&[6.0, 5.0, 4.0, 3.0, 2.0]));
}

#[test]
fn leading_block_larger_than_matrix() {
    let a = tridiagonal3();
    assert_eq!(a.leading::<5>().err(), Some(CovError::DimensionIncompatible));
    assert_eq!(a.leading::<3>().unwrap().to_vec(), a.to_vec());
}

#[test]
fn shape_error_on_five_elements() {
    let r = Cov3::<Real>::from_vec(reals(&[1.0, 2.0, 3.0, 4.0, 5.0]));
    assert_eq!(r.err(), Some(CovError::ShapeMismatch));
}

#[test]
fn shape_error_on_other_lengths() {
    for len in [0usize, 1, 7, 8, 10, 16] {
        let r = Cov3::<Real>::from_vec(vec![Real(1.0); len]);
        assert_eq!(r.err(), Some(CovError::ShapeMismatch));
    }
    for len in [0usize, 14, 16, 24, 26] {
        let r = Cov5::<Real>::from_slice(&vec![Real(1.0); len]);
        assert_eq!(r.err(), Some(CovError::ShapeMismatch));
    }
}

#[test]
fn not_positive_definite_is_reported() {
    let a = cov3([1.0, 2.0, 0.0, 1.0, 0.0, 1.0]);
    assert_eq!(a.choldc().err(), Some(CovError::NotPositiveDefinite));
    assert_eq!(a.cholinv().err(), Some(CovError::NotPositiveDefinite));
}

#[test]
fn zero_pivot_is_reported() {
    let a = cov3([1.0, 1.0, 0.0, 1.0, 0.0, 1.0]);
    assert_eq!(a.choldc().err(), Some(CovError::NotPositiveDefinite));
    let zero = cov3([0.0; 6]);
    assert_eq!(zero.cholinv().err(), Some(CovError::NotPositiveDefinite));
}

#[test]
fn not_a_number_is_reported() {
    let a = cov3([f64::NAN, 0.0, 0.0, 1.0, 0.0, 1.0]);
    assert_eq!(a.choldc().err(), Some(CovError::NotPositiveDefinite));
}

#[test]
fn packed_buffer_is_taken_as_it_is() {
    let c = cov3([1.0, 2.0, 3.0, 4.0, 5.0, 6.0]);
    assert_eq!(c.to_vec(), reals(&[1.0, 2.0, 3.0, 4.0, 5.0, 6.0]));
    assert_eq!(c.get(1, 2), Real(5.0));
    assert_eq!(c.get(2, 1), Real(5.0));
    assert_eq!(c.get(2, 2), Real(6.0));
}

#[test]
fn dense_buffer_keeps_upper_triangle() {
    let c = Cov3::<Real>::from_vec(reals(&[1.0, 2.0, 3.0, 4.0, 5.0, 6.0, 7.0, 8.0, 9.0])).unwrap();
    assert_eq!(c.to_vec(), reals(&[1.0, 2.0, 3.0, 5.0, 6.0, 9.0]));

    let raw: Vec<f64> = (0..25).map(|k| k as f64).collect();
    let c5 = Cov5::<Real>::from_slice(&reals(&raw)).unwrap();
    assert_eq!(
        c5.to_vec(),
        reals(&[
            0.0, 1.0, 2.0, 3.0, 4.0, 6.0, 7.0, 8.0, 9.0, 12.0, 13.0, 14.0, 18.0, 19.0, 24.0
        ])
    );

    let raw: Vec<f64> = (0..16).map(|k| k as f64).collect();
    let c4 = Cov::<Real, 4>::from_vec(reals(&raw)).unwrap();
    assert_eq!(c4.to_vec(), reals(&[0.0, 1.0, 2.0, 3.0, 5.0, 6.0, 7.0, 10.0, 11.0, 15.0]));
}

#[test]
fn dense_expansion_is_symmetric() {
    let c = cov3([1.0, 2.0, 3.0, 4.0, 5.0, 6.0]);
    assert_eq!(
        c.to_dense().to_vec(),
        reals(&[1.0, 2.0, 3.0, 2.0, 4.0, 5.0, 3.0, 5.0, 6.0])
    );
}

#[test]
fn diagonal_scaling_leaves_the_rest() {
    let c = cov3([1.0, 2.0, 3.0, 4.0, 5.0, 6.0]);
    assert_eq!(c.scale_diag(Real(10.0)).to_vec(), reals(&[10.0, 2.0, 3.0, 40.0, 5.0, 60.0]));
    assert_eq!(c.diag().to_vec(), reals(&[1.0, 4.0, 6.0]));
    let c4 = Cov::<Real, 4>::from_vec(reals(&[
        1.0, 2.0, 3.0, 4.0, 5.0, 6.0, 7.0, 8.0, 9.0, 10.0,
    ]))
    .unwrap();
    assert_eq!(c4.diag().to_vec(), reals(&[1.0, 5.0, 8.0, 10.0]));
}

#[test]
fn standard_deviations() {
    let c = cov3([4.0, 2.0, 3.0, 9.0, 5.0, 0.25]);
    assert_eq!(c.sigmas().to_vec(), reals(&[2.0, 3.0, 0.5]));
}

#[test]
fn product_of_symmetric_matrices() {
    let a = tridiagonal3();
    let b = cov3([1.0, 2.0, 3.0, 4.0, 5.0, 6.0]);
    assert_eq!(
        a.mul(&b).to_vec(),
        reals(&[0.0, 0.0, 1.0, 0.0, 1.0, 1.0, 4.0, 6.0, 7.0])
    );
}

#[test]
fn product_of_dense_matrices() {
    let j = Jac33::<Real>::from_vec(reals(&[1.0, 2.0, 3.0, 4.0, 5.0, 6.0, 7.0, 8.0, 10.0])).unwrap();
    let k = Jac33::<Real>::from_vec(reals(&[1.0, 0.0, 2.0, 0.0, 1.0, 0.0, 3.0, 0.0, 1.0])).unwrap();
    assert_eq!(
        j.mul(&k).to_vec(),
        reals(&[10.0, 2.0, 5.0, 22.0, 5.0, 14.0, 37.0, 8.0, 24.0])
    );

    let p = Jac::<Real, 2, 3>::from_vec(reals(&[1.0, 2.0, 3.0, 4.0, 5.0, 6.0])).unwrap();
    let q = Jac::<Real, 3, 2>::from_vec(reals(&[1.0, 0.0, 0.0, 1.0, 2.0, 2.0])).unwrap();
    assert_eq!(p.mul(&q).to_vec(), reals(&[7.0, 8.0, 16.0, 17.0]));
}

#[test]
fn sum_of_dense_matrices() {
    let j = Jac33::<Real>::from_vec(reals(&[1.0, 2.0, 3.0, 4.0, 5.0, 6.0, 7.0, 8.0, 10.0])).unwrap();
    let k = Jac33::<Real>::from_vec(reals(&[1.0, 0.0, 2.0, 0.0, 1.0, 0.0, 3.0, 0.0, 1.0])).unwrap();
    assert_eq!(
        j.add(&k).to_vec(),
        reals(&[2.0, 2.0, 5.0, 4.0, 6.0, 6.0, 10.0, 8.0, 11.0])
    );
}

#[test]
fn transpose_of_rectangular() {
    let j = Jac::<Real, 2, 3>::from_vec(reals(&[1.0, 2.0, 3.0, 4.0, 5.0, 6.0])).unwrap();
    assert_eq!(j.tr().to_vec(), reals(&[1.0, 4.0, 2.0, 5.0, 3.0, 6.0]));
    assert_eq!(j.tr().tr().to_vec(), j.to_vec());
    assert_eq!(j.get(1, 0), Real(4.0));

    let raw: Vec<f64> = (0..15).map(|k| k as f64).collect();
    let j53 = Jac::<Real, 5, 3>::from_vec(reals(&raw)).unwrap();
    assert_eq!(
        j53.tr().to_vec(),
        reals(&[
            0.0, 3.0, 6.0, 9.0, 12.0, 1.0, 4.0, 7.0, 10.0, 13.0, 2.0, 5.0, 8.0, 11.0, 14.0
        ])
    );
}

#[test]
fn dense_matrix_from_buffers() {
    let long: Vec<f64> = (0..30).map(|k| k as f64).collect();
    let j = Jac::<Real, 5, 5>::from_vec(reals(&long)).unwrap();
    assert_eq!(j.to_vec(), reals(&long[..25]));
    let short = Jac::<Real, 5, 5>::from_vec(reals(&long[..24]));
    assert_eq!(short.err(), Some(CovError::ShapeMismatch));
}

#[test]
fn congruence_with_rectangular_jacobian() {
    let s = Jac34::<Real>::from_vec(reals(&[
        1.0, 2.0, 0.0, 1.0, 0.0, 1.0, 1.0, 0.0, 1.0, 0.0, 0.0, 2.0,
    ]))
    .unwrap();
    let c = tridiagonal3();
    assert_eq!(
        c.mul_jac(&s).to_vec(),
        reals(&[2.0, 3.0, -1.0, 2.0, -2.0, 0.0, 2.0, -3.0, 2.0, -1.0, -1.0, 4.0])
    );
    assert_eq!(
        s.congruence(&c).to_vec(),
        reals(&[4.0, 2.0, -2.0, 6.0, 6.0, 0.0, 1.0, 2.0, -3.0, 10.0])
    );
}

#[test]
fn congruence_with_square_jacobian() {
    let j = Jac33::<Real>::from_vec(reals(&[1.0, 2.0, 3.0, 4.0, 5.0, 6.0, 7.0, 8.0, 10.0])).unwrap();
    assert_eq!(
        j.congruence(&tridiagonal3()).to_vec(),
        reals(&[68.0, 76.0, 94.0, 86.0, 107.0, 134.0])
    );
}

#[test]
fn vector_from_buffers() {
    let v = Vecn::<Real, 3>::from_vec(reals(&[1.0, 2.0, 3.0, 4.0])).unwrap();
    assert_eq!(v.to_vec(), reals(&[1.0, 2.0, 3.0]));
    assert_eq!(v.get(2), Real(3.0));
    let short = Vecn::<Real, 3>::from_vec(reals(&[1.0, 2.0]));
    assert_eq!(short.err(), Some(CovError::ShapeMismatch));
    let v5 = Vecn::<Real, 5>::from_array([Real(1.0), Real(2.0), Real(3.0), Real(4.0), Real(5.0)]);
    assert_eq!(v5.to_vec(), reals(&[1.0, 2.0, 3.0, 4.0, 5.0]));
}

#[test]
fn vector_sum_and_dot_product() {
    let a = Vecn::<Real, 3>::from_array([Real(10.0), Real(11.0), Real(12.0)]);
    assert_eq!(a.dot(&a), Real(365.0));
    let b = Vecn::<Real, 4>::from_vec(reals(&[1.0, 2.0, 3.0, 4.0])).unwrap();
    let c = Vecn::<Real, 4>::from_vec(reals(&[0.5, 0.5, -3.0, 1.0])).unwrap();
    assert_eq!(b.add(&c).to_vec(), reals(&[1.5, 2.5, 0.0, 5.0]));
    assert_eq!(b.dot(&c), Real(-3.5));
}

#[test]
fn clones_hold_the_same_entries() {
    let a = full5();
    assert_eq!(a.clone().to_vec(), a.to_vec());
    let l = a.choldc().unwrap();
    assert_eq!(l.clone().to_vec(), l.to_vec());
    let d = a.diag();
    assert_eq!(d.clone().to_vec(), d.to_vec());
}

#[test]
fn blowup_scales_the_variances() {
    let x = XMeas(
        Vecn::from_array([Real(3.0), Real(4.0), Real(12.0)]),
        cov3([1.0, 2.0, 3.0, 4.0, 5.0, 6.0]),
    );
    let loose = x.blowup(Real(100.0));
    assert_eq!(loose.0.to_vec(), reals(&[3.0, 4.0, 12.0]));
    assert_eq!(loose.1.to_vec(), reals(&[100.0, 2.0, 3.0, 400.0, 5.0, 600.0]));
    assert_eq!(x.rho(), Real(5.0));
}

#[test]
fn momentum_part_of_a_helix() {
    let h = HMeas(
        Vecn::from_array([Real(1.0), Real(2.0), Real(3.0), Real(4.0), Real(5.0)]),
        full5(),
        Real(0.25),
    );
    let q = QMeas::from_helix(&h);
    assert_eq!(q.0.to_vec(), reals(&[1.0, 2.0, 3.0]));
    assert_eq!(q.1.to_vec(), reals(&[6.0, 1.0, 0.5, 5.0, 1.0, 4.0]));
    assert_eq!(q.1.diag().to_vec(), h.1.diag().to_vec()[..3].to_vec());
    assert_eq!(q.2, Real(0.25));
}

#[test]
fn momentum_and_its_jacobian() {
    let q = QMeas(
        Vecn::from_array([Real(-2.0), Real(0.5), Real(1.0)]),
        tridiagonal3(),
        Real(4.0),
    );
    let mass = Real(2.0);
    assert_eq!(q.momentum(mass).to_vec(), reals(&[2.0, 1.0, 1.0, 3.0]));
    let jac = q.momentum_jacobian(mass);
    assert_eq!(
        jac.to_vec(),
        reals(&[
            -1.0,
            -0.5,
            0.0,
            (-5.0 / -2.0) / 3.0,
            0.0,
            -2.0,
            0.0,
            (4.0 * 0.5) / 3.0,
            0.0,
            0.0,
            1.0,
            0.0,
        ])
    );
    assert_eq!(q.momentum_cov(mass).to_vec(), jac.congruence(&q.1).to_vec());
    let diag = floats(q.momentum_cov(mass).diag().to_vec());
    assert!(close(&diag, &[2.0, 6.5, 2.0, 7.0 / 6.0], 1e-12));
}

#[test]
fn packed_positions() {
    assert_eq!(packed_size(0), Some(0));
    assert_eq!(packed_size(1), Some(1));
    assert_eq!(packed_size(3), Some(6));
    assert_eq!(packed_size(4), Some(10));
    assert_eq!(packed_size(5), Some(15));
    assert_eq!(packed_size(usize::MAX), None);

    let expected3 = [[0, 1, 2], [1, 3, 4], [2, 4, 5]];
    for i in 0..3 {
        for j in 0..3 {
            assert_eq!(packed_idx(3, i, j), expected3[i][j]);
        }
    }
    for n in 1..6 {
        let mut next = 0;
        for i in 0..n {
            for j in i..n {
                assert_eq!(packed_idx(n, i, j), j + i * n - i * (i + 1) / 2);
                assert_eq!(packed_idx(n, j, i), next);
                next += 1;
            }
        }
        assert_eq!(Some(next), packed_size(n));
    }
    assert_eq!(packed_idx(5, 4, 4), 14);
    assert_eq!(packed_idx(5, 1, 3), 7);
}

#[test]
fn dense_positions() {
    assert_eq!(dense_idx(4, 0, 0), 0);
    assert_eq!(dense_idx(4, 2, 3), 11);
    assert_eq!(dense_idx(3, 4, 1), 13);
}

#[test]
fn defaults_are_zero() {
    assert_eq!(Vecn::<Real, 4>::default().to_vec(), reals(&[0.0; 4]));
    assert_eq!(Cov3::<Real>::default().to_vec(), reals(&[0.0; 6]));
    assert_eq!(Cov5::<Real>::default().to_vec(), reals(&[0.0; 15]));
    assert_eq!(Jac34::<Real>::default().to_vec(), reals(&[0.0; 12]));
}
