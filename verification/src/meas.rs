//! Measurements: an estimate together with its covariance.

use vstd::prelude::*;
use crate::cov::{Cov3, Cov4, Cov5};
use crate::jac::{Jac, Jac34};
use crate::scalar::Scalar;
use crate::vecn::{Vec3, Vec4, Vec5};

verus! {

/// A measured position and its covariance.
#[derive(Clone, Debug)]
pub struct XMeas<T: Scalar>(pub Vec3<T>, pub Cov3<T>);

/// Measured helix parameters, their covariance, and a scale weight.
#[derive(Clone, Debug)]
pub struct HMeas<T: Scalar>(pub Vec5<T>, pub Cov5<T>, pub T);

/// Measured momentum parameters, their covariance, and a scale weight.
#[derive(Clone, Debug)]
pub struct QMeas<T: Scalar>(pub Vec3<T>, pub Cov3<T>, pub T);

/// A vertex together with the helices measured around it.
#[derive(Clone, Debug)]
pub struct VHMeas<T: Scalar> {
    pub vertex: XMeas<T>,
    pub helices: Vec<HMeas<T>>,
}

/// The outcome of fitting a vertex to a number of helices.
#[derive(Clone, Debug)]
pub struct Prong<'a, T: Scalar> {
    pub n_prong: usize,
    pub fit_vertex: XMeas<T>,
    pub fit_momenta: Vec<QMeas<T>>,
    pub fit_chi2s: Vec<T>,
    pub measurements: &'a VHMeas<T>,
}

impl<T: Scalar> XMeas<T> {
    /// The same position with the variances multiplied by `scale`: a looser
    /// estimate, the other entries of the covariance left as they are.
    pub fn blowup(&self, scale: T) -> (r: XMeas<T>)
        ensures
            r.0.wf(),
            r.0@ == self.0@,
            self.1.scale_diag_is(scale, r.1),
    {
        XMeas(self.0.clone(), self.1.scale_diag(scale))
    }
}

impl<T: Scalar> XMeas<T> {
    /// The distance of the position from the third axis: the square root of
    /// the sum of the squares of the first two coordinates.
    pub open spec fn rho_spec(self) -> T {
        self.0@[0].mul_spec(self.0@[0]).add_spec(self.0@[1].mul_spec(self.0@[1])).sqrt_spec()
    }

    /// Computes [`XMeas::rho_spec`].
    pub fn rho(&self) -> (r: T)
        ensures
            r == self.rho_spec(),
    {
        let x = self.0.get(0);
        let y = self.0.get(1);
        x.mul(x).add(y.mul(y)).sqrt()
    }
}

impl<T: Scalar> QMeas<T> {
    /// The transverse momentum: the weight over the size of the curvature.
    pub open spec fn pt_spec(self) -> T {
        self.2.div_spec(self.0@[0].abs_spec())
    }

    /// The longitudinal momentum: the transverse momentum times the slope.
    pub open spec fn pz_spec(self) -> T {
        self.pt_spec().mul_spec(self.0@[1])
    }

    /// The energy of a particle of the given mass.
    pub open spec fn energy_spec(self, mass: T) -> T {
        let pt = self.pt_spec();
        let pz = self.pz_spec();
        pt.mul_spec(pt).add_spec(pz.mul_spec(pz)).add_spec(mass.mul_spec(mass)).sqrt_spec()
    }

    /// Transverse and longitudinal momentum, azimuth and energy, in this
    /// order.
    pub open spec fn momentum_spec(self, mass: T) -> Seq<T> {
        seq![self.pt_spec(), self.pz_spec(), self.0@[2], self.energy_spec(mass)]
    }

    /// The derivatives of transverse and longitudinal momentum, azimuth and
    /// energy (the columns) with respect to curvature, slope and azimuth (the
    /// rows), row after row.
    pub open spec fn momentum_jacobian_spec(self, mass: T) -> Seq<T> {
        let w = self.0@[0];
        let tl = self.0@[1];
        let wp = self.2;
        let pt = self.pt_spec();
        let pz = self.pz_spec();
        let e = self.energy_spec(mass);
        let o = T::zero_spec();
        let dpt = wp.neg_spec().div_spec(w).div_spec(w);
        let psq = pz.mul_spec(pz).add_spec(pt.mul_spec(pt));
        seq![
            dpt,
            dpt.mul_spec(tl),
            o,
            psq.neg_spec().div_spec(w).div_spec(e),
            o,
            wp.div_spec(w),
            o,
            pt.mul_spec(pt).mul_spec(tl).div_spec(e),
            o,
            o,
            T::one_spec(),
            o,
        ]
    }

    /// Transverse momentum, longitudinal momentum, azimuth and energy of a
    /// particle of the given mass.
    pub fn momentum(&self, mass: T) -> (p: Vec4<T>)
        ensures
            p.wf(),
            p@ == self.momentum_spec(mass),
    {
        let pt = self.2.div(self.0.get(0).abs());
        let pz = pt.mul(self.0.get(1));
        let e = pt.mul(pt).add(pz.mul(pz)).add(mass.mul(mass)).sqrt();
        let p = Vec4::from_array([pt, pz, self.0.get(2), e]);
        assert(p@ =~= self.momentum_spec(mass));
        p
    }

    /// The Jacobian of [`QMeas::momentum`] with respect to the three
    /// parameters, laid out for [`Jac::congruence`].
    pub fn momentum_jacobian(&self, mass: T) -> (jac: Jac34<T>)
        ensures
            jac.wf(),
            jac@ == self.momentum_jacobian_spec(mass),
    {
        let w = self.0.get(0);
        let tl = self.0.get(1);
        let wp = self.2;
        let pt = wp.div(w.abs());
        let pz = pt.mul(tl);
        let e = pt.mul(pt).add(pz.mul(pz)).add(mass.mul(mass)).sqrt();
        let o = T::zero();
        let dpt = wp.neg().div(w).div(w);
        let psq = pz.mul(pz).add(pt.mul(pt));
        let mut v: Vec<T> = Vec::new();
        v.push(dpt);
        v.push(dpt.mul(tl));
        v.push(o);
        v.push(psq.neg().div(w).div(e));
        v.push(o);
        v.push(wp.div(w));
        v.push(o);
        v.push(pt.mul(pt).mul(tl).div(e));
        v.push(o);
        v.push(o);
        v.push(T::one());
        v.push(o);
        assert(v@ =~= self.momentum_jacobian_spec(mass));
        Jac::assemble(v)
    }

    /// The covariance of [`QMeas::momentum`]: the covariance of the three
    /// parameters transformed by [`QMeas::momentum_jacobian`].
    pub fn momentum_cov(&self, mass: T) -> (c: Cov4<T>)
        ensures
            exists|jac: Jac34<T>|
                jac.wf() && jac@ == self.momentum_jacobian_spec(mass) && jac.congruence_is(
                    self.1,
                    c,
                ),
    {
        let jac = self.momentum_jacobian(mass);
        jac.congruence(&self.1)
    }

    /// The momentum part of a helix measurement: its first three parameters,
    /// the leading block of its covariance, and its weight.
    pub fn from_helix(hm: &HMeas<T>) -> (q: QMeas<T>)
        ensures
            q.0.wf(),
            q.0@ == hm.0@.take(3),
            hm.1.leading_is(q.1),
            q.2 == hm.2,
    {
        let h = &hm.0;
        let head = Vec3::from_array([h.get(0), h.get(1), h.get(2)]);
        proof {
            use_type_invariant(h);
            assert(head@ =~= hm.0@.take(3));
        }
        QMeas(head, hm.1.leading_within::<3>(), hm.2)
    }
}

} // verus!
