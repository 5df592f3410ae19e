//! A small fixed-dimension linear-algebra kernel for propagating covariances
//! through linear transformations: packed symmetric matrices, dense matrices,
//! the products between them, and Cholesky factorisation and inversion.
//!
//! The element type is any [`Scalar`]; every result is stated entry by entry
//! over the scalar's own operations, in the order in which they are applied.
//! What holds between the operations is stated in [`laws`]: some of it for
//! every scalar, some of it where the scalar's arithmetic is exact.

pub mod chol;
pub mod cov;
pub mod det;
pub mod error;
pub mod exact;
pub mod exact_chol;
pub mod exact_det;
pub mod fixed;
pub mod jac;
pub mod laws;
pub mod layout;
pub mod meas;
pub mod scalar;
pub mod vecn;

pub use cov::{Cov, Cov3, Cov4, Cov5};
pub use error::CovError;
pub use fixed::Fixed;
pub use jac::{Jac, Jac33, Jac34, Jac35, Jac53, Jac55};
pub use meas::{HMeas, Prong, QMeas, VHMeas, XMeas};
pub use scalar::Scalar;
pub use vecn::{Vec3, Vec4, Vec5, Vecn};
