//! Dense matrices: Jacobians and Cholesky factors.

use vstd::prelude::*;
use crate::cov::Cov;
use crate::error::CovError;
use crate::layout::{
    dense_filled, dense_idx, dense_index, lemma_dense_empty, lemma_dense_index_bounds,
    lemma_dense_push, lemma_packed_empty, lemma_packed_ends, lemma_packed_index_bounds,
    lemma_packed_push, lemma_row_major_step, lemma_row_step, packed_filled, packed_index,
};
use crate::scalar::{sum_upto, Scalar};

verus! {

/// An `R`×`C` matrix, every entry stored, row after row.
#[derive(Debug)]
pub struct Jac<T, const R: usize, const C: usize> {
    v: Vec<T>,
}

/// A 3×3 dense matrix.
pub type Jac33<T> = Jac<T, 3, 3>;

/// A dense matrix of 3 rows and 4 columns.
pub type Jac34<T> = Jac<T, 3, 4>;

/// A dense matrix of 3 rows and 5 columns.
pub type Jac35<T> = Jac<T, 3, 5>;

/// A dense matrix of 5 rows and 3 columns.
pub type Jac53<T> = Jac<T, 5, 3>;

/// A 5×5 dense matrix.
pub type Jac55<T> = Jac<T, 5, 5>;

impl<T, const R: usize, const C: usize> View for Jac<T, R, C> {
    type V = Seq<T>;

    closed spec fn view(&self) -> Seq<T> {
        self.v@
    }
}

impl<T, const R: usize, const C: usize> Jac<T, R, C> {
    /// The matrix holds exactly `R * C` entries.
    #[verifier::type_invariant]
    pub open spec fn wf(self) -> bool {
        self@.len() == R * C
    }

    /// The entry in row `i` and column `j`.
    pub open spec fn at(self, i: int, j: int) -> T {
        self@[dense_index(C as int, i, j)]
    }

    /// The transposed matrix, entry by entry.
    pub open spec fn tr_entry(self) -> spec_fn(int, int) -> T {
        |i: int, j: int| self.at(j, i)
    }

    /// `t` is the transpose: its rows are the columns of this matrix.
    pub open spec fn tr_is(self, t: Jac<T, C, R>) -> bool {
        &&& t.wf()
        &&& forall|i: int, j: int|
            0 <= i < C && 0 <= j < R ==> #[trigger] t.at(i, j) == self.at(j, i)
    }
}

impl<T: Scalar, const R: usize, const C: usize> Jac<T, R, C> {
    /// The `k`-th term of entry `(i, j)` of the product with `other`.
    pub open spec fn mul_term<const D: usize>(self, other: Jac<T, C, D>, i: int, j: int) -> spec_fn(
        int,
    ) -> T {
        |k: int| self.at(i, k).mul_spec(other.at(k, j))
    }

    /// Entry `(i, j)` of the product with `other`: row `i` of `self` times
    /// column `j` of `other`, summed from the first term to the last.
    pub open spec fn mul_entry<const D: usize>(self, other: Jac<T, C, D>, i: int, j: int) -> T {
        sum_upto(self.mul_term(other, i, j), C as int)
    }

    /// The product with `other`, entry by entry.
    pub open spec fn mul_entries<const D: usize>(self, other: Jac<T, C, D>) -> spec_fn(
        int,
        int,
    ) -> T {
        |i: int, j: int| self.mul_entry(other, i, j)
    }

    /// The `k`-th term of entry `(i, j)` of the congruence transform of `cov`:
    /// entry `(k, i)` of `self` times entry `(k, j)` of `cov · self`.
    pub open spec fn congruence_term(self, cov: Cov<T, R>, i: int, j: int) -> spec_fn(int) -> T {
        |k: int| self.at(k, i).mul_spec(cov.mul_jac_entry(self, k, j))
    }

    /// Entry `(i, j)` of the congruence transform of `cov`: column `i` of
    /// `self` times column `j` of `cov · self`, summed from the first term to
    /// the last.
    pub open spec fn congruence_entry(self, cov: Cov<T, R>, i: int, j: int) -> T {
        sum_upto(self.congruence_term(cov, i, j), R as int)
    }

    /// The congruence transform of `cov`, entry by entry.
    pub open spec fn congruence_entries(self, cov: Cov<T, R>) -> spec_fn(int, int) -> T {
        |i: int, j: int| self.congruence_entry(cov, i, j)
    }

    /// `sum` is this matrix plus `other`, entry by entry.
    pub open spec fn sum_is(self, other: Self, sum: Self) -> bool {
        &&& sum.wf()
        &&& forall|k: int| 0 <= k < R * C ==> #[trigger] sum@[k] == self@[k].add_spec(other@[k])
    }

    /// `product` is the matrix product `self · other`.
    pub open spec fn product_is<const D: usize>(
        self,
        other: Jac<T, C, D>,
        product: Jac<T, R, D>,
    ) -> bool {
        &&& product.wf()
        &&& forall|i: int, j: int|
            0 <= i < R && 0 <= j < D ==> #[trigger] product.at(i, j) == self.mul_entry(other, i, j)
    }

    /// `out` is the congruence transform `selfᵗ · cov · self`.
    pub open spec fn congruence_is(self, cov: Cov<T, R>, out: Cov<T, C>) -> bool {
        &&& out.wf()
        &&& forall|i: int, j: int|
            0 <= i <= j < C ==> #[trigger] out.at(i, j) == self.congruence_entry(cov, i, j)
    }

    /// The matrix whose rows are laid out in `v`.
    pub(crate) fn assemble(v: Vec<T>) -> (r: Self)
        requires
            v@.len() == R * C,
        ensures
            r.wf(),
            r@ == v@,
    {
        Jac { v }
    }

    /// Takes the first `R * C` elements of `raw` as the rows of the matrix; a
    /// shorter buffer is refused.
    pub fn from_vec(raw: Vec<T>) -> (r: Result<Self, CovError>)
        ensures
            match r {
                Ok(x) => raw@.len() >= R * C && x.wf() && x@ == raw@.take(R * C),
                Err(e) => raw@.len() < R * C && e == CovError::ShapeMismatch,
            },
    {
        let size = match R.checked_mul(C) {
            Some(size) => size,
            None => {
                assert(raw@.len() == raw.len());
                return Err(CovError::ShapeMismatch);
            },
        };
        if raw.len() < size {
            return Err(CovError::ShapeMismatch);
        }
        let mut v: Vec<T> = Vec::new();
        let mut k: usize = 0;
        while k < size
            invariant
                k <= size <= raw@.len(),
                v@ == raw@.take(k as int),
            decreases size - k,
        {
            v.push(raw[k]);
            assert(v@ == raw@.take(k + 1));
            k += 1;
        }
        Ok(Jac { v })
    }

    /// The entry in row `i` and column `j`.
    pub fn get(&self, i: usize, j: usize) -> (x: T)
        requires
            i < R,
            j < C,
        ensures
            x == self.at(i as int, j as int),
    {
        proof {
            use_type_invariant(self);
            assert(self@.len() == self.v.len());
            lemma_dense_index_bounds(R as int, C as int, i as int, j as int);
        }
        self.v[dense_idx(C, i, j)]
    }

    /// The entries, row after row.
    pub fn to_vec(&self) -> (r: Vec<T>)
        ensures
            r@ == self@,
    {
        let mut out: Vec<T> = Vec::new();
        let n = self.v.len();
        let mut k: usize = 0;
        while k < n
            invariant
                k <= n,
                n == self@.len(),
                out@ == self@.take(k as int),
            decreases n - k,
        {
            out.push(self.v[k]);
            assert(out@ == self@.take(k + 1));
            k += 1;
        }
        assert(self@.take(n as int) == self@);
        out
    }

    /// The transpose: rows become columns.
    pub fn tr(&self) -> (r: Jac<T, C, R>)
        ensures
            self.tr_is(r),
    {
        proof {
            use_type_invariant(self);
        }
        let ghost f = self.tr_entry();
        let mut v: Vec<T> = Vec::new();
        let mut i: usize = 0;
        proof {
            lemma_dense_empty(C as int, R as int, f);
        }
        while i < C
            invariant
                i <= C,
                self.wf(),
                f == self.tr_entry(),
                v@.len() == i * R,
                dense_filled(v@, C as int, R as int, f),
            decreases C - i,
        {
            let mut j: usize = 0;
            while j < R
                invariant
                    i < C,
                    j <= R,
                    self.wf(),
                    f == self.tr_entry(),
                    v@.len() == i * R + j,
                    dense_filled(v@, C as int, R as int, f),
                decreases R - j,
            {
                let x = self.get(j, i);
                proof {
                    lemma_dense_push(v@, C as int, R as int, f, i as int, j as int, x);
                }
                v.push(x);
                j += 1;
            }
            proof {
                lemma_row_major_step(R as int, i as int);
            }
            i += 1;
        }
        let r: Jac<T, C, R> = Jac { v };
        proof {
            assert forall|i: int, j: int| 0 <= i < C && 0 <= j < R implies r.at(i, j) == self.at(
                j,
                i,
            ) by {
                lemma_dense_index_bounds(C as int, R as int, i, j);
            }
        }
        r
    }

    /// Entry-wise sum.
    pub fn add(&self, other: &Self) -> (r: Self)
        ensures
            self.sum_is(*other, r),
    {
        proof {
            use_type_invariant(self);
            use_type_invariant(other);
        }
        let n = self.v.len();
        let mut v: Vec<T> = Vec::new();
        let mut k: usize = 0;
        while k < n
            invariant
                k <= n,
                n == R * C,
                self.wf(),
                other.wf(),
                v@.len() == k,
                forall|m: int| 0 <= m < k ==> v@[m] == #[trigger] self@[m].add_spec(other@[m]),
            decreases n - k,
        {
            v.push(self.v[k].add(other.v[k]));
            k += 1;
        }
        Jac { v }
    }

    /// The matrix product `self · other`.
    pub fn mul<const D: usize>(&self, other: &Jac<T, C, D>) -> (r: Jac<T, R, D>)
        ensures
            self.product_is(*other, r),
    {
        let ghost f = self.mul_entries(*other);
        let mut v: Vec<T> = Vec::new();
        let mut i: usize = 0;
        proof {
            lemma_dense_empty(R as int, D as int, f);
        }
        while i < R
            invariant
                i <= R,
                f == self.mul_entries(*other),
                v@.len() == i * D,
                dense_filled(v@, R as int, D as int, f),
            decreases R - i,
        {
            let mut j: usize = 0;
            while j < D
                invariant
                    i < R,
                    j <= D,
                    f == self.mul_entries(*other),
                    v@.len() == i * D + j,
                    dense_filled(v@, R as int, D as int, f),
                decreases D - j,
            {
                let mut s = T::zero();
                let mut k: usize = 0;
                while k < C
                    invariant
                        i < R,
                        j < D,
                        k <= C,
                        s == sum_upto(self.mul_term(*other, i as int, j as int), k as int),
                    decreases C - k,
                {
                    s = s.add(self.get(i, k).mul(other.get(k, j)));
                    k += 1;
                }
                proof {
                    lemma_dense_push(v@, R as int, D as int, f, i as int, j as int, s);
                }
                v.push(s);
                j += 1;
            }
            proof {
                lemma_row_major_step(D as int, i as int);
            }
            i += 1;
        }
        let r: Jac<T, R, D> = Jac { v };
        proof {
            assert forall|i: int, j: int| 0 <= i < R && 0 <= j < D implies r.at(i, j)
                == self.mul_entry(*other, i, j) by {
                lemma_dense_index_bounds(R as int, D as int, i, j);
            }
        }
        r
    }
}

impl<T: Scalar, const R: usize, const C: usize> Jac<T, R, C> {
    /// The congruence transform `selfᵗ · cov · self`: the covariance of the
    /// `C` quantities whose derivatives with respect to the `R` quantities of
    /// `cov` stand in the columns of `self`.
    ///
    /// First `cov · self` is formed, then the upper triangle of the result,
    /// each entry being a column of `self` times a column of `cov · self`.
    pub fn congruence(&self, cov: &Cov<T, R>) -> (r: Cov<T, C>)
        ensures
            self.congruence_is(*cov, r),
    {
        let half = cov.mul_jac(self);
        let ghost f = self.congruence_entries(*cov);
        let mut v: Vec<T> = Vec::new();
        let mut i: usize = 0;
        proof {
            lemma_packed_ends(C as int);
            lemma_packed_empty(C as int, f);
        }
        while i < C
            invariant
                i <= C,
                f == self.congruence_entries(*cov),
                half.wf(),
                forall|k: int, j: int|
                    0 <= k < R && 0 <= j < C ==> half.at(k, j) == cov.mul_jac_entry(*self, k, j),
                v@.len() == packed_index(C as int, i as int, i as int),
                packed_filled(v@, C as int, f),
            decreases C - i,
        {
            let mut j: usize = i;
            while j < C
                invariant
                    i < C,
                    i <= j <= C,
                    f == self.congruence_entries(*cov),
                    half.wf(),
                    forall|k: int, j: int|
                        0 <= k < R && 0 <= j < C ==> half.at(k, j) == cov.mul_jac_entry(
                            *self,
                            k,
                            j,
                        ),
                    v@.len() == packed_index(C as int, i as int, i as int) + (j - i),
                    packed_filled(v@, C as int, f),
                decreases C - j,
            {
                let mut s = T::zero();
                let mut k: usize = 0;
                while k < R
                    invariant
                        i < C,
                        j < C,
                        k <= R,
                        half.wf(),
                        forall|k: int, j: int|
                            0 <= k < R && 0 <= j < C ==> half.at(k, j) == cov.mul_jac_entry(
                                *self,
                                k,
                                j,
                            ),
                        s == sum_upto(self.congruence_term(*cov, i as int, j as int), k as int),
                    decreases R - k,
                {
                    s = s.add(self.get(k, i).mul(half.get(k, j)));
                    k += 1;
                }
                proof {
                    lemma_packed_push(v@, C as int, f, i as int, j as int, s);
                }
                v.push(s);
                j += 1;
            }
            proof {
                lemma_row_step(C as int, i as int);
            }
            i += 1;
        }
        let r: Cov<T, C> = Cov::assemble(v);
        proof {
            assert forall|i: int, j: int| 0 <= i <= j < C implies r.at(i, j)
                == self.congruence_entry(*cov, i, j) by {
                lemma_packed_index_bounds(C as int, i, j);
            }
        }
        r
    }
}

impl<T: Scalar, const N: usize> Jac<T, N, N> {
    /// The matrix is the identity: one on the diagonal, zero elsewhere.
    pub open spec fn is_identity(self) -> bool {
        &&& self.wf()
        &&& forall|i: int, j: int|
            0 <= i < N && 0 <= j < N ==> #[trigger] self.at(i, j) == if i == j {
                T::one_spec()
            } else {
                T::zero_spec()
            }
    }

    /// The identity matrix, entry by entry.
    pub open spec fn identity_entries() -> spec_fn(int, int) -> T {
        |i: int, j: int|
            if i == j {
                T::one_spec()
            } else {
                T::zero_spec()
            }
    }

    /// The identity matrix.
    pub fn identity() -> (r: Self)
        ensures
            r.is_identity(),
    {
        let ghost f = Self::identity_entries();
        let mut v: Vec<T> = Vec::new();
        let mut i: usize = 0;
        proof {
            lemma_dense_empty(N as int, N as int, f);
        }
        while i < N
            invariant
                i <= N,
                f == Self::identity_entries(),
                v@.len() == i * N,
                dense_filled(v@, N as int, N as int, f),
            decreases N - i,
        {
            let mut j: usize = 0;
            while j < N
                invariant
                    i < N,
                    j <= N,
                    f == Self::identity_entries(),
                    v@.len() == i * N + j,
                    dense_filled(v@, N as int, N as int, f),
                decreases N - j,
            {
                let x = if i == j {
                    T::one()
                } else {
                    T::zero()
                };
                proof {
                    lemma_dense_push(v@, N as int, N as int, f, i as int, j as int, x);
                }
                v.push(x);
                j += 1;
            }
            proof {
                lemma_row_major_step(N as int, i as int);
            }
            i += 1;
        }
        let r: Self = Jac { v };
        proof {
            assert forall|i: int, j: int| 0 <= i < N && 0 <= j < N implies r.at(i, j) == f(
                i,
                j,
            ) by {
                lemma_dense_index_bounds(N as int, N as int, i, j);
            }
        }
        r
    }
}

impl<T: Scalar, const R: usize, const C: usize> Default for Jac<T, R, C> {
    /// The matrix of zeros.
    fn default() -> (r: Self)
        ensures
            r.wf(),
            forall|k: int| 0 <= k < R * C ==> #[trigger] r@[k] == T::zero_spec(),
    {
        let mut v: Vec<T> = Vec::new();
        let mut i: usize = 0;
        while i < R
            invariant
                i <= R,
                v@.len() == i * C,
                forall|k: int| 0 <= k < v@.len() ==> #[trigger] v@[k] == T::zero_spec(),
            decreases R - i,
        {
            let mut j: usize = 0;
            while j < C
                invariant
                    i < R,
                    j <= C,
                    v@.len() == i * C + j,
                    forall|k: int| 0 <= k < v@.len() ==> #[trigger] v@[k] == T::zero_spec(),
                decreases C - j,
            {
                v.push(T::zero());
                j += 1;
            }
            proof {
                lemma_row_major_step(C as int, i as int);
            }
            i += 1;
        }
        Jac { v }
    }
}

impl<T: Scalar, const R: usize, const C: usize> Clone for Jac<T, R, C> {
    fn clone(&self) -> (r: Self)
        ensures
            r.wf(),
            r@ == self@,
    {
        proof {
            use_type_invariant(self);
        }
        Jac { v: self.to_vec() }
    }
}

} // verus!
