//! Symmetric matrices in packed storage: covariances.

use vstd::prelude::*;
use crate::error::CovError;
use crate::jac::Jac;
use crate::layout::{
    dense_filled, dense_idx, dense_index, lemma_dense_empty, lemma_dense_index_bounds,
    lemma_dense_push, lemma_packed_empty, lemma_packed_ends, lemma_packed_index_bounds,
    lemma_packed_push, lemma_row_major_step, lemma_row_step, packed_filled, packed_idx,
    packed_index, packed_len, packed_size,
};
use crate::scalar::{sum_upto, Scalar};
use crate::vecn::Vecn;

verus! {

/// A symmetric `N`×`N` matrix, of which only the entries on and above the
/// diagonal are stored, row after row.
#[derive(Debug)]
pub struct Cov<T, const N: usize> {
    v: Vec<T>,
}

/// A symmetric 3×3 matrix.
pub type Cov3<T> = Cov<T, 3>;

/// A symmetric 4×4 matrix.
pub type Cov4<T> = Cov<T, 4>;

/// A symmetric 5×5 matrix.
pub type Cov5<T> = Cov<T, 5>;

impl<T, const N: usize> View for Cov<T, N> {
    type V = Seq<T>;

    closed spec fn view(&self) -> Seq<T> {
        self.v@
    }
}

/// The upper triangle of the row-major `n`×`n` matrix in `raw`, entry by entry.
pub open spec fn upper_of<T>(raw: Seq<T>, n: int) -> spec_fn(int, int) -> T {
    |i: int, j: int| raw[dense_index(n, i, j)]
}

impl<T, const N: usize> Cov<T, N> {
    /// The matrix holds exactly the entries of its upper triangle.
    #[verifier::type_invariant]
    pub open spec fn wf(self) -> bool {
        self@.len() == packed_len(N as int)
    }

    /// The entry in row `i` and column `j`; the same for `(j, i)`.
    pub open spec fn at(self, i: int, j: int) -> T {
        self@[packed_index(N as int, i, j)]
    }

    /// The matrix, entry by entry.
    pub open spec fn entries(self) -> spec_fn(int, int) -> T {
        |i: int, j: int| self.at(i, j)
    }

    /// `d` holds the diagonal entries, from the first row to the last.
    pub open spec fn diag_is(self, d: Vecn<T, N>) -> bool {
        &&& d.wf()
        &&& forall|i: int| 0 <= i < N ==> #[trigger] d@[i] == self.at(i, i)
    }

    /// `block` is the matrix restricted to its first `M` rows and columns.
    pub open spec fn leading_is<const M: usize>(self, block: Cov<T, M>) -> bool {
        &&& M <= N
        &&& block.wf()
        &&& forall|i: int, j: int|
            0 <= i < M && 0 <= j < M ==> #[trigger] block.at(i, j) == self.at(i, j)
    }

    /// `dense` is the same matrix with every entry stored.
    pub open spec fn dense_is(self, dense: Jac<T, N, N>) -> bool {
        &&& dense.wf()
        &&& forall|i: int, j: int|
            0 <= i < N && 0 <= j < N ==> #[trigger] dense.at(i, j) == self.at(i, j)
    }
}

impl<T: Scalar, const N: usize> Cov<T, N> {
    /// The matrix with its diagonal multiplied by `s`, entry by entry.
    pub open spec fn scaled_entries(self, s: T) -> spec_fn(int, int) -> T {
        |i: int, j: int|
            if i == j {
                self.at(i, j).mul_spec(s)
            } else {
                self.at(i, j)
            }
    }

    /// `sigmas` holds the square roots of the diagonal entries, from the first
    /// row to the last.
    pub open spec fn sigmas_is(self, sigmas: Vecn<T, N>) -> bool {
        &&& sigmas.wf()
        &&& forall|i: int| 0 <= i < N ==> #[trigger] sigmas@[i] == self.at(i, i).sqrt_spec()
    }

    /// `scaled` is the matrix with its diagonal multiplied by `s` and every
    /// other entry left as it is.
    pub open spec fn scale_diag_is(self, s: T, scaled: Self) -> bool {
        &&& scaled.wf()
        &&& forall|i: int| 0 <= i < N ==> #[trigger] scaled.at(i, i) == self.at(i, i).mul_spec(s)
        &&& forall|i: int, j: int|
            0 <= i < N && 0 <= j < N && i != j ==> #[trigger] scaled.at(i, j) == self.at(i, j)
    }

    /// `sum` is this matrix plus `other`, entry by entry.
    pub open spec fn sum_is(self, other: Self, sum: Self) -> bool {
        &&& sum.wf()
        &&& forall|k: int|
            0 <= k < packed_len(N as int) ==> #[trigger] sum@[k] == self@[k].add_spec(other@[k])
    }

    /// `product` is the matrix product `self · other`.
    pub open spec fn product_is(self, other: Self, product: Jac<T, N, N>) -> bool {
        &&& product.wf()
        &&& forall|i: int, j: int|
            0 <= i < N && 0 <= j < N ==> #[trigger] product.at(i, j) == self.mul_entry(other, i, j)
    }

    /// `product` is the matrix product `self · rhs`.
    pub open spec fn jac_product_is<const M: usize>(
        self,
        rhs: Jac<T, N, M>,
        product: Jac<T, N, M>,
    ) -> bool {
        &&& product.wf()
        &&& forall|k: int, j: int|
            0 <= k < N && 0 <= j < M ==> #[trigger] product.at(k, j) == self.mul_jac_entry(rhs, k, j)
    }

    /// The `k`-th term of entry `(i, j)` of the product with `other`.
    pub open spec fn mul_term(self, other: Self, i: int, j: int) -> spec_fn(int) -> T {
        |k: int| self.at(i, k).mul_spec(other.at(k, j))
    }

    /// Entry `(i, j)` of the product with `other`: row `i` of `self` times
    /// column `j` of `other`, summed from the first term to the last.
    pub open spec fn mul_entry(self, other: Self, i: int, j: int) -> T {
        sum_upto(self.mul_term(other, i, j), N as int)
    }

    /// The product with `other`, entry by entry.
    pub open spec fn mul_entries(self, other: Self) -> spec_fn(int, int) -> T {
        |i: int, j: int| self.mul_entry(other, i, j)
    }

    /// The `l`-th term of entry `(k, j)` of the product with the dense `rhs`.
    pub open spec fn mul_jac_term<const M: usize>(self, rhs: Jac<T, N, M>, k: int, j: int) -> spec_fn(
        int,
    ) -> T {
        |l: int| self.at(k, l).mul_spec(rhs.at(l, j))
    }

    /// Entry `(k, j)` of the product with the dense `rhs`: row `k` of `self`
    /// times column `j` of `rhs`, summed from the first term to the last.
    pub open spec fn mul_jac_entry<const M: usize>(self, rhs: Jac<T, N, M>, k: int, j: int) -> T {
        sum_upto(self.mul_jac_term(rhs, k, j), N as int)
    }

    /// The product with the dense `rhs`, entry by entry.
    pub open spec fn mul_jac_entries<const M: usize>(self, rhs: Jac<T, N, M>) -> spec_fn(
        int,
        int,
    ) -> T {
        |k: int, j: int| self.mul_jac_entry(rhs, k, j)
    }

    /// The matrix whose upper triangle is laid out in `v`.
    pub(crate) fn assemble(v: Vec<T>) -> (r: Self)
        requires
            v@.len() == packed_len(N as int),
        ensures
            r.wf(),
            r@ == v@,
    {
        Cov { v }
    }

    /// Builds the matrix from a raw buffer: either its packed upper triangle,
    /// or all `N * N` entries row after row, of which the upper triangle is
    /// kept. A buffer of any other length is refused.
    pub fn from_slice(raw: &[T]) -> (r: Result<Self, CovError>)
        ensures
            match r {
                Ok(x) => x.wf() && if raw@.len() == packed_len(N as int) {
                    x@ == raw@
                } else {
                    &&& raw@.len() == N * N
                    &&& forall|i: int, j: int|
                        0 <= i <= j < N ==> x.at(i, j) == raw@[dense_index(N as int, i, j)]
                },
                Err(e) => e == CovError::ShapeMismatch && raw@.len() != packed_len(N as int)
                    && raw@.len() != N * N,
            },
    {
        let packed = packed_size(N);
        if packed == Some(raw.len()) {
            let mut v: Vec<T> = Vec::new();
            let n = raw.len();
            let mut k: usize = 0;
            while k < n
                invariant
                    k <= n,
                    n == raw@.len(),
                    v@ == raw@.take(k as int),
                decreases n - k,
            {
                v.push(raw[k]);
                assert(v@ == raw@.take(k + 1));
                k += 1;
            }
            assert(raw@.take(n as int) == raw@);
            return Ok(Cov { v });
        }
        if N.checked_mul(N) != Some(raw.len()) {
            return Err(CovError::ShapeMismatch);
        }
        let ghost f = upper_of(raw@, N as int);
        let mut v: Vec<T> = Vec::new();
        let mut i: usize = 0;
        proof {
            lemma_packed_ends(N as int);
            lemma_packed_empty(N as int, f);
        }
        while i < N
            invariant
                i <= N,
                raw@.len() == N * N <= usize::MAX,
                f == upper_of(raw@, N as int),
                v@.len() == packed_index(N as int, i as int, i as int),
                packed_filled(v@, N as int, f),
            decreases N - i,
        {
            let mut j: usize = i;
            while j < N
                invariant
                    i < N,
                    i <= j <= N,
                    raw@.len() == N * N <= usize::MAX,
                    f == upper_of(raw@, N as int),
                    v@.len() == packed_index(N as int, i as int, i as int) + (j - i),
                    packed_filled(v@, N as int, f),
                decreases N - j,
            {
                proof {
                    lemma_dense_index_bounds(N as int, N as int, i as int, j as int);
                }
                let x = raw[dense_idx(N, i, j)];
                proof {
                    lemma_packed_push(v@, N as int, f, i as int, j as int, x);
                }
                v.push(x);
                j += 1;
            }
            proof {
                lemma_row_step(N as int, i as int);
            }
            i += 1;
        }
        let r: Self = Cov { v };
        proof {
            assert forall|i: int, j: int| 0 <= i <= j < N implies r.at(i, j) == raw@[dense_index(
                N as int,
                i,
                j,
            )] by {
                lemma_packed_index_bounds(N as int, i, j);
            }
        }
        Ok(r)
    }

    /// Builds the matrix from a raw buffer, as [`Cov::from_slice`] does.
    pub fn from_vec(raw: Vec<T>) -> (r: Result<Self, CovError>)
        ensures
            match r {
                Ok(x) => x.wf() && if raw@.len() == packed_len(N as int) {
                    x@ == raw@
                } else {
                    &&& raw@.len() == N * N
                    &&& forall|i: int, j: int|
                        0 <= i <= j < N ==> x.at(i, j) == raw@[dense_index(N as int, i, j)]
                },
                Err(e) => e == CovError::ShapeMismatch && raw@.len() != packed_len(N as int)
                    && raw@.len() != N * N,
            },
    {
        Self::from_slice(raw.as_slice())
    }

    /// The entry in row `i` and column `j`.
    pub fn get(&self, i: usize, j: usize) -> (x: T)
        requires
            i < N,
            j < N,
        ensures
            x == self.at(i as int, j as int),
    {
        proof {
            use_type_invariant(self);
            assert(self@.len() == self.v.len());
        }
        self.v[packed_idx(N, i, j)]
    }

    /// The stored entries: the upper triangle, row after row.
    pub fn to_vec(&self) -> (r: Vec<T>)
        ensures
            r@ == self@,
    {
        let mut out: Vec<T> = Vec::new();
        let n = self.v.len();
        let mut k: usize = 0;
        while k < n
            invariant
                k <= n,
                n == self@.len(),
                out@ == self@.take(k as int),
            decreases n - k,
        {
            out.push(self.v[k]);
            assert(out@ == self@.take(k + 1));
            k += 1;
        }
        assert(self@.take(n as int) == self@);
        out
    }

    /// The diagonal entries, from the first row to the last.
    pub fn diag(&self) -> (d: Vecn<T, N>)
        ensures
            self.diag_is(d),
    {
        let mut v: Vec<T> = Vec::new();
        let mut i: usize = 0;
        while i < N
            invariant
                i <= N,
                v@.len() == i,
                forall|k: int| 0 <= k < i ==> v@[k] == self.at(k, k),
            decreases N - i,
        {
            v.push(self.get(i, i));
            i += 1;
        }
        Vecn::assemble(v)
    }

    /// The square roots of the diagonal entries: the standard deviations of
    /// a covariance.
    pub fn sigmas(&self) -> (d: Vecn<T, N>)
        ensures
            self.sigmas_is(d),
    {
        let mut v: Vec<T> = Vec::new();
        let mut i: usize = 0;
        while i < N
            invariant
                i <= N,
                v@.len() == i,
                forall|k: int| 0 <= k < i ==> v@[k] == self.at(k, k).sqrt_spec(),
            decreases N - i,
        {
            v.push(self.get(i, i).sqrt());
            i += 1;
        }
        Vecn::assemble(v)
    }

    /// Multiplies the diagonal entries by `s` and leaves every other entry as
    /// it is.
    pub fn scale_diag(&self, s: T) -> (r: Self)
        ensures
            self.scale_diag_is(s, r),
    {
        let ghost f = self.scaled_entries(s);
        let mut v: Vec<T> = Vec::new();
        let mut i: usize = 0;
        proof {
            lemma_packed_ends(N as int);
            lemma_packed_empty(N as int, f);
        }
        while i < N
            invariant
                i <= N,
                f == self.scaled_entries(s),
                v@.len() == packed_index(N as int, i as int, i as int),
                packed_filled(v@, N as int, f),
            decreases N - i,
        {
            let mut j: usize = i;
            while j < N
                invariant
                    i < N,
                    i <= j <= N,
                    f == self.scaled_entries(s),
                    v@.len() == packed_index(N as int, i as int, i as int) + (j - i),
                    packed_filled(v@, N as int, f),
                decreases N - j,
            {
                let old_entry = self.get(i, j);
                let x = if i == j {
                    old_entry.mul(s)
                } else {
                    old_entry
                };
                proof {
                    lemma_packed_push(v@, N as int, f, i as int, j as int, x);
                }
                v.push(x);
                j += 1;
            }
            proof {
                lemma_row_step(N as int, i as int);
            }
            i += 1;
        }
        let r: Self = Cov { v };
        proof {
            assert forall|i: int, j: int| 0 <= i < N && 0 <= j < N implies r.at(i, j) == f(
                i,
                j,
            ) by {
                lemma_packed_index_bounds(N as int, i, j);
                if i <= j {
                } else {
                    assert(r.at(i, j) == r.at(j, i));
                    assert(self.at(i, j) == self.at(j, i));
                }
            }
        }
        r
    }

    /// Entry-wise sum.
    pub fn add(&self, other: &Self) -> (r: Self)
        ensures
            self.sum_is(*other, r),
    {
        proof {
            use_type_invariant(self);
            use_type_invariant(other);
        }
        let n = self.v.len();
        let mut v: Vec<T> = Vec::new();
        let mut k: usize = 0;
        while k < n
            invariant
                k <= n,
                n == packed_len(N as int),
                self.wf(),
                other.wf(),
                v@.len() == k,
                forall|m: int| 0 <= m < k ==> v@[m] == #[trigger] self@[m].add_spec(other@[m]),
            decreases n - k,
        {
            v.push(self.v[k].add(other.v[k]));
            k += 1;
        }
        Cov { v }
    }

    /// The leading `M`×`M` block: the matrix restricted to its first `M` rows
    /// and columns. Refused when `M` exceeds `N`.
    pub fn leading<const M: usize>(&self) -> (r: Result<Cov<T, M>, CovError>)
        ensures
            match r {
                Ok(block) => self.leading_is(block),
                Err(e) => M > N && e == CovError::DimensionIncompatible,
            },
    {
        if M > N {
            Err(CovError::DimensionIncompatible)
        } else {
            Ok(self.leading_within())
        }
    }

    /// The leading `M`×`M` block, where the matrix has one.
    pub(crate) fn leading_within<const M: usize>(&self) -> (r: Cov<T, M>)
        requires
            M <= N,
        ensures
            self.leading_is(r),
    {
        let ghost f = self.entries();
        let mut v: Vec<T> = Vec::new();
        let mut i: usize = 0;
        proof {
            lemma_packed_ends(M as int);
            lemma_packed_empty(M as int, f);
        }
        while i < M
            invariant
                i <= M <= N,
                f == self.entries(),
                v@.len() == packed_index(M as int, i as int, i as int),
                packed_filled(v@, M as int, f),
            decreases M - i,
        {
            let mut j: usize = i;
            while j < M
                invariant
                    i < M <= N,
                    i <= j <= M,
                    f == self.entries(),
                    v@.len() == packed_index(M as int, i as int, i as int) + (j - i),
                    packed_filled(v@, M as int, f),
                decreases M - j,
            {
                let x = self.get(i, j);
                proof {
                    lemma_packed_push(v@, M as int, f, i as int, j as int, x);
                }
                v.push(x);
                j += 1;
            }
            proof {
                lemma_row_step(M as int, i as int);
            }
            i += 1;
        }
        let r: Cov<T, M> = Cov { v };
        proof {
            assert forall|i: int, j: int| 0 <= i < M && 0 <= j < M implies r.at(i, j) == self.at(
                i,
                j,
            ) by {
                lemma_packed_index_bounds(M as int, i, j);
                if i <= j {
                } else {
                    assert(r.at(i, j) == r.at(j, i));
                    assert(self.at(i, j) == self.at(j, i));
                }
            }
        }
        r
    }

    /// The same matrix with every entry stored.
    pub fn to_dense(&self) -> (r: Jac<T, N, N>)
        ensures
            self.dense_is(r),
    {
        let ghost f = self.entries();
        let mut v: Vec<T> = Vec::new();
        let mut i: usize = 0;
        proof {
            lemma_dense_empty(N as int, N as int, f);
        }
        while i < N
            invariant
                i <= N,
                f == self.entries(),
                v@.len() == i * N,
                dense_filled(v@, N as int, N as int, f),
            decreases N - i,
        {
            let mut j: usize = 0;
            while j < N
                invariant
                    i < N,
                    j <= N,
                    f == self.entries(),
                    v@.len() == i * N + j,
                    dense_filled(v@, N as int, N as int, f),
                decreases N - j,
            {
                let x = self.get(i, j);
                proof {
                    lemma_dense_push(v@, N as int, N as int, f, i as int, j as int, x);
                }
                v.push(x);
                j += 1;
            }
            proof {
                lemma_row_major_step(N as int, i as int);
            }
            i += 1;
        }
        let r: Jac<T, N, N> = Jac::assemble(v);
        proof {
            assert forall|i: int, j: int| 0 <= i < N && 0 <= j < N implies r.at(i, j) == self.at(
                i,
                j,
            ) by {
                lemma_dense_index_bounds(N as int, N as int, i, j);
            }
        }
        r
    }

    /// The matrix product `self · other`, which in general is not symmetric.
    pub fn mul(&self, other: &Self) -> (r: Jac<T, N, N>)
        ensures
            self.product_is(*other, r),
    {
        let ghost f = self.mul_entries(*other);
        let mut v: Vec<T> = Vec::new();
        let mut i: usize = 0;
        proof {
            lemma_dense_empty(N as int, N as int, f);
        }
        while i < N
            invariant
                i <= N,
                f == self.mul_entries(*other),
                v@.len() == i * N,
                dense_filled(v@, N as int, N as int, f),
            decreases N - i,
        {
            let mut j: usize = 0;
            while j < N
                invariant
                    i < N,
                    j <= N,
                    f == self.mul_entries(*other),
                    v@.len() == i * N + j,
                    dense_filled(v@, N as int, N as int, f),
                decreases N - j,
            {
                let mut s = T::zero();
                let mut k: usize = 0;
                while k < N
                    invariant
                        i < N,
                        j < N,
                        k <= N,
                        s == sum_upto(self.mul_term(*other, i as int, j as int), k as int),
                    decreases N - k,
                {
                    s = s.add(self.get(i, k).mul(other.get(k, j)));
                    k += 1;
                }
                proof {
                    lemma_dense_push(v@, N as int, N as int, f, i as int, j as int, s);
                }
                v.push(s);
                j += 1;
            }
            proof {
                lemma_row_major_step(N as int, i as int);
            }
            i += 1;
        }
        let r: Jac<T, N, N> = Jac::assemble(v);
        proof {
            assert forall|i: int, j: int| 0 <= i < N && 0 <= j < N implies r.at(i, j)
                == self.mul_entry(*other, i, j) by {
                lemma_dense_index_bounds(N as int, N as int, i, j);
            }
        }
        r
    }
}

impl<T: Scalar, const N: usize> Cov<T, N> {
    /// The matrix product `self · rhs` with a dense matrix.
    pub fn mul_jac<const M: usize>(&self, rhs: &Jac<T, N, M>) -> (r: Jac<T, N, M>)
        ensures
            self.jac_product_is(*rhs, r),
    {
        let ghost f = self.mul_jac_entries(*rhs);
        let mut v: Vec<T> = Vec::new();
        let mut i: usize = 0;
        proof {
            lemma_dense_empty(N as int, M as int, f);
        }
        while i < N
            invariant
                i <= N,
                f == self.mul_jac_entries(*rhs),
                v@.len() == i * M,
                dense_filled(v@, N as int, M as int, f),
            decreases N - i,
        {
            let mut j: usize = 0;
            while j < M
                invariant
                    i < N,
                    j <= M,
                    f == self.mul_jac_entries(*rhs),
                    v@.len() == i * M + j,
                    dense_filled(v@, N as int, M as int, f),
                decreases M - j,
            {
                let mut s = T::zero();
                let mut k: usize = 0;
                while k < N
                    invariant
                        i < N,
                        j < M,
                        k <= N,
                        s == sum_upto(self.mul_jac_term(*rhs, i as int, j as int), k as int),
                    decreases N - k,
                {
                    s = s.add(self.get(i, k).mul(rhs.get(k, j)));
                    k += 1;
                }
                proof {
                    lemma_dense_push(v@, N as int, M as int, f, i as int, j as int, s);
                }
                v.push(s);
                j += 1;
            }
            proof {
                lemma_row_major_step(M as int, i as int);
            }
            i += 1;
        }
        let r: Jac<T, N, M> = Jac::assemble(v);
        proof {
            assert forall|k: int, j: int| 0 <= k < N && 0 <= j < M implies r.at(k, j)
                == self.mul_jac_entry(*rhs, k, j) by {
                lemma_dense_index_bounds(N as int, M as int, k, j);
            }
        }
        r
    }
}

impl<T: Scalar, const N: usize> Default for Cov<T, N> {
    /// The matrix of zeros.
    fn default() -> (r: Self)
        ensures
            r.wf(),
            forall|k: int| 0 <= k < packed_len(N as int) ==> #[trigger] r@[k] == T::zero_spec(),
    {
        let mut v: Vec<T> = Vec::new();
        let mut i: usize = 0;
        proof {
            lemma_packed_ends(N as int);
        }
        while i < N
            invariant
                i <= N,
                v@.len() == packed_index(N as int, i as int, i as int),
                forall|k: int| 0 <= k < v@.len() ==> #[trigger] v@[k] == T::zero_spec(),
            decreases N - i,
        {
            let mut j: usize = i;
            while j < N
                invariant
                    i < N,
                    i <= j <= N,
                    v@.len() == packed_index(N as int, i as int, i as int) + (j - i),
                    forall|k: int| 0 <= k < v@.len() ==> #[trigger] v@[k] == T::zero_spec(),
                decreases N - j,
            {
                v.push(T::zero());
                j += 1;
            }
            proof {
                lemma_row_step(N as int, i as int);
            }
            i += 1;
        }
        Cov { v }
    }
}

impl<T: Scalar, const N: usize> Clone for Cov<T, N> {
    fn clone(&self) -> (r: Self)
        ensures
            r.wf(),
            r@ == self@,
    {
        proof {
            use_type_invariant(self);
        }
        Cov { v: self.to_vec() }
    }
}

} // verus!
