//! Cholesky factorisation and inversion of packed symmetric matrices.

use vstd::prelude::*;
use crate::cov::Cov;
use crate::error::CovError;
use crate::jac::Jac;
use crate::layout::{
    dense_filled, dense_idx, lemma_dense_empty, lemma_dense_index_bounds, lemma_dense_push,
    lemma_packed_empty, lemma_packed_ends, lemma_packed_index_bounds, lemma_packed_push,
    lemma_row_major_step, lemma_row_step, packed_filled, packed_index,
};
use crate::scalar::{sum_range, Scalar};

verus! {

impl<T: Scalar, const N: usize> Cov<T, N> {
    /// The part of row `i` times row `j` of the Cholesky factor that lies in
    /// the first `k` columns, summed from the first column on.
    pub open spec fn chol_dot(self, i: int, j: int, k: int) -> T
        decreases i, k, 0int,
    {
        if 0 < k <= j <= i {
            self.chol_dot(i, j, k - 1).add_spec(
                self.chol_l(i, k - 1).mul_spec(self.chol_l(j, k - 1)),
            )
        } else {
            T::zero_spec()
        }
    }

    /// The `i`-th pivot: what remains of the diagonal entry `(i, i)` once the
    /// squares of the factor's entries to its left are taken off. The matrix
    /// is positive definite as far as the factorisation can tell when every
    /// pivot is strictly positive.
    pub open spec fn chol_pivot(self, i: int) -> T
        decreases i, i, 1int,
    {
        if 0 <= i {
            self.at(i, i).sub_spec(self.chol_dot(i, i, i))
        } else {
            T::zero_spec()
        }
    }

    /// Entry `(i, j)` of the lower-triangular Cholesky factor: the square
    /// root of the pivot on the diagonal, zero above it, and below it what
    /// remains of entry `(i, j)` divided by the diagonal entry of column `j`.
    pub open spec fn chol_l(self, i: int, j: int) -> T
        decreases i, j, 2int,
    {
        if 0 <= j < i {
            self.at(i, j).sub_spec(self.chol_dot(i, j, j)).div_spec(self.chol_l(j, j))
        } else if 0 <= j == i {
            self.chol_pivot(i).sqrt_spec()
        } else {
            T::zero_spec()
        }
    }

    /// The Cholesky factor, entry by entry.
    pub open spec fn chol_entries(self) -> spec_fn(int, int) -> T {
        |i: int, j: int| self.chol_l(i, j)
    }

    /// Every pivot among the first `n` is strictly positive.
    pub open spec fn pivots_positive(self, n: int) -> bool {
        forall|p: int| 0 <= p < n ==> (#[trigger] self.chol_pivot(p)).positive_spec()
    }

    /// The `k`-th term of entry `(i, j)` of the factor times its transpose.
    pub open spec fn gram_term(self, i: int, j: int) -> spec_fn(int) -> T {
        |k: int| self.chol_l(i, k).mul_spec(self.chol_l(j, k))
    }

    /// `l` is the Cholesky factor of the matrix.
    pub open spec fn chol_is(self, l: Jac<T, N, N>) -> bool {
        &&& l.wf()
        &&& forall|i: int, j: int|
            0 <= i < N && 0 <= j < N ==> #[trigger] l.at(i, j) == self.chol_l(i, j)
    }

    /// The Cholesky factor of the matrix: the lower-triangular `L` with
    /// `L · Lᵗ` equal to the matrix in exact arithmetic, computed row by row.
    /// Refused as soon as a pivot is not strictly positive.
    pub fn choldc(&self) -> (r: Result<Jac<T, N, N>, CovError>)
        ensures
            match r {
                Ok(l) => self.pivots_positive(N as int) && self.chol_is(l),
                Err(e) => e == CovError::NotPositiveDefinite && !self.pivots_positive(N as int),
            },
    {
        let ghost f = self.chol_entries();
        let mut v: Vec<T> = Vec::new();
        let mut i: usize = 0;
        proof {
            lemma_dense_empty(N as int, N as int, f);
        }
        while i < N
            invariant
                i <= N,
                f == self.chol_entries(),
                v@.len() == i * N,
                dense_filled(v@, N as int, N as int, f),
                self.pivots_positive(i as int),
            decreases N - i,
        {
            let mut j: usize = 0;
            while j < i
                invariant
                    j <= i < N,
                    f == self.chol_entries(),
                    v@.len() == i * N + j,
                    dense_filled(v@, N as int, N as int, f),
                decreases i - j,
            {
                let mut s = T::zero();
                let mut k: usize = 0;
                while k < j
                    invariant
                        k <= j < i < N,
                        f == self.chol_entries(),
                        v@.len() == i * N + j,
                        dense_filled(v@, N as int, N as int, f),
                        s == self.chol_dot(i as int, j as int, k as int),
                    decreases j - k,
                {
                    proof {
                        assert(v@.len() == v.len());
                        lemma_dense_index_bounds(i as int, N as int, j as int, k as int);
                        assert(f(i as int, k as int) == self.chol_l(i as int, k as int));
                        assert(f(j as int, k as int) == self.chol_l(j as int, k as int));
                    }
                    let a = v[dense_idx(N, i, k)];
                    let b = v[dense_idx(N, j, k)];
                    s = s.add(a.mul(b));
                    k += 1;
                }
                proof {
                    assert(v@.len() == v.len());
                    lemma_dense_index_bounds(i as int, N as int, j as int, j as int);
                    assert(f(j as int, j as int) == self.chol_l(j as int, j as int));
                }
                let d = v[dense_idx(N, j, j)];
                let x = self.get(i, j).sub(s).div(d);
                proof {
                    lemma_dense_push(v@, N as int, N as int, f, i as int, j as int, x);
                }
                v.push(x);
                j += 1;
            }
            let mut s = T::zero();
            let mut k: usize = 0;
            while k < i
                invariant
                    k <= i < N,
                    f == self.chol_entries(),
                    v@.len() == i * N + i,
                    dense_filled(v@, N as int, N as int, f),
                    s == self.chol_dot(i as int, i as int, k as int),
                decreases i - k,
            {
                proof {
                    assert(v@.len() == v.len());
                    assert(f(i as int, k as int) == self.chol_l(i as int, k as int));
                }
                let a = v[dense_idx(N, i, k)];
                s = s.add(a.mul(a));
                k += 1;
            }
            let pivot = self.get(i, i).sub(s);
            if !pivot.is_positive() {
                assert(!self.chol_pivot(i as int).positive_spec());
                return Err(CovError::NotPositiveDefinite);
            }
            let x = pivot.sqrt();
            proof {
                assert(pivot == self.chol_pivot(i as int));
                assert(self.chol_l(i as int, i as int) == self.chol_pivot(i as int).sqrt_spec());
                assert(f(i as int, i as int) == self.chol_l(i as int, i as int));
                lemma_dense_push(v@, N as int, N as int, f, i as int, i as int, x);
            }
            v.push(x);
            let mut j: usize = i + 1;
            while j < N
                invariant
                    i < j <= N,
                    f == self.chol_entries(),
                    v@.len() == i * N + j,
                    dense_filled(v@, N as int, N as int, f),
                decreases N - j,
            {
                let x = T::zero();
                proof {
                    lemma_dense_push(v@, N as int, N as int, f, i as int, j as int, x);
                }
                v.push(x);
                j += 1;
            }
            proof {
                lemma_row_major_step(N as int, i as int);
            }
            i += 1;
        }
        let l: Jac<T, N, N> = Jac::assemble(v);
        proof {
            assert forall|i: int, j: int| 0 <= i < N && 0 <= j < N implies l.at(i, j)
                == self.chol_l(i, j) by {
                lemma_dense_index_bounds(N as int, N as int, i, j);
            }
        }
        Ok(l)
    }
}

impl<T: Scalar, const N: usize> Cov<T, N> {
    /// What forward substitution has reached for entry `(i, j)` of the
    /// inverse of the Cholesky factor after the columns before `k`: one on
    /// the diagonal and zero below it to start with, less the products of
    /// row `i` of the factor with column `j` of its inverse, column `j` first.
    pub open spec fn linv_acc(self, i: int, j: int, k: int) -> T
        decreases i, k,
    {
        if 0 <= j < k <= i {
            self.linv_acc(i, j, k - 1).sub_spec(
                self.chol_l(i, k - 1).mul_spec(self.linv(k - 1, j)),
            )
        } else if i == j {
            T::one_spec()
        } else {
            T::zero_spec()
        }
    }

    /// Entry `(i, j)` of the inverse of the Cholesky factor, itself lower
    /// triangular.
    pub open spec fn linv(self, i: int, j: int) -> T
        decreases i, i + 1,
    {
        if 0 <= j <= i {
            self.linv_acc(i, j, i).div_spec(self.chol_l(i, i))
        } else {
            T::zero_spec()
        }
    }

    /// The inverse of the Cholesky factor, entry by entry.
    pub open spec fn linv_entries(self) -> spec_fn(int, int) -> T {
        |i: int, j: int| self.linv(i, j)
    }

    /// The `k`-th term of entry `(i, j)` of the inverse.
    pub open spec fn inv_term(self, i: int, j: int) -> spec_fn(int) -> T {
        |k: int| self.linv(k, i).mul_spec(self.linv(k, j))
    }

    /// Entry `(i, j)`, `i <= j`, of the inverse: column `i` times column `j`
    /// of the inverse of the Cholesky factor, summed from row `j` to the last.
    pub open spec fn inv_entry(self, i: int, j: int) -> T {
        sum_range(self.inv_term(i, j), j, N as int)
    }

    /// The inverse, entry by entry.
    pub open spec fn inv_entries(self) -> spec_fn(int, int) -> T {
        |i: int, j: int| self.inv_entry(i, j)
    }

    /// `inv` is the inverse of the matrix, as forward substitution on the
    /// Cholesky factor gives it.
    pub open spec fn inverse_is(self, inv: Self) -> bool {
        &&& inv.wf()
        &&& forall|i: int, j: int|
            0 <= i <= j < N ==> #[trigger] inv.at(i, j) == self.inv_entry(i, j)
    }

    /// The inverse of the Cholesky factor `l` of this matrix.
    fn invert_factor(&self, l: &Jac<T, N, N>) -> (w: Jac<T, N, N>)
        requires
            self.chol_is(*l),
        ensures
            w.wf(),
            forall|i: int, j: int| 0 <= i < N && 0 <= j < N ==> w.at(i, j) == self.linv(i, j),
    {
        let ghost f = self.linv_entries();
        let mut v: Vec<T> = Vec::new();
        let mut i: usize = 0;
        proof {
            lemma_dense_empty(N as int, N as int, f);
        }
        while i < N
            invariant
                i <= N,
                f == self.linv_entries(),
                l.wf(),
                forall|i: int, j: int|
                    0 <= i < N && 0 <= j < N ==> l.at(i, j) == self.chol_l(i, j),
                v@.len() == i * N,
                dense_filled(v@, N as int, N as int, f),
            decreases N - i,
        {
            let d = l.get(i, i);
            let mut j: usize = 0;
            while j < N
                invariant
                    i < N,
                    j <= N,
                    f == self.linv_entries(),
                    l.wf(),
                    forall|i: int, j: int|
                        0 <= i < N && 0 <= j < N ==> l.at(i, j) == self.chol_l(i, j),
                    d == self.chol_l(i as int, i as int),
                    v@.len() == i * N + j,
                    dense_filled(v@, N as int, N as int, f),
                decreases N - j,
            {
                let x = if j > i {
                    T::zero()
                } else {
                    let mut acc = if i == j {
                        T::one()
                    } else {
                        T::zero()
                    };
                    let mut k: usize = j;
                    while k < i
                        invariant
                            j <= k <= i < N,
                            f == self.linv_entries(),
                            l.wf(),
                            forall|i: int, j: int|
                                0 <= i < N && 0 <= j < N ==> l.at(i, j) == self.chol_l(i, j),
                            v@.len() == i * N + j,
                            dense_filled(v@, N as int, N as int, f),
                            acc == self.linv_acc(i as int, j as int, k as int),
                        decreases i - k,
                    {
                        proof {
                            assert(v@.len() == v.len());
                            lemma_dense_index_bounds(i as int, N as int, k as int, j as int);
                            assert(f(k as int, j as int) == self.linv(k as int, j as int));
                        }
                        let b = v[dense_idx(N, k, j)];
                        acc = acc.sub(l.get(i, k).mul(b));
                        k += 1;
                    }
                    acc.div(d)
                };
                proof {
                    assert(x == self.linv(i as int, j as int));
                    lemma_dense_push(v@, N as int, N as int, f, i as int, j as int, x);
                }
                v.push(x);
                j += 1;
            }
            proof {
                lemma_row_major_step(N as int, i as int);
            }
            i += 1;
        }
        let w: Jac<T, N, N> = Jac::assemble(v);
        proof {
            assert forall|i: int, j: int| 0 <= i < N && 0 <= j < N implies w.at(i, j) == self.linv(
                i,
                j,
            ) by {
                lemma_dense_index_bounds(N as int, N as int, i, j);
            }
        }
        w
    }

    /// The inverse of the matrix, by way of its Cholesky factor: the factor
    /// is inverted by forward substitution, and the inverse is the transpose
    /// of that times that, of which the upper triangle is kept. Refused
    /// exactly when the factorisation is.
    pub fn cholinv(&self) -> (r: Result<Self, CovError>)
        ensures
            match r {
                Ok(inv) => self.pivots_positive(N as int) && self.inverse_is(inv),
                Err(e) => e == CovError::NotPositiveDefinite && !self.pivots_positive(N as int),
            },
    {
        let l = match self.choldc() {
            Ok(l) => l,
            Err(e) => {
                return Err(e);
            },
        };
        let w = self.invert_factor(&l);
        let ghost f = self.inv_entries();
        let mut v: Vec<T> = Vec::new();
        let mut i: usize = 0;
        proof {
            lemma_packed_ends(N as int);
            lemma_packed_empty(N as int, f);
        }
        while i < N
            invariant
                i <= N,
                f == self.inv_entries(),
                w.wf(),
                forall|i: int, j: int|
                    0 <= i < N && 0 <= j < N ==> w.at(i, j) == self.linv(i, j),
                v@.len() == packed_index(N as int, i as int, i as int),
                packed_filled(v@, N as int, f),
            decreases N - i,
        {
            let mut j: usize = i;
            while j < N
                invariant
                    i < N,
                    i <= j <= N,
                    f == self.inv_entries(),
                    w.wf(),
                    forall|i: int, j: int|
                        0 <= i < N && 0 <= j < N ==> w.at(i, j) == self.linv(i, j),
                    v@.len() == packed_index(N as int, i as int, i as int) + (j - i),
                    packed_filled(v@, N as int, f),
                decreases N - j,
            {
                let mut s = T::zero();
                let mut k: usize = j;
                while k < N
                    invariant
                        i <= j <= k <= N,
                        j < N,
                        w.wf(),
                        forall|i: int, j: int|
                            0 <= i < N && 0 <= j < N ==> w.at(i, j) == self.linv(i, j),
                        s == sum_range(self.inv_term(i as int, j as int), j as int, k as int),
                    decreases N - k,
                {
                    s = s.add(w.get(k, i).mul(w.get(k, j)));
                    k += 1;
                }
                proof {
                    lemma_packed_push(v@, N as int, f, i as int, j as int, s);
                }
                v.push(s);
                j += 1;
            }
            proof {
                lemma_row_step(N as int, i as int);
            }
            i += 1;
        }
        let x: Self = Cov::assemble(v);
        proof {
            assert forall|i: int, j: int| 0 <= i <= j < N implies x.at(i, j) == self.inv_entry(
                i,
                j,
            ) by {
                lemma_packed_index_bounds(N as int, i, j);
            }
        }
        Ok(x)
    }
}

} // verus!
