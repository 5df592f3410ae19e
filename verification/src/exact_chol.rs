//! The Cholesky factor and the inverse where the scalar's arithmetic is
//! exact.

use vstd::prelude::*;
use crate::cov::Cov;
use crate::exact::{
    exact_arithmetic, eye, lemma_add_assoc, lemma_add_cancels, lemma_add_zero,
    lemma_div_undoes_mul, lemma_mul_cancels, lemma_mul_comm, lemma_mul_one, lemma_mul_zero,
    lemma_prod_assoc, lemma_prod_of_same, lemma_prod_transposed, lemma_prod_with_eye,
    lemma_same_symmetric, lemma_same_transitive, lemma_sqrt_squares, lemma_sub_undoes_add,
    lemma_sum_of_zeros, lemma_sum_picks, prod, prod_term, same_entries, transposed,
};
use crate::scalar::{lemma_sum_of_equal_terms, sum_range, sum_upto, Scalar};

verus! {

/// Row `i` times row `j` of the Cholesky factor, `j <= i`, summed over the
/// first `m` columns: what the factorisation itself has summed as long as
/// `m` does not pass column `j`, and entry `(i, j)` of the matrix from then
/// on.
pub proof fn lemma_rows_of_factor<T: Scalar, const N: usize>(
    a: Cov<T, N>,
    i: int,
    j: int,
    m: int,
)
    requires
        exact_arithmetic::<T>(),
        0 <= j <= i,
        0 <= m,
        a.chol_pivot(j).positive_spec(),
    ensures
        m <= j ==> sum_upto(a.gram_term(i, j), m) == a.chol_dot(i, j, m),
        m > j ==> sum_upto(a.gram_term(i, j), m) == a.at(i, j),
    decreases m,
{
    let term = a.gram_term(i, j);
    if m > 0 {
        lemma_rows_of_factor(a, i, j, m - 1);
        let before = sum_upto(term, m - 1);
        assert(sum_upto(term, m) == before.add_spec(term(m - 1)));
        assert(term(m - 1) == a.chol_l(i, m - 1).mul_spec(a.chol_l(j, m - 1)));
        if m <= j {
        } else if m == j + 1 {
            let rest = a.at(i, j).sub_spec(a.chol_dot(i, j, j));
            let d = a.chol_l(j, j);
            assert(d == a.chol_pivot(j).sqrt_spec());
            lemma_sqrt_squares(a.chol_pivot(j));
            if j < i {
                assert(a.chol_l(i, j) == rest.div_spec(d));
                lemma_div_undoes_mul(rest, d);
            } else {
                assert(rest == a.chol_pivot(j));
            }
            assert(term(j) == rest);
            lemma_sub_undoes_add(a.at(i, j), a.chol_dot(i, j, j));
        } else {
            assert(a.chol_l(j, m - 1) == T::zero_spec());
            lemma_mul_zero(a.chol_l(i, m - 1));
            lemma_add_zero(before);
        }
    }
}

/// The Cholesky factor times its transpose is the matrix.
pub proof fn lemma_factor_times_transpose<T: Scalar, const N: usize>(a: Cov<T, N>)
    requires
        exact_arithmetic::<T>(),
        a.pivots_positive(N as int),
    ensures
        same_entries(
            prod(a.chol_entries(), transposed(a.chol_entries()), N as int),
            a.entries(),
            N as int,
        ),
{
    let l = a.chol_entries();
    assert forall|i: int, j: int| 0 <= i < N && 0 <= j < N implies #[trigger] prod(
        l,
        transposed(l),
        N as int,
    )(i, j) == a.entries()(i, j) by {
        let term = prod_term(l, transposed(l), i, j);
        if j <= i {
            let rows = a.gram_term(i, j);
            assert forall|k: int| 0 <= k < N implies #[trigger] term(k) == rows(k) by {}
            lemma_sum_of_equal_terms(term, rows, N as int);
            lemma_rows_of_factor(a, i, j, N as int);
        } else {
            let rows = a.gram_term(j, i);
            assert forall|k: int| 0 <= k < N implies #[trigger] term(k) == rows(k) by {
                lemma_mul_comm(a.chol_l(i, k), a.chol_l(j, k));
            }
            lemma_sum_of_equal_terms(term, rows, N as int);
            lemma_rows_of_factor(a, j, i, N as int);
            assert(a.at(j, i) == a.at(i, j));
        }
    }
}

/// The diagonal of the Cholesky factor holds no zero.
pub proof fn lemma_factor_diagonal<T: Scalar, const N: usize>(a: Cov<T, N>, i: int)
    requires
        exact_arithmetic::<T>(),
        0 <= i,
        a.chol_pivot(i).positive_spec(),
    ensures
        a.chol_l(i, i) != T::zero_spec(),
{
    lemma_sqrt_squares(a.chol_pivot(i));
}

/// Row `i` of the Cholesky factor times column `j` of its inverse, `j <= i`,
/// summed over the first `m` columns, together with what forward
/// substitution has reached by then, is one on the diagonal and zero below.
proof fn lemma_substitution_step<T: Scalar, const N: usize>(a: Cov<T, N>, i: int, j: int, m: int)
    requires
        exact_arithmetic::<T>(),
        0 <= j <= m <= i,
    ensures
        sum_upto(prod_term(a.chol_entries(), a.linv_entries(), i, j), m).add_spec(
            a.linv_acc(i, j, m),
        ) == eye::<T>()(i, j),
    decreases m,
{
    let t = prod_term(a.chol_entries(), a.linv_entries(), i, j);
    if m == j {
        assert forall|k: int| 0 <= k < m implies #[trigger] t(k) == T::zero_spec() by {
            assert(a.linv(k, j) == T::zero_spec());
            lemma_mul_zero(a.chol_l(i, k));
        }
        lemma_sum_of_zeros(t, m);
        lemma_add_zero(a.linv_acc(i, j, m));
    } else {
        lemma_substitution_step(a, i, j, m - 1);
        let before = sum_upto(t, m - 1);
        let acc = a.linv_acc(i, j, m - 1);
        let x = t(m - 1);
        assert(x == a.chol_l(i, m - 1).mul_spec(a.linv(m - 1, j)));
        assert(a.linv_acc(i, j, m) == acc.sub_spec(x));
        lemma_sub_undoes_add(acc, x);
        lemma_add_assoc(before, x, acc.sub_spec(x));
    }
}

/// Row `i` of the Cholesky factor times column `j` of its inverse, summed
/// over the first `m` columns, is entry `(i, j)` of the identity once `m`
/// has passed the diagonal.
proof fn lemma_factor_times_inverse_row<T: Scalar, const N: usize>(
    a: Cov<T, N>,
    i: int,
    j: int,
    m: int,
)
    requires
        exact_arithmetic::<T>(),
        0 <= i < m,
        0 <= j,
        a.chol_pivot(i).positive_spec(),
    ensures
        sum_upto(prod_term(a.chol_entries(), a.linv_entries(), i, j), m) == eye::<T>()(i, j),
    decreases m,
{
    let t = prod_term(a.chol_entries(), a.linv_entries(), i, j);
    if m == i + 1 {
        if j <= i {
            lemma_substitution_step(a, i, j, i);
            let d = a.chol_l(i, i);
            lemma_factor_diagonal(a, i);
            assert(a.linv(i, j) == a.linv_acc(i, j, i).div_spec(d));
            lemma_div_undoes_mul(a.linv_acc(i, j, i), d);
            assert(t(i) == a.linv_acc(i, j, i));
        } else {
            assert forall|k: int| 0 <= k < m implies #[trigger] t(k) == T::zero_spec() by {
                assert(a.linv(k, j) == T::zero_spec());
                lemma_mul_zero(a.chol_l(i, k));
            }
            lemma_sum_of_zeros(t, m);
        }
    } else {
        lemma_factor_times_inverse_row(a, i, j, m - 1);
        assert(a.chol_l(i, m - 1) == T::zero_spec());
        lemma_mul_zero(a.linv(m - 1, j));
        lemma_add_zero(sum_upto(t, m - 1));
    }
}

/// The Cholesky factor times what forward substitution makes of it is the
/// identity.
pub proof fn lemma_factor_times_inverse<T: Scalar, const N: usize>(a: Cov<T, N>)
    requires
        exact_arithmetic::<T>(),
        a.pivots_positive(N as int),
    ensures
        same_entries(prod(a.chol_entries(), a.linv_entries(), N as int), eye(), N as int),
{
    assert forall|i: int, j: int| 0 <= i < N && 0 <= j < N implies #[trigger] prod(
        a.chol_entries(),
        a.linv_entries(),
        N as int,
    )(i, j) == eye::<T>()(i, j) by {
        lemma_factor_times_inverse_row(a, i, j, N as int);
    }
}

/// The Cholesky factor times the product of its inverse with it is the
/// factor again.
proof fn lemma_factor_absorbs<T: Scalar, const N: usize>(a: Cov<T, N>)
    requires
        exact_arithmetic::<T>(),
        a.pivots_positive(N as int),
    ensures
        same_entries(
            prod(a.chol_entries(), prod(a.linv_entries(), a.chol_entries(), N as int), N as int),
            a.chol_entries(),
            N as int,
        ),
{
    let n = N as int;
    let l = a.chol_entries();
    let w = a.linv_entries();
    lemma_prod_assoc(l, w, l, n);
    lemma_factor_times_inverse(a);
    lemma_prod_of_same(prod(l, w, n), l, eye(), l, n);
    lemma_prod_with_eye(l, n);
    assert forall|i: int, j: int| 0 <= i < n && 0 <= j < n implies #[trigger] prod(
        l,
        prod(w, l, n),
        n,
    )(i, j) == l(i, j) by {
        assert(prod(prod(l, w, n), l, n)(i, j) == prod(l, prod(w, l, n), n)(i, j));
        assert(prod(prod(l, w, n), l, n)(i, j) == prod(eye(), l, n)(i, j));
        assert(prod(eye(), l, n)(i, j) == l(i, j));
    }
}

/// Zeros at the end of a sum add nothing.
proof fn lemma_sum_trailing_zeros<T: Scalar>(f: spec_fn(int) -> T, n: int, m: int)
    requires
        exact_arithmetic::<T>(),
        n <= m,
        forall|k: int| n <= k < m ==> #[trigger] f(k) == T::zero_spec(),
    ensures
        sum_upto(f, m) == sum_upto(f, n),
    decreases m - n,
{
    if n < m {
        lemma_sum_trailing_zeros(f, n, m - 1);
        lemma_add_zero(sum_upto(f, m - 1));
    }
}

/// Entry `(i, j)` of the inverse of the Cholesky factor times the factor is
/// that of the identity.
proof fn lemma_inverse_times_factor_entry<T: Scalar, const N: usize>(a: Cov<T, N>, i: int, j: int)
    requires
        exact_arithmetic::<T>(),
        a.pivots_positive(N as int),
        0 <= i < N,
        0 <= j < N,
    ensures
        prod(a.linv_entries(), a.chol_entries(), N as int)(i, j) == eye::<T>()(i, j),
    decreases i,
{
    let n = N as int;
    let l = a.chol_entries();
    let w = a.linv_entries();
    let x = prod(w, l, n);
    let f = prod_term(l, x, i, j);
    let g = prod_term(l, eye::<T>(), i, j);
    let d = a.chol_l(i, i);
    let o = T::zero_spec();
    lemma_factor_absorbs(a);
    assert(prod(l, x, n)(i, j) == l(i, j));
    assert(sum_upto(f, n) == a.chol_l(i, j));
    assert forall|k: int| i + 1 <= k < n implies #[trigger] f(k) == o by {
        assert(a.chol_l(i, k) == o);
        lemma_mul_zero(x(k, j));
    }
    lemma_sum_trailing_zeros(f, i + 1, n);
    assert forall|k: int| 0 <= k < i implies #[trigger] f(k) == g(k) by {
        lemma_inverse_times_factor_entry(a, k, j);
    }
    lemma_sum_of_equal_terms(f, g, i);
    assert forall|k: int| 0 <= k < i && k != j implies #[trigger] g(k) == o by {
        lemma_mul_zero(a.chol_l(i, k));
    }
    lemma_sum_picks(g, i, j);
    lemma_mul_one(a.chol_l(i, j));
    lemma_factor_diagonal(a, i);
    let before = sum_upto(f, i);
    assert(sum_upto(f, i + 1) == before.add_spec(d.mul_spec(x(i, j))));
    lemma_mul_zero(d);
    lemma_mul_one(d);
    if j < i {
        assert(before == a.chol_l(i, j));
        lemma_add_zero(before);
        lemma_add_cancels(before, d.mul_spec(x(i, j)), o);
        lemma_mul_cancels(d, x(i, j), o);
    } else if j == i {
        assert(before == o);
        lemma_add_zero(d.mul_spec(x(i, j)));
        lemma_mul_cancels(d, x(i, j), T::one_spec());
    } else {
        assert(before == o);
        assert(a.chol_l(i, j) == o);
        lemma_add_zero(d.mul_spec(x(i, j)));
        lemma_mul_cancels(d, x(i, j), o);
    }
}

/// What forward substitution makes of the Cholesky factor, times the factor,
/// is the identity.
pub proof fn lemma_inverse_times_factor<T: Scalar, const N: usize>(a: Cov<T, N>)
    requires
        exact_arithmetic::<T>(),
        a.pivots_positive(N as int),
    ensures
        same_entries(prod(a.linv_entries(), a.chol_entries(), N as int), eye(), N as int),
{
    assert forall|i: int, j: int| 0 <= i < N && 0 <= j < N implies #[trigger] prod(
        a.linv_entries(),
        a.chol_entries(),
        N as int,
    )(i, j) == eye::<T>()(i, j) by {
        lemma_inverse_times_factor_entry(a, i, j);
    }
}

/// A sum that starts after nothing but zeros is the sum from the start.
proof fn lemma_sum_leading_zeros<T: Scalar>(f: spec_fn(int) -> T, lo: int, hi: int)
    requires
        exact_arithmetic::<T>(),
        0 <= lo <= hi,
        forall|k: int| 0 <= k < lo ==> #[trigger] f(k) == T::zero_spec(),
    ensures
        sum_range(f, lo, hi) == sum_upto(f, hi),
    decreases hi - lo,
{
    if lo < hi {
        lemma_sum_leading_zeros(f, lo, hi - 1);
    } else {
        lemma_sum_of_zeros(f, lo);
    }
}

/// The inverse, as it is computed, is the transpose of the inverse of the
/// Cholesky factor times that inverse.
pub proof fn lemma_inverse_entries<T: Scalar, const N: usize>(a: Cov<T, N>, inv: Cov<T, N>)
    requires
        exact_arithmetic::<T>(),
        a.inverse_is(inv),
    ensures
        same_entries(
            inv.entries(),
            prod(transposed(a.linv_entries()), a.linv_entries(), N as int),
            N as int,
        ),
{
    let n = N as int;
    let w = a.linv_entries();
    assert forall|k: int, j: int| 0 <= k < n && 0 <= j < n implies #[trigger] inv.entries()(k, j)
        == prod(transposed(w), w, n)(k, j) by {
        let (p, q) = if k <= j {
            (k, j)
        } else {
            (j, k)
        };
        let f = a.inv_term(p, q);
        let g = prod_term(transposed(w), w, k, j);
        assert(inv.at(k, j) == inv.at(p, q));
        assert(inv.at(p, q) == a.inv_entry(p, q));
        assert forall|m: int| 0 <= m < q implies #[trigger] f(m) == T::zero_spec() by {
            assert(a.linv(m, q) == T::zero_spec());
            lemma_mul_zero(a.linv(m, p));
        }
        lemma_sum_leading_zeros(f, q, n);
        assert forall|m: int| 0 <= m < n implies #[trigger] f(m) == g(m) by {
            lemma_mul_comm(a.linv(m, p), a.linv(m, q));
        }
        lemma_sum_of_equal_terms(f, g, n);
    }
}

/// The matrix times its inverse, as both are computed, is the identity.
pub proof fn lemma_matrix_times_inverse<T: Scalar, const N: usize>(a: Cov<T, N>, inv: Cov<T, N>)
    requires
        exact_arithmetic::<T>(),
        a.pivots_positive(N as int),
        a.inverse_is(inv),
    ensures
        same_entries(prod(a.entries(), inv.entries(), N as int), eye(), N as int),
{
    let n = N as int;
    let l = a.chol_entries();
    let w = a.linv_entries();
    let lt = transposed(l);
    let wt = transposed(w);
    let z = prod(wt, w, n);
    // a · inv is (l · lt) · (wt · w)
    lemma_factor_times_transpose(a);
    lemma_same_symmetric(prod(l, lt, n), a.entries(), n);
    lemma_inverse_entries(a, inv);
    lemma_prod_of_same(a.entries(), inv.entries(), prod(l, lt, n), z, n);
    // which is l · (lt · (wt · w))
    lemma_prod_assoc(l, lt, z, n);
    lemma_same_transitive(
        prod(a.entries(), inv.entries(), n),
        prod(prod(l, lt, n), z, n),
        prod(l, prod(lt, z, n), n),
        n,
    );
    // lt · wt is the transpose of w · l, the identity
    lemma_prod_transposed(w, l, n);
    lemma_inverse_times_factor(a);
    assert(same_entries(prod(lt, wt, n), eye(), n)) by {
        assert forall|i: int, j: int| 0 <= i < n && 0 <= j < n implies #[trigger] prod(lt, wt, n)(
            i,
            j,
        ) == eye::<T>()(i, j) by {
            assert(prod(lt, wt, n)(i, j) == transposed(prod(w, l, n))(i, j));
            assert(prod(w, l, n)(j, i) == eye::<T>()(j, i));
        }
    }
    // so lt · (wt · w) is (lt · wt) · w, which is w
    lemma_prod_assoc(lt, wt, w, n);
    lemma_same_symmetric(prod(prod(lt, wt, n), w, n), prod(lt, z, n), n);
    assert(same_entries(w, w, n));
    lemma_prod_of_same(prod(lt, wt, n), w, eye(), w, n);
    lemma_prod_with_eye(w, n);
    lemma_same_transitive(prod(lt, z, n), prod(prod(lt, wt, n), w, n), prod(eye(), w, n), n);
    lemma_same_transitive(prod(lt, z, n), prod(eye(), w, n), w, n);
    // and l · w is the identity
    assert(same_entries(l, l, n));
    lemma_prod_of_same(l, prod(lt, z, n), l, w, n);
    lemma_factor_times_inverse(a);
    lemma_same_transitive(prod(l, prod(lt, z, n), n), prod(l, w, n), eye(), n);
    lemma_same_transitive(
        prod(a.entries(), inv.entries(), n),
        prod(l, prod(lt, z, n), n),
        eye(),
        n,
    );
}

} // verus!
