//! What holds between the operations of the kernel.

use vstd::prelude::*;
use crate::cov::Cov;
use crate::exact::{
    exact_arithmetic, eye, lemma_product_of_equal_factors, lemma_sqrt_squares, prod, prod_term,
    product_upto, transposed,
};
use crate::exact_chol::{lemma_factor_times_transpose, lemma_matrix_times_inverse};
use crate::exact_det::{lemma_det_is_product_of_pivots, pivots};
use crate::fixed::{lemma_fixed_unit_laws, Fixed};
use crate::jac::Jac;
use crate::layout::{
    lemma_packed_index_bounds, lemma_packed_index_onto, packed_index, packed_len,
};
use crate::scalar::{
    lemma_sum_of_equal_terms, lemma_sum_of_one_term, unit_laws_hold, Scalar,
};
use crate::vecn::Vecn;

verus! {

/// The diagonal of a sum of two matrices is the sum of their diagonals.
pub proof fn law_diag_of_sum<T: Scalar, const N: usize>(
    a: Cov<T, N>,
    b: Cov<T, N>,
    sum: Cov<T, N>,
    diag_a: Vecn<T, N>,
    diag_b: Vecn<T, N>,
    diag_sum: Vecn<T, N>,
)
    requires
        a.wf(),
        b.wf(),
        a.sum_is(b, sum),
        a.diag_is(diag_a),
        b.diag_is(diag_b),
        sum.diag_is(diag_sum),
    ensures
        diag_a.sum_is(diag_b, diag_sum),
{
    assert forall|k: int| 0 <= k < N implies #[trigger] diag_sum@[k] == diag_a@[k].add_spec(
        diag_b@[k],
    ) by {
        lemma_packed_index_bounds(N as int, k, k);
        let at = packed_index(N as int, k, k);
        assert(diag_a@[k] == a@[at]);
        assert(diag_b@[k] == b@[at]);
        assert(sum@[at] == a@[at].add_spec(b@[at]));
        assert(diag_sum@[k] == sum@[at]);
    }
}

/// The diagonal of the leading block of a matrix is the beginning of the
/// matrix's own diagonal.
pub proof fn law_diag_of_leading<T: Scalar, const N: usize, const M: usize>(
    a: Cov<T, N>,
    block: Cov<T, M>,
    diag_a: Vecn<T, N>,
    diag_block: Vecn<T, M>,
)
    requires
        a.wf(),
        a.leading_is(block),
        a.diag_is(diag_a),
        block.diag_is(diag_block),
    ensures
        diag_block@ == diag_a@.take(M as int),
{
    assert forall|i: int| 0 <= i < M implies diag_block@[i] == diag_a@.take(M as int)[i] by {
        assert(diag_block@[i] == block.at(i, i));
        assert(diag_a@[i] == a.at(i, i));
    }
    assert(diag_block@ =~= diag_a@.take(M as int));
}

/// Transforming a matrix by the identity gives the matrix back, entry for
/// entry, where zero and one act on its entries as they do in a ring.
pub proof fn law_identity_congruence<T: Scalar, const N: usize>(
    identity: Jac<T, N, N>,
    a: Cov<T, N>,
    out: Cov<T, N>,
)
    requires
        a.wf(),
        identity.is_identity(),
        identity.congruence_is(a, out),
        forall|k: int| 0 <= k < packed_len(N as int) ==> unit_laws_hold(#[trigger] a@[k]),
    ensures
        out@ == a@,
{
    assert forall|k: int, j: int| 0 <= k < N && 0 <= j < N implies a.mul_jac_entry(identity, k, j)
        == a.at(k, j) by {
        let term = a.mul_jac_term(identity, k, j);
        lemma_packed_index_bounds(N as int, k, j);
        assert(unit_laws_hold(a@[packed_index(N as int, k, j)]));
        assert(identity.at(j, j) == T::one_spec());
        assert forall|l: int| 0 <= l < N && l != j implies #[trigger] term(l) == T::zero_spec() by {
            lemma_packed_index_bounds(N as int, k, l);
            assert(identity.at(l, j) == T::zero_spec());
            assert(unit_laws_hold(a@[packed_index(N as int, k, l)]));
        }
        lemma_sum_of_one_term(term, N as int, j);
    }
    assert forall|i: int, j: int| 0 <= i <= j < N implies out.at(i, j) == a.at(i, j) by {
        let term = identity.congruence_term(a, i, j);
        lemma_packed_index_bounds(N as int, i, j);
        assert(unit_laws_hold(a@[packed_index(N as int, i, j)]));
        assert(identity.at(i, i) == T::one_spec());
        assert(a.mul_jac_entry(identity, i, j) == a.at(i, j));
        assert forall|k: int| 0 <= k < N && k != i implies #[trigger] term(k) == T::zero_spec() by {
            lemma_packed_index_bounds(N as int, k, j);
            assert(identity.at(k, i) == T::zero_spec());
            assert(a.mul_jac_entry(identity, k, j) == a.at(k, j));
            assert(unit_laws_hold(a@[packed_index(N as int, k, j)]));
        }
        lemma_sum_of_one_term(term, N as int, i);
    }
    assert forall|k: int| 0 <= k < packed_len(N as int) implies out@[k] == a@[k] by {
        let e = lemma_packed_index_onto(N as int, k);
        assert(out.at(e.0, e.1) == a.at(e.0, e.1));
    }
    assert(out@ =~= a@);
}

/// Over fixed-point numbers, transforming a matrix by the identity gives the
/// matrix back, entry for entry, whatever the matrix holds.
pub proof fn law_identity_congruence_fixed<const N: usize>(
    identity: Jac<Fixed, N, N>,
    a: Cov<Fixed, N>,
    out: Cov<Fixed, N>,
)
    requires
        a.wf(),
        identity.is_identity(),
        identity.congruence_is(a, out),
    ensures
        out@ == a@,
{
    assert forall|k: int| 0 <= k < packed_len(N as int) implies unit_laws_hold(#[trigger] a@[k]) by {
        lemma_fixed_unit_laws(a@[k]);
    }
    law_identity_congruence(identity, a, out);
}

/// The Cholesky factor times its transpose is the matrix it was made from,
/// entry for entry, where the scalar's arithmetic is exact and every pivot is
/// strictly positive.
pub proof fn law_factor_reconstructs<T: Scalar, const N: usize>(
    a: Cov<T, N>,
    l: Jac<T, N, N>,
    lt: Jac<T, N, N>,
    product: Jac<T, N, N>,
)
    requires
        exact_arithmetic::<T>(),
        a.wf(),
        a.pivots_positive(N as int),
        a.chol_is(l),
        l.tr_is(lt),
        l.product_is(lt, product),
    ensures
        a.dense_is(product),
{
    let n = N as int;
    let factor = a.chol_entries();
    lemma_factor_times_transpose(a);
    assert forall|i: int, j: int| 0 <= i < N && 0 <= j < N implies #[trigger] product.at(i, j)
        == a.at(i, j) by {
        let term = l.mul_term(lt, i, j);
        let rows = prod_term(factor, transposed(factor), i, j);
        assert forall|k: int| 0 <= k < N implies #[trigger] term(k) == rows(k) by {
            assert(l.at(i, k) == a.chol_l(i, k));
            assert(lt.at(k, j) == l.at(j, k));
            assert(l.at(j, k) == a.chol_l(j, k));
        }
        lemma_sum_of_equal_terms(term, rows, n);
        assert(prod(factor, transposed(factor), n)(i, j) == a.entries()(i, j));
    }
}

/// The matrix times its inverse is the identity, entry for entry, where the
/// scalar's arithmetic is exact and every pivot is strictly positive.
pub proof fn law_inverse_is_inverse<T: Scalar, const N: usize>(
    a: Cov<T, N>,
    inv: Cov<T, N>,
    product: Jac<T, N, N>,
)
    requires
        exact_arithmetic::<T>(),
        a.wf(),
        a.pivots_positive(N as int),
        a.inverse_is(inv),
        a.product_is(inv, product),
    ensures
        product.is_identity(),
{
    let n = N as int;
    lemma_matrix_times_inverse(a, inv);
    assert forall|i: int, j: int| 0 <= i < N && 0 <= j < N implies #[trigger] product.at(i, j)
        == eye::<T>()(i, j) by {
        let term = a.mul_term(inv, i, j);
        let rows = prod_term(a.entries(), inv.entries(), i, j);
        assert forall|k: int| 0 <= k < N implies #[trigger] term(k) == rows(k) by {}
        lemma_sum_of_equal_terms(term, rows, n);
        assert(prod(a.entries(), inv.entries(), n)(i, j) == eye::<T>()(i, j));
    }
}

/// The squares of the diagonal entries of the matrix `l`.
pub open spec fn squared_diagonal<T: Scalar, const N: usize>(l: Jac<T, N, N>) -> spec_fn(int) -> T {
    |i: int| l.at(i, i).mul_spec(l.at(i, i))
}

/// The determinant is the product of the squares of the diagonal entries of
/// the Cholesky factor, where the scalar's arithmetic is exact and every
/// pivot is strictly positive.
pub proof fn law_det_of_factor<T: Scalar, const N: usize>(a: Cov<T, N>, l: Jac<T, N, N>)
    requires
        exact_arithmetic::<T>(),
        a.wf(),
        a.pivots_positive(N as int),
        a.chol_is(l),
    ensures
        a.det_spec() == product_upto(squared_diagonal(l), N as int),
{
    lemma_det_is_product_of_pivots(a);
    assert forall|i: int| 0 <= i < N implies #[trigger] pivots(a)(i) == squared_diagonal(l)(i) by {
        assert(l.at(i, i) == a.chol_l(i, i));
        lemma_sqrt_squares(a.chol_pivot(i));
    }
    lemma_product_of_equal_factors(pivots(a), squared_diagonal(l), N as int);
}

} // verus!
