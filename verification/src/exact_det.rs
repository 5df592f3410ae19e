//! Determinants where the scalar's arithmetic is exact.

use vstd::prelude::*;
use crate::cov::Cov;
use crate::det::all_columns;
use crate::exact::{
    added, exact_arithmetic, lemma_add_assoc, lemma_add_cancels, lemma_add_comm, lemma_add_zero,
    lemma_distributes, lemma_div_undoes_mul, lemma_mul_assoc, lemma_mul_comm, lemma_mul_one,
    lemma_mul_zero, lemma_sqrt_squares, lemma_sub_undoes_add, lemma_sum_added,
    lemma_sum_of_zeros, lemma_sum_picks, lemma_sum_scaled, product_upto, same_entries, scaled,
};
use crate::exact_chol::{lemma_factor_diagonal, lemma_rows_of_factor};
use crate::scalar::{lemma_sum_of_equal_terms, sum_upto, Scalar};

verus! {

/// What added to `x` gives zero.
pub open spec fn minus<T: Scalar>(x: T) -> T {
    T::zero_spec().sub_spec(x)
}

/// `x` for an even `j`, its opposite for an odd one.
pub open spec fn signed<T: Scalar>(j: int, x: T) -> T {
    if j % 2 == 0 {
        x
    } else {
        minus(x)
    }
}

/// The matrix `m` without its first row and its column `j`.
pub open spec fn minor<T: Scalar>(m: spec_fn(int, int) -> T, j: int) -> spec_fn(int, int) -> T {
    |i: int, c: int|
        m(
            i + 1,
            if c < j {
                c
            } else {
                c + 1
            },
        )
}

/// The terms of the cofactor expansion of the `n`×`n` matrix `m` along its
/// first row.
pub open spec fn cofactors<T: Scalar>(m: spec_fn(int, int) -> T, n: int) -> spec_fn(int) -> T
    decreases n, 0int,
{
    |j: int|
        if n >= 1 {
            signed(j, m(0, j).mul_spec(det_of(minor(m, j), n - 1)))
        } else {
            T::zero_spec()
        }
}

/// The determinant of the `n`×`n` matrix `m`: one for the empty matrix, else
/// the cofactor expansion along the first row.
pub open spec fn det_of<T: Scalar>(m: spec_fn(int, int) -> T, n: int) -> T
    decreases n, 1int,
{
    if n <= 0 {
        T::one_spec()
    } else {
        sum_upto(cofactors(m, n), n)
    }
}

pub proof fn lemma_minus<T: Scalar>(x: T)
    requires
        exact_arithmetic::<T>(),
    ensures
        x.add_spec(minus(x)) == T::zero_spec(),
        minus(x).add_spec(x) == T::zero_spec(),
{
    lemma_sub_undoes_add(T::zero_spec(), x);
    lemma_add_comm(x, minus(x));
}

/// Taking off is adding the opposite.
pub proof fn lemma_sub_is_add_minus<T: Scalar>(a: T, x: T)
    requires
        exact_arithmetic::<T>(),
    ensures
        a.sub_spec(x) == a.add_spec(minus(x)),
{
    lemma_sub_undoes_add(a, x);
    lemma_minus(x);
    lemma_add_comm(a, minus(x));
    lemma_add_assoc(x, minus(x), a);
    lemma_add_zero(a);
    lemma_add_cancels(x, a.sub_spec(x), a.add_spec(minus(x)));
}

/// Determinants of the same matrices are the same.
pub proof fn lemma_det_of_same<T: Scalar>(
    x: spec_fn(int, int) -> T,
    y: spec_fn(int, int) -> T,
    n: int,
)
    requires
        same_entries(x, y, n),
    ensures
        det_of(x, n) == det_of(y, n),
    decreases n,
{
    if n > 0 {
        assert forall|j: int| 0 <= j < n implies #[trigger] cofactors(x, n)(j) == cofactors(y, n)(
            j,
        ) by {
            assert(x(0, j) == y(0, j));
            assert forall|i: int, c: int| 0 <= i < n - 1 && 0 <= c < n - 1 implies #[trigger] minor(
                x,
                j,
            )(i, c) == minor(y, j)(i, c) by {
                let cc = if c < j {
                    c
                } else {
                    c + 1
                };
                assert(x(i + 1, cc) == y(i + 1, cc));
            }
            lemma_det_of_same(minor(x, j), minor(y, j), n - 1);
        }
        lemma_sum_of_equal_terms(cofactors(x, n), cofactors(y, n), n);
    }
}

/// The last `cols.len()` rows of the matrix `a`, restricted to the columns
/// `cols`.
pub open spec fn block_of<T: Scalar, const N: usize>(a: Cov<T, N>, cols: Seq<usize>) -> spec_fn(
    int,
    int,
) -> T {
    |i: int, c: int| a.at(N - cols.len() + i, cols[c] as int)
}

/// The cofactor expansion that the determinant is computed by gives the
/// determinant of the block.
pub proof fn lemma_minor_det_is_det<T: Scalar, const N: usize>(a: Cov<T, N>, cols: Seq<usize>)
    requires
        exact_arithmetic::<T>(),
    ensures
        a.minor_det(cols) == det_of(block_of(a, cols), cols.len() as int),
    decreases cols.len(), cols.len() + 1,
{
    if cols.len() > 0 {
        lemma_cofactor_sum_is_sum(a, cols, cols.len() as int);
    }
}

proof fn lemma_cofactor_sum_is_sum<T: Scalar, const N: usize>(a: Cov<T, N>, cols: Seq<usize>, k: int)
    requires
        exact_arithmetic::<T>(),
        0 <= k <= cols.len(),
        cols.len() > 0,
    ensures
        a.cofactor_sum(cols, k) == sum_upto(
            cofactors(block_of(a, cols), cols.len() as int),
            k,
        ),
    decreases cols.len(), k,
{
    if k > 0 {
        let n = cols.len() as int;
        let m = block_of(a, cols);
        let j = k - 1;
        lemma_cofactor_sum_is_sum(a, cols, k - 1);
        let rest = cols.remove(j);
        lemma_minor_det_is_det(a, rest);
        assert forall|i: int, c: int| 0 <= i < n - 1 && 0 <= c < n - 1 implies #[trigger] minor(
            m,
            j,
        )(i, c) == block_of(a, rest)(i, c) by {}
        lemma_det_of_same(minor(m, j), block_of(a, rest), n - 1);
        let before = a.cofactor_sum(cols, k - 1);
        let term = a.at(N - cols.len(), cols[j] as int).mul_spec(a.minor_det(rest));
        assert(m(0, j) == a.at(N - cols.len(), cols[j] as int));
        assert(cofactors(m, n)(j) == signed(j, term));
        lemma_sub_is_add_minus(before, term);
    }
}

/// The opposite of a sum is the sum of the opposites.
pub proof fn lemma_minus_of_sum<T: Scalar>(x: T, y: T)
    requires
        exact_arithmetic::<T>(),
    ensures
        minus(x.add_spec(y)) == minus(x).add_spec(minus(y)),
{
    let s = x.add_spec(y);
    let t = minus(x).add_spec(minus(y));
    lemma_minus(s);
    lemma_minus(x);
    lemma_minus(y);
    // (x + y) + (-x + -y) == 0
    lemma_add_assoc(x, y, t);
    lemma_add_comm(minus(x), minus(y));
    lemma_add_assoc(y, minus(y), minus(x));
    lemma_add_zero(minus(x));
    lemma_add_cancels(s, minus(s), t);
}

/// A factor can be taken out of an opposite.
pub proof fn lemma_minus_of_product<T: Scalar>(c: T, x: T)
    requires
        exact_arithmetic::<T>(),
    ensures
        c.mul_spec(minus(x)) == minus(c.mul_spec(x)),
        minus(x).mul_spec(c) == minus(x.mul_spec(c)),
{
    lemma_minus(x);
    lemma_distributes(c, x, minus(x));
    lemma_mul_zero(c);
    lemma_minus(c.mul_spec(x));
    lemma_add_cancels(c.mul_spec(x), c.mul_spec(minus(x)), minus(c.mul_spec(x)));
    lemma_mul_comm(c, minus(x));
    lemma_mul_comm(c, x);
}

/// The opposite of the opposite is the scalar itself, and zero is its own
/// opposite.
pub proof fn lemma_minus_twice<T: Scalar>(x: T)
    requires
        exact_arithmetic::<T>(),
    ensures
        minus(minus(x)) == x,
        minus(T::zero_spec()) == T::zero_spec(),
{
    lemma_minus(x);
    lemma_minus(minus(x));
    lemma_add_cancels(minus(x), minus(minus(x)), x);
    lemma_minus(T::zero_spec());
    lemma_add_zero(minus(T::zero_spec()));
}

/// The sign goes through sums and products, and turns from one index to the
/// next.
pub proof fn lemma_signed<T: Scalar>(j: int, c: T, x: T, y: T)
    requires
        exact_arithmetic::<T>(),
    ensures
        signed(j, x.add_spec(y)) == signed(j, x).add_spec(signed(j, y)),
        signed(j, c.mul_spec(x)) == c.mul_spec(signed(j, x)),
        signed(j + 1, x) == minus(signed(j, x)),
        signed(j, minus(x)) == minus(signed(j, x)),
        signed(j, T::zero_spec()) == T::zero_spec(),
{
    lemma_minus_of_sum(x, y);
    lemma_minus_of_product(c, x);
    lemma_minus_twice(x);
}

/// The matrix `m` with `u` in place of its column `p`.
pub open spec fn with_col<T: Scalar>(m: spec_fn(int, int) -> T, p: int, u: spec_fn(int) -> T)
    -> spec_fn(int, int) -> T {
    |i: int, c: int|
        if c == p {
            u(i)
        } else {
            m(i, c)
        }
}

/// Column `p` of the matrix `m`.
pub open spec fn col<T: Scalar>(m: spec_fn(int, int) -> T, p: int) -> spec_fn(int) -> T {
    |i: int| m(i, p)
}

/// The column `u` without its first entry.
pub open spec fn shifted<T: Scalar>(u: spec_fn(int) -> T) -> spec_fn(int) -> T {
    |i: int| u(i + 1)
}

/// Where column `p` goes when column `j` is taken out.
pub open spec fn place_without(p: int, j: int) -> int {
    if p < j {
        p
    } else {
        p - 1
    }
}

/// Taking a row and a column out of a matrix with a column replaced: the
/// replaced column is gone, or it is replaced in what remains.
pub proof fn lemma_minor_with_col<T: Scalar>(
    m: spec_fn(int, int) -> T,
    p: int,
    u: spec_fn(int) -> T,
    j: int,
    n: int,
)
    ensures
        j == p ==> same_entries(minor(with_col(m, p, u), j), minor(m, j), n),
        j != p ==> same_entries(
            minor(with_col(m, p, u), j),
            with_col(minor(m, j), place_without(p, j), shifted(u)),
            n,
        ),
{
    if j == p {
        assert forall|i: int, c: int| 0 <= i < n && 0 <= c < n implies #[trigger] minor(
            with_col(m, p, u),
            j,
        )(i, c) == minor(m, j)(i, c) by {}
    } else {
        assert forall|i: int, c: int| 0 <= i < n && 0 <= c < n implies #[trigger] minor(
            with_col(m, p, u),
            j,
        )(i, c) == with_col(minor(m, j), place_without(p, j), shifted(u))(i, c) by {}
    }
}

/// The determinant is additive in each column.
pub proof fn lemma_det_additive<T: Scalar>(
    m: spec_fn(int, int) -> T,
    p: int,
    u: spec_fn(int) -> T,
    v: spec_fn(int) -> T,
    n: int,
)
    requires
        exact_arithmetic::<T>(),
        0 <= p < n,
    ensures
        det_of(with_col(m, p, added(u, v)), n) == det_of(with_col(m, p, u), n).add_spec(
            det_of(with_col(m, p, v), n),
        ),
    decreases n,
{
    let ms = with_col(m, p, added(u, v));
    let mu = with_col(m, p, u);
    let mv = with_col(m, p, v);
    assert forall|j: int| 0 <= j < n implies #[trigger] cofactors(ms, n)(j) == added(
        cofactors(mu, n),
        cofactors(mv, n),
    )(j) by {
        lemma_minor_with_col(m, p, added(u, v), j, n - 1);
        lemma_minor_with_col(m, p, u, j, n - 1);
        lemma_minor_with_col(m, p, v, j, n - 1);
        if j == p {
            lemma_det_of_same(minor(ms, j), minor(m, j), n - 1);
            lemma_det_of_same(minor(mu, j), minor(m, j), n - 1);
            lemma_det_of_same(minor(mv, j), minor(m, j), n - 1);
            let d = det_of(minor(m, j), n - 1);
            lemma_distributes(d, u(0), v(0));
            lemma_signed(j, d, u(0).mul_spec(d), v(0).mul_spec(d));
        } else {
            let q = place_without(p, j);
            let base = minor(m, j);
            let su = shifted(u);
            let sv = shifted(v);
            lemma_det_additive(base, q, su, sv, n - 1);
            assert forall|i: int, c: int| 0 <= i < n - 1 && 0 <= c < n - 1 implies #[trigger] with_col(
                base,
                q,
                shifted(added(u, v)),
            )(i, c) == with_col(base, q, added(su, sv))(i, c) by {}
            lemma_det_of_same(
                with_col(base, q, shifted(added(u, v))),
                with_col(base, q, added(su, sv)),
                n - 1,
            );
            lemma_det_of_same(minor(ms, j), with_col(base, q, shifted(added(u, v))), n - 1);
            lemma_det_of_same(minor(mu, j), with_col(base, q, su), n - 1);
            lemma_det_of_same(minor(mv, j), with_col(base, q, sv), n - 1);
            let du = det_of(with_col(base, q, su), n - 1);
            let dv = det_of(with_col(base, q, sv), n - 1);
            lemma_distributes(m(0, j), du, dv);
            lemma_signed(j, m(0, j), m(0, j).mul_spec(du), m(0, j).mul_spec(dv));
        }
    }
    lemma_sum_of_equal_terms(cofactors(ms, n), added(cofactors(mu, n), cofactors(mv, n)), n);
    lemma_sum_added(cofactors(mu, n), cofactors(mv, n), n);
}

/// A factor common to a column can be taken out of the determinant.
pub proof fn lemma_det_homogeneous<T: Scalar>(
    m: spec_fn(int, int) -> T,
    p: int,
    c: T,
    u: spec_fn(int) -> T,
    n: int,
)
    requires
        exact_arithmetic::<T>(),
        0 <= p < n,
    ensures
        det_of(with_col(m, p, scaled(c, u)), n) == c.mul_spec(det_of(with_col(m, p, u), n)),
    decreases n,
{
    let ms = with_col(m, p, scaled(c, u));
    let mu = with_col(m, p, u);
    assert forall|j: int| 0 <= j < n implies #[trigger] cofactors(ms, n)(j) == scaled(
        c,
        cofactors(mu, n),
    )(j) by {
        lemma_minor_with_col(m, p, scaled(c, u), j, n - 1);
        lemma_minor_with_col(m, p, u, j, n - 1);
        if j == p {
            lemma_det_of_same(minor(ms, j), minor(m, j), n - 1);
            lemma_det_of_same(minor(mu, j), minor(m, j), n - 1);
            let d = det_of(minor(m, j), n - 1);
            lemma_mul_assoc(c, u(0), d);
            lemma_signed(j, c, u(0).mul_spec(d), d);
        } else {
            let q = place_without(p, j);
            let base = minor(m, j);
            let su = shifted(u);
            lemma_det_homogeneous(base, q, c, su, n - 1);
            assert forall|i: int, k: int| 0 <= i < n - 1 && 0 <= k < n - 1 implies #[trigger] with_col(
                base,
                q,
                shifted(scaled(c, u)),
            )(i, k) == with_col(base, q, scaled(c, su))(i, k) by {}
            lemma_det_of_same(
                with_col(base, q, shifted(scaled(c, u))),
                with_col(base, q, scaled(c, su)),
                n - 1,
            );
            lemma_det_of_same(minor(ms, j), with_col(base, q, shifted(scaled(c, u))), n - 1);
            lemma_det_of_same(minor(mu, j), with_col(base, q, su), n - 1);
            let du = det_of(with_col(base, q, su), n - 1);
            let x = m(0, j);
            lemma_mul_assoc(x, c, du);
            lemma_mul_comm(x, c);
            lemma_mul_assoc(c, x, du);
            lemma_signed(j, c, x.mul_spec(du), du);
        }
    }
    lemma_sum_of_equal_terms(cofactors(ms, n), scaled(c, cofactors(mu, n)), n);
    lemma_sum_scaled(c, cofactors(mu, n), n);
}

/// Every term of `f` turned into its opposite.
pub open spec fn negated<T: Scalar>(f: spec_fn(int) -> T) -> spec_fn(int) -> T {
    |k: int| minus(f(k))
}

/// The sum of the opposites is the opposite of the sum.
pub proof fn lemma_sum_negated<T: Scalar>(f: spec_fn(int) -> T, n: int)
    requires
        exact_arithmetic::<T>(),
    ensures
        sum_upto(negated(f), n) == minus(sum_upto(f, n)),
    decreases n,
{
    if n > 0 {
        lemma_sum_negated(f, n - 1);
        lemma_minus_of_sum(sum_upto(f, n - 1), f(n - 1));
    } else {
        lemma_minus_twice(T::zero_spec());
    }
}

/// Two neighbouring terms of a sum can change places.
pub proof fn lemma_sum_swapped<T: Scalar>(
    f: spec_fn(int) -> T,
    g: spec_fn(int) -> T,
    n: int,
    p: int,
)
    requires
        exact_arithmetic::<T>(),
        0 <= p,
        p + 1 < n,
        g(p) == f(p + 1),
        g(p + 1) == f(p),
        forall|k: int| 0 <= k < n && k != p && k != p + 1 ==> #[trigger] g(k) == f(k),
    ensures
        sum_upto(g, n) == sum_upto(f, n),
    decreases n,
{
    if n == p + 2 {
        lemma_sum_of_equal_terms(g, f, p);
        let before = sum_upto(f, p);
        lemma_add_assoc(before, f(p + 1), f(p));
        lemma_add_comm(f(p + 1), f(p));
        lemma_add_assoc(before, f(p), f(p + 1));
        assert(sum_upto(g, p + 1) == sum_upto(g, p).add_spec(g(p)));
        assert(sum_upto(f, p + 1) == sum_upto(f, p).add_spec(f(p)));
    } else {
        lemma_sum_swapped(f, g, n - 1, p);
    }
}

/// A sum of zeros and of two neighbouring terms that are each other's
/// opposite is zero.
pub proof fn lemma_sum_cancelling<T: Scalar>(f: spec_fn(int) -> T, n: int, p: int)
    requires
        exact_arithmetic::<T>(),
        0 <= p,
        p + 1 < n,
        f(p + 1) == minus(f(p)),
        forall|k: int| 0 <= k < n && k != p && k != p + 1 ==> #[trigger] f(k) == T::zero_spec(),
    ensures
        sum_upto(f, n) == T::zero_spec(),
    decreases n,
{
    if n == p + 2 {
        lemma_sum_of_zeros(f, p);
        assert(sum_upto(f, p + 1) == sum_upto(f, p).add_spec(f(p)));
        lemma_add_zero(f(p));
        lemma_minus(f(p));
    } else {
        lemma_sum_cancelling(f, n - 1, p);
        lemma_add_zero(T::zero_spec());
    }
}

/// Where column `c` is found once columns `p` and `p + 1` have changed
/// places.
pub open spec fn swap_index(c: int, p: int) -> int {
    if c == p {
        p + 1
    } else if c == p + 1 {
        p
    } else {
        c
    }
}

/// The matrix `m` with its columns `p` and `p + 1` in each other's place.
pub open spec fn swap_cols<T: Scalar>(m: spec_fn(int, int) -> T, p: int) -> spec_fn(int, int) -> T {
    |i: int, c: int| m(i, swap_index(c, p))
}

/// Taking a row and a column out of a matrix with two neighbouring columns
/// swapped.
pub proof fn lemma_minor_swapped<T: Scalar>(m: spec_fn(int, int) -> T, p: int, j: int, n: int)
    requires
        0 <= p,
        0 <= j,
    ensures
        j < p ==> same_entries(minor(swap_cols(m, p), j), swap_cols(minor(m, j), p - 1), n),
        j > p + 1 ==> same_entries(minor(swap_cols(m, p), j), swap_cols(minor(m, j), p), n),
        j == p ==> same_entries(minor(swap_cols(m, p), j), minor(m, p + 1), n),
        j == p + 1 ==> same_entries(minor(swap_cols(m, p), j), minor(m, p), n),
{
    if j < p {
        assert forall|i: int, c: int| 0 <= i < n && 0 <= c < n implies #[trigger] minor(
            swap_cols(m, p),
            j,
        )(i, c) == swap_cols(minor(m, j), p - 1)(i, c) by {}
    } else if j > p + 1 {
        assert forall|i: int, c: int| 0 <= i < n && 0 <= c < n implies #[trigger] minor(
            swap_cols(m, p),
            j,
        )(i, c) == swap_cols(minor(m, j), p)(i, c) by {}
    } else if j == p {
        assert forall|i: int, c: int| 0 <= i < n && 0 <= c < n implies #[trigger] minor(
            swap_cols(m, p),
            j,
        )(i, c) == minor(m, p + 1)(i, c) by {}
    } else {
        assert forall|i: int, c: int| 0 <= i < n && 0 <= c < n implies #[trigger] minor(
            swap_cols(m, p),
            j,
        )(i, c) == minor(m, p)(i, c) by {}
    }
}

/// Swapping two neighbouring columns turns the determinant into its
/// opposite.
pub proof fn lemma_det_swapped<T: Scalar>(m: spec_fn(int, int) -> T, p: int, n: int)
    requires
        exact_arithmetic::<T>(),
        0 <= p,
        p + 1 < n,
    ensures
        det_of(swap_cols(m, p), n) == minus(det_of(m, n)),
    decreases n,
{
    let s = swap_cols(m, p);
    let f = cofactors(m, n);
    let g = cofactors(s, n);
    let h = negated(f);
    assert forall|j: int| 0 <= j < n implies #[trigger] g(j) == h(swap_index(j, p)) by {
        lemma_minor_swapped(m, p, j, n - 1);
        if j < p || j > p + 1 {
            let q = if j < p {
                p - 1
            } else {
                p
            };
            lemma_det_of_same(minor(s, j), swap_cols(minor(m, j), q), n - 1);
            lemma_det_swapped(minor(m, j), q, n - 1);
            let d = det_of(minor(m, j), n - 1);
            lemma_minus_of_product(m(0, j), d);
            lemma_signed(j, d, m(0, j).mul_spec(d), d);
        } else if j == p {
            lemma_det_of_same(minor(s, j), minor(m, p + 1), n - 1);
            let x = m(0, p + 1).mul_spec(det_of(minor(m, p + 1), n - 1));
            lemma_signed(p, x, x, x);
            lemma_minus_twice(signed(p, x));
        } else {
            lemma_det_of_same(minor(s, j), minor(m, p), n - 1);
            let x = m(0, p).mul_spec(det_of(minor(m, p), n - 1));
            lemma_signed(p, x, x, x);
        }
    }
    assert(g(p) == h(p + 1));
    assert(g(p + 1) == h(p));
    assert forall|k: int| 0 <= k < n && k != p && k != p + 1 implies #[trigger] g(k) == h(k) by {
        assert(g(k) == h(swap_index(k, p)));
    }
    lemma_sum_swapped(h, g, n, p);
    lemma_sum_negated(f, n);
}

/// A matrix with two equal neighbouring columns has determinant zero.
pub proof fn lemma_det_neighbours_equal<T: Scalar>(m: spec_fn(int, int) -> T, p: int, n: int)
    requires
        exact_arithmetic::<T>(),
        0 <= p,
        p + 1 < n,
        forall|i: int| 0 <= i < n ==> #[trigger] m(i, p) == m(i, p + 1),
    ensures
        det_of(m, n) == T::zero_spec(),
    decreases n,
{
    let f = cofactors(m, n);
    let o = T::zero_spec();
    assert forall|j: int| 0 <= j < n && j != p && j != p + 1 implies #[trigger] f(j) == o by {
        let q = if j < p {
            p - 1
        } else {
            p
        };
        assert forall|i: int| 0 <= i < n - 1 implies #[trigger] minor(m, j)(i, q) == minor(m, j)(
            i,
            q + 1,
        ) by {
            assert(m(i + 1, p) == m(i + 1, p + 1));
        }
        lemma_det_neighbours_equal(minor(m, j), q, n - 1);
        lemma_mul_zero(m(0, j));
        lemma_signed(j, o, o, o);
    }
    assert(f(p + 1) == minus(f(p))) by {
        assert forall|i: int, c: int| 0 <= i < n - 1 && 0 <= c < n - 1 implies #[trigger] minor(
            m,
            p,
        )(i, c) == minor(m, p + 1)(i, c) by {
            assert(m(i + 1, p) == m(i + 1, p + 1));
        }
        lemma_det_of_same(minor(m, p), minor(m, p + 1), n - 1);
        assert(m(0, p) == m(0, p + 1));
        let x = m(0, p).mul_spec(det_of(minor(m, p), n - 1));
        lemma_signed(p, x, x, x);
    }
    lemma_sum_cancelling(f, n, p);
}

/// A matrix whose first column comes again further on has determinant zero.
pub proof fn lemma_det_first_repeated<T: Scalar>(m: spec_fn(int, int) -> T, t: int, n: int)
    requires
        exact_arithmetic::<T>(),
        1 <= t < n,
        forall|i: int| 0 <= i < n ==> #[trigger] m(i, t) == m(i, 0),
    ensures
        det_of(m, n) == T::zero_spec(),
    decreases t,
{
    if t == 1 {
        assert forall|i: int| 0 <= i < n implies #[trigger] m(i, 0) == m(i, 1) by {
            assert(m(i, t) == m(i, 0));
        }
        lemma_det_neighbours_equal(m, 0, n);
    } else {
        let s = swap_cols(m, t - 1);
        assert forall|i: int| 0 <= i < n implies #[trigger] s(i, t - 1) == s(i, 0) by {
            assert(m(i, t) == m(i, 0));
        }
        lemma_det_first_repeated(s, t - 1, n);
        lemma_det_swapped(m, t - 1, n);
        lemma_minus_twice(det_of(m, n));
    }
}

/// Adding a multiple of the first column to another column leaves the
/// determinant as it is.
pub proof fn lemma_det_column_added<T: Scalar>(m: spec_fn(int, int) -> T, t: int, c: T, n: int)
    requires
        exact_arithmetic::<T>(),
        1 <= t < n,
    ensures
        det_of(with_col(m, t, added(col(m, t), scaled(c, col(m, 0)))), n) == det_of(m, n),
{
    let first = col(m, 0);
    lemma_det_additive(m, t, col(m, t), scaled(c, first), n);
    lemma_det_homogeneous(m, t, c, first, n);
    assert forall|i: int, k: int| 0 <= i < n && 0 <= k < n implies #[trigger] with_col(
        m,
        t,
        col(m, t),
    )(i, k) == m(i, k) by {}
    lemma_det_of_same(with_col(m, t, col(m, t)), m, n);
    let repeated = with_col(m, t, first);
    assert forall|i: int| 0 <= i < n implies #[trigger] repeated(i, t) == repeated(i, 0) by {}
    lemma_det_first_repeated(repeated, t, n);
    lemma_mul_zero(c);
    lemma_add_zero(det_of(m, n));
}

/// The determinant of a matrix whose first row is zero but for its first
/// entry is that entry times the determinant of what is left without the
/// first row and column.
pub proof fn lemma_det_first_row<T: Scalar>(m: spec_fn(int, int) -> T, n: int)
    requires
        exact_arithmetic::<T>(),
        1 <= n,
        forall|j: int| 1 <= j < n ==> #[trigger] m(0, j) == T::zero_spec(),
    ensures
        det_of(m, n) == m(0, 0).mul_spec(det_of(minor(m, 0), n - 1)),
{
    let f = cofactors(m, n);
    let o = T::zero_spec();
    assert forall|j: int| 0 <= j < n && j != 0 implies #[trigger] f(j) == o by {
        assert(m(0, j) == o);
        lemma_mul_zero(det_of(minor(m, j), n - 1));
        lemma_signed(j, o, o, o);
    }
    lemma_sum_picks(f, n, 0);
}

/// The matrix `m` with the multiple `c(j)` of its first column added to each
/// column `j` from the second up to but not including column `t`.
pub open spec fn eliminated<T: Scalar>(m: spec_fn(int, int) -> T, c: spec_fn(int) -> T, t: int)
    -> spec_fn(int, int) -> T {
    |i: int, j: int|
        if 1 <= j < t {
            m(i, j).add_spec(c(j).mul_spec(m(i, 0)))
        } else {
            m(i, j)
        }
}

/// What is left of the matrix `m` below its first row and to the right of
/// its first column once the multiple `c(j)` of the first column is added to
/// each column `j`.
pub open spec fn schur<T: Scalar>(m: spec_fn(int, int) -> T, c: spec_fn(int) -> T) -> spec_fn(
    int,
    int,
) -> T {
    |i: int, j: int| m(i + 1, j + 1).add_spec(c(j + 1).mul_spec(m(i + 1, 0)))
}

/// Adding multiples of the first column to the other columns leaves the
/// determinant as it is.
pub proof fn lemma_det_eliminated<T: Scalar>(
    m: spec_fn(int, int) -> T,
    c: spec_fn(int) -> T,
    t: int,
    n: int,
)
    requires
        exact_arithmetic::<T>(),
        1 <= t <= n,
    ensures
        det_of(eliminated(m, c, t), n) == det_of(m, n),
    decreases t,
{
    if t == 1 {
        assert forall|i: int, j: int| 0 <= i < n && 0 <= j < n implies #[trigger] eliminated(
            m,
            c,
            t,
        )(i, j) == m(i, j) by {}
        lemma_det_of_same(eliminated(m, c, t), m, n);
    } else {
        let e = eliminated(m, c, t - 1);
        lemma_det_eliminated(m, c, t - 1, n);
        let next = with_col(e, t - 1, added(col(e, t - 1), scaled(c(t - 1), col(e, 0))));
        lemma_det_column_added(e, t - 1, c(t - 1), n);
        assert forall|i: int, j: int| 0 <= i < n && 0 <= j < n implies #[trigger] eliminated(
            m,
            c,
            t,
        )(i, j) == next(i, j) by {}
        lemma_det_of_same(eliminated(m, c, t), next, n);
    }
}

/// Where multiples of the first column clear the rest of the first row, the
/// determinant is the first entry times the determinant of what the other
/// columns have become below the first row.
pub proof fn lemma_det_by_elimination<T: Scalar>(
    m: spec_fn(int, int) -> T,
    c: spec_fn(int) -> T,
    n: int,
)
    requires
        exact_arithmetic::<T>(),
        1 <= n,
        forall|j: int|
            1 <= j < n ==> (#[trigger] m(0, j)).add_spec(c(j).mul_spec(m(0, 0))) == T::zero_spec(),
    ensures
        det_of(m, n) == m(0, 0).mul_spec(det_of(schur(m, c), n - 1)),
{
    let e = eliminated(m, c, n);
    lemma_det_eliminated(m, c, n, n);
    assert forall|j: int| 1 <= j < n implies #[trigger] e(0, j) == T::zero_spec() by {
        assert(m(0, j).add_spec(c(j).mul_spec(m(0, 0))) == T::zero_spec());
    }
    lemma_det_first_row(e, n);
    assert forall|i: int, j: int| 0 <= i < n - 1 && 0 <= j < n - 1 implies #[trigger] minor(e, 0)(
        i,
        j,
    ) == schur(m, c)(i, j) by {}
    lemma_det_of_same(minor(e, 0), schur(m, c), n - 1);
}

/// Taking off a sum is taking off its terms one after the other.
pub proof fn lemma_sub_of_sum<T: Scalar>(a: T, s: T, x: T)
    requires
        exact_arithmetic::<T>(),
    ensures
        a.sub_spec(s.add_spec(x)) == a.sub_spec(s).add_spec(minus(x)),
        a.sub_spec(T::zero_spec()) == a,
{
    lemma_sub_is_add_minus(a, s.add_spec(x));
    lemma_sub_is_add_minus(a, s);
    lemma_minus_of_sum(s, x);
    lemma_add_assoc(a, minus(s), minus(x));
    lemma_sub_is_add_minus(a, T::zero_spec());
    lemma_minus_twice(T::zero_spec());
    lemma_add_zero(a);
}

/// What remains of the matrix from row and column `m` on, once the first `m`
/// columns of the Cholesky factor, each times its own transpose, are taken
/// off.
pub open spec fn remainder<T: Scalar, const N: usize>(a: Cov<T, N>, m: int) -> spec_fn(
    int,
    int,
) -> T {
    |i: int, j: int| a.at(m + i, m + j).sub_spec(sum_upto(a.gram_term(m + i, m + j), m))
}

/// The multiples of the first column of the remainder that clear its first
/// row.
pub open spec fn multipliers<T: Scalar, const N: usize>(a: Cov<T, N>, m: int) -> spec_fn(int) -> T {
    |j: int| minus(a.chol_l(m + j, m).div_spec(a.chol_l(m, m)))
}

/// The pivots of the Cholesky factorisation.
pub open spec fn pivots<T: Scalar, const N: usize>(a: Cov<T, N>) -> spec_fn(int) -> T {
    |i: int| a.chol_pivot(i)
}

/// The first column of the remainder is the matching column of the Cholesky
/// factor times its diagonal entry, and so is the first row.
proof fn lemma_remainder_edge<T: Scalar, const N: usize>(a: Cov<T, N>, m: int, i: int)
    requires
        exact_arithmetic::<T>(),
        0 <= m,
        0 <= i,
        a.chol_pivot(m).positive_spec(),
    ensures
        remainder(a, m)(i, 0) == a.chol_l(m + i, m).mul_spec(a.chol_l(m, m)),
        remainder(a, m)(0, i) == a.chol_l(m + i, m).mul_spec(a.chol_l(m, m)),
        remainder(a, m)(0, 0) == a.chol_pivot(m),
{
    let d = a.chol_l(m, m);
    lemma_rows_of_factor(a, m + i, m, m);
    lemma_rows_of_factor(a, m, m, m);
    lemma_factor_diagonal(a, m);
    lemma_sqrt_squares(a.chol_pivot(m));
    let rest = a.at(m + i, m).sub_spec(a.chol_dot(m + i, m, m));
    if i > 0 {
        assert(a.chol_l(m + i, m) == rest.div_spec(d));
        lemma_div_undoes_mul(rest, d);
    }
    assert forall|k: int| 0 <= k < m implies #[trigger] a.gram_term(m, m + i)(k) == a.gram_term(
        m + i,
        m,
    )(k) by {
        lemma_mul_comm(a.chol_l(m, k), a.chol_l(m + i, k));
    }
    lemma_sum_of_equal_terms(a.gram_term(m, m + i), a.gram_term(m + i, m), m);
    assert(a.at(m, m + i) == a.at(m + i, m));
}

/// The determinant of the remainder is the pivot times the determinant of
/// the next remainder.
proof fn lemma_remainder_step<T: Scalar, const N: usize>(a: Cov<T, N>, m: int)
    requires
        exact_arithmetic::<T>(),
        0 <= m < N,
        a.chol_pivot(m).positive_spec(),
    ensures
        det_of(remainder(a, m), N - m) == a.chol_pivot(m).mul_spec(
            det_of(remainder(a, m + 1), N - m - 1),
        ),
{
    let n = N - m;
    let r = remainder(a, m);
    let c = multipliers(a, m);
    let d = a.chol_l(m, m);
    let p = a.chol_pivot(m);
    lemma_factor_diagonal(a, m);
    lemma_sqrt_squares(p);
    lemma_remainder_edge(a, m, 0);
    assert forall|j: int| 1 <= j < n implies (#[trigger] r(0, j)).add_spec(c(j).mul_spec(r(0, 0)))
        == T::zero_spec() by {
        let lj = a.chol_l(m + j, m);
        let q = lj.div_spec(d);
        lemma_remainder_edge(a, m, j);
        lemma_div_undoes_mul(lj, d);
        lemma_mul_assoc(q, d, d);
        lemma_minus_of_product(p, q);
        lemma_minus(lj.mul_spec(d));
    }
    lemma_det_by_elimination(r, c, n);
    assert forall|i: int, j: int| 0 <= i < n - 1 && 0 <= j < n - 1 implies #[trigger] schur(r, c)(
        i,
        j,
    ) == remainder(a, m + 1)(i, j) by {
        let li = a.chol_l(m + 1 + i, m);
        let lj = a.chol_l(m + 1 + j, m);
        let q = lj.div_spec(d);
        lemma_remainder_edge(a, m, i + 1);
        lemma_div_undoes_mul(lj, d);
        // q · (li · d) == li · lj
        lemma_mul_comm(li, d);
        lemma_mul_assoc(q, d, li);
        lemma_mul_comm(lj, li);
        lemma_minus_of_product(li.mul_spec(d), q);
        let s = sum_upto(a.gram_term(m + 1 + i, m + 1 + j), m);
        lemma_sub_of_sum(a.at(m + 1 + i, m + 1 + j), s, li.mul_spec(lj));
        assert(a.gram_term(m + 1 + i, m + 1 + j)(m) == li.mul_spec(lj));
        assert(r(i + 1, j + 1) == a.at(m + 1 + i, m + 1 + j).sub_spec(s));
    }
    lemma_det_of_same(schur(r, c), remainder(a, m + 1), n - 1);
}

/// The determinant of the matrix is the product of the first `m` pivots
/// times the determinant of what remains after them.
proof fn lemma_det_through_pivots<T: Scalar, const N: usize>(a: Cov<T, N>, m: int)
    requires
        exact_arithmetic::<T>(),
        a.pivots_positive(N as int),
        0 <= m <= N,
    ensures
        det_of(remainder(a, 0), N as int) == product_upto(pivots(a), m).mul_spec(
            det_of(remainder(a, m), N - m),
        ),
    decreases m,
{
    if m == 0 {
        lemma_mul_one(det_of(remainder(a, 0), N as int));
    } else {
        lemma_det_through_pivots(a, m - 1);
        lemma_remainder_step(a, m - 1);
        lemma_mul_assoc(
            product_upto(pivots(a), m - 1),
            a.chol_pivot(m - 1),
            det_of(remainder(a, m), N - m),
        );
    }
}

/// The determinant, as it is computed, is the product of the pivots of the
/// Cholesky factorisation.
pub proof fn lemma_det_is_product_of_pivots<T: Scalar, const N: usize>(a: Cov<T, N>)
    requires
        exact_arithmetic::<T>(),
        a.pivots_positive(N as int),
    ensures
        a.det_spec() == product_upto(pivots(a), N as int),
{
    let n = N as int;
    let cols = all_columns(n);
    lemma_minor_det_is_det(a, cols);
    assert forall|i: int, j: int| 0 <= i < n && 0 <= j < n implies #[trigger] block_of(a, cols)(
        i,
        j,
    ) == remainder(a, 0)(i, j) by {
        lemma_sub_of_sum(a.at(i, j), T::zero_spec(), T::zero_spec());
    }
    lemma_det_of_same(block_of(a, cols), remainder(a, 0), n);
    lemma_det_through_pivots(a, n);
    lemma_mul_one(product_upto(pivots(a), n));
}

} // verus!
