//! Sums and products of matrices where the scalar's arithmetic is exact.

use vstd::prelude::*;
use crate::scalar::{lemma_sum_of_equal_terms, sum_upto, Scalar};

verus! {

/// The scalar's arithmetic is exact: addition and multiplication are
/// associative and commutative with zero and one as neutral elements,
/// multiplication distributes over addition, subtraction undoes addition,
/// division by a scalar other than zero undoes multiplication, and the square
/// root of a positive scalar is not zero and has that scalar as its square.
#[verifier::opaque]
pub open spec fn exact_arithmetic<T: Scalar>() -> bool {
    &&& forall|x: T, y: T, z: T| #[trigger]
        x.add_spec(y).add_spec(z) == x.add_spec(y.add_spec(z))
    &&& forall|x: T, y: T| #[trigger] x.add_spec(y) == y.add_spec(x)
    &&& forall|x: T| #[trigger] x.add_spec(T::zero_spec()) == x
    &&& forall|a: T, s: T| #[trigger] s.add_spec(a.sub_spec(s)) == a
    &&& forall|x: T, y: T, z: T| #[trigger]
        x.mul_spec(y).mul_spec(z) == x.mul_spec(y.mul_spec(z))
    &&& forall|x: T, y: T| #[trigger] x.mul_spec(y) == y.mul_spec(x)
    &&& forall|x: T| #[trigger] x.mul_spec(T::one_spec()) == x
    &&& forall|x: T| #[trigger] x.mul_spec(T::zero_spec()) == T::zero_spec()
    &&& forall|x: T, y: T, z: T| #[trigger]
        x.mul_spec(y.add_spec(z)) == x.mul_spec(y).add_spec(x.mul_spec(z))
    &&& forall|y: T, d: T| d != T::zero_spec() ==> #[trigger] y.div_spec(d).mul_spec(d) == y
    &&& forall|y: T, d: T| d != T::zero_spec() ==> #[trigger] y.mul_spec(d).div_spec(d) == y
    &&& forall|x: T|
        x.positive_spec() ==> #[trigger] x.sqrt_spec() != T::zero_spec() && x.sqrt_spec().mul_spec(
            x.sqrt_spec(),
        ) == x
}

pub proof fn lemma_add_assoc<T: Scalar>(x: T, y: T, z: T)
    requires
        exact_arithmetic::<T>(),
    ensures
        x.add_spec(y).add_spec(z) == x.add_spec(y.add_spec(z)),
{
    reveal(exact_arithmetic);
}

pub proof fn lemma_add_comm<T: Scalar>(x: T, y: T)
    requires
        exact_arithmetic::<T>(),
    ensures
        x.add_spec(y) == y.add_spec(x),
{
    reveal(exact_arithmetic);
}

pub proof fn lemma_add_zero<T: Scalar>(x: T)
    requires
        exact_arithmetic::<T>(),
    ensures
        x.add_spec(T::zero_spec()) == x,
        T::zero_spec().add_spec(x) == x,
{
    reveal(exact_arithmetic);
}

pub proof fn lemma_sub_undoes_add<T: Scalar>(a: T, s: T)
    requires
        exact_arithmetic::<T>(),
    ensures
        s.add_spec(a.sub_spec(s)) == a,
{
    reveal(exact_arithmetic);
}

pub proof fn lemma_mul_assoc<T: Scalar>(x: T, y: T, z: T)
    requires
        exact_arithmetic::<T>(),
    ensures
        x.mul_spec(y).mul_spec(z) == x.mul_spec(y.mul_spec(z)),
{
    reveal(exact_arithmetic);
}

pub proof fn lemma_mul_comm<T: Scalar>(x: T, y: T)
    requires
        exact_arithmetic::<T>(),
    ensures
        x.mul_spec(y) == y.mul_spec(x),
{
    reveal(exact_arithmetic);
}

pub proof fn lemma_mul_one<T: Scalar>(x: T)
    requires
        exact_arithmetic::<T>(),
    ensures
        x.mul_spec(T::one_spec()) == x,
        T::one_spec().mul_spec(x) == x,
{
    reveal(exact_arithmetic);
}

pub proof fn lemma_mul_zero<T: Scalar>(x: T)
    requires
        exact_arithmetic::<T>(),
    ensures
        x.mul_spec(T::zero_spec()) == T::zero_spec(),
        T::zero_spec().mul_spec(x) == T::zero_spec(),
{
    reveal(exact_arithmetic);
}

pub proof fn lemma_distributes<T: Scalar>(x: T, y: T, z: T)
    requires
        exact_arithmetic::<T>(),
    ensures
        x.mul_spec(y.add_spec(z)) == x.mul_spec(y).add_spec(x.mul_spec(z)),
        y.add_spec(z).mul_spec(x) == y.mul_spec(x).add_spec(z.mul_spec(x)),
{
    reveal(exact_arithmetic);
}

pub proof fn lemma_div_undoes_mul<T: Scalar>(y: T, d: T)
    requires
        exact_arithmetic::<T>(),
        d != T::zero_spec(),
    ensures
        y.div_spec(d).mul_spec(d) == y,
        d.mul_spec(y.div_spec(d)) == y,
        y.mul_spec(d).div_spec(d) == y,
{
    reveal(exact_arithmetic);
}

pub proof fn lemma_sqrt_squares<T: Scalar>(x: T)
    requires
        exact_arithmetic::<T>(),
        x.positive_spec(),
    ensures
        x.sqrt_spec() != T::zero_spec(),
        x.sqrt_spec().mul_spec(x.sqrt_spec()) == x,
{
    reveal(exact_arithmetic);
}

/// What is added to both sides can be taken off again.
pub proof fn lemma_add_cancels<T: Scalar>(x: T, y: T, z: T)
    requires
        exact_arithmetic::<T>(),
        x.add_spec(y) == x.add_spec(z),
    ensures
        y == z,
{
    let o = T::zero_spec();
    let n = o.sub_spec(x);
    lemma_sub_undoes_add(o, x);
    lemma_add_comm(x, n);
    lemma_add_assoc(n, x, y);
    lemma_add_assoc(n, x, z);
    lemma_add_zero(y);
    lemma_add_zero(z);
}

/// A product with a factor other than zero is zero only where the other
/// factor is.
pub proof fn lemma_mul_cancels<T: Scalar>(d: T, x: T, y: T)
    requires
        exact_arithmetic::<T>(),
        d != T::zero_spec(),
        d.mul_spec(x) == d.mul_spec(y),
    ensures
        x == y,
{
    lemma_mul_comm(d, x);
    lemma_mul_comm(d, y);
    lemma_div_undoes_mul(x, d);
    lemma_div_undoes_mul(y, d);
}

/// Every term of `f` multiplied by `c`.
pub open spec fn scaled<T: Scalar>(c: T, f: spec_fn(int) -> T) -> spec_fn(int) -> T {
    |k: int| c.mul_spec(f(k))
}

/// The terms of `f` and `g` added one to one.
pub open spec fn added<T: Scalar>(f: spec_fn(int) -> T, g: spec_fn(int) -> T) -> spec_fn(int) -> T {
    |k: int| f(k).add_spec(g(k))
}

/// Row `i` of the table `f`.
pub open spec fn row_of<T: Scalar>(f: spec_fn(int, int) -> T, i: int) -> spec_fn(int) -> T {
    |j: int| f(i, j)
}

/// Column `j` of the table `f`.
pub open spec fn col_of<T: Scalar>(f: spec_fn(int, int) -> T, j: int) -> spec_fn(int) -> T {
    |i: int| f(i, j)
}

/// The sums of the first `m` entries of each row of the table `f`.
pub open spec fn row_sums<T: Scalar>(f: spec_fn(int, int) -> T, m: int) -> spec_fn(int) -> T {
    |i: int| sum_upto(row_of(f, i), m)
}

/// The sums of the first `n` entries of each column of the table `f`.
pub open spec fn col_sums<T: Scalar>(f: spec_fn(int, int) -> T, n: int) -> spec_fn(int) -> T {
    |j: int| sum_upto(col_of(f, j), n)
}

/// A sum of zeros is zero.
pub proof fn lemma_sum_of_zeros<T: Scalar>(f: spec_fn(int) -> T, n: int)
    requires
        exact_arithmetic::<T>(),
        forall|k: int| 0 <= k < n ==> #[trigger] f(k) == T::zero_spec(),
    ensures
        sum_upto(f, n) == T::zero_spec(),
    decreases n,
{
    if n > 0 {
        lemma_sum_of_zeros(f, n - 1);
        lemma_add_zero(T::zero_spec());
    }
}

/// A common factor can be taken out of a sum.
pub proof fn lemma_sum_scaled<T: Scalar>(c: T, f: spec_fn(int) -> T, n: int)
    requires
        exact_arithmetic::<T>(),
    ensures
        sum_upto(scaled(c, f), n) == c.mul_spec(sum_upto(f, n)),
    decreases n,
{
    if n > 0 {
        lemma_sum_scaled(c, f, n - 1);
        lemma_distributes(c, sum_upto(f, n - 1), f(n - 1));
    } else {
        lemma_mul_zero(c);
    }
}

/// The sum of sums is the sum of the terms added one to one.
pub proof fn lemma_sum_added<T: Scalar>(f: spec_fn(int) -> T, g: spec_fn(int) -> T, n: int)
    requires
        exact_arithmetic::<T>(),
    ensures
        sum_upto(added(f, g), n) == sum_upto(f, n).add_spec(sum_upto(g, n)),
    decreases n,
{
    if n > 0 {
        lemma_sum_added(f, g, n - 1);
        let sf = sum_upto(f, n - 1);
        let sg = sum_upto(g, n - 1);
        let a = f(n - 1);
        let b = g(n - 1);
        // (sf + sg) + (a + b) == (sf + a) + (sg + b)
        lemma_add_assoc(sf, sg, a.add_spec(b));
        lemma_add_assoc(sg, a, b);
        lemma_add_comm(sg, a);
        lemma_add_assoc(a, sg, b);
        lemma_add_assoc(sf, a, sg.add_spec(b));
    } else {
        lemma_add_zero(T::zero_spec());
    }
}

/// A table can be summed by rows or by columns.
pub proof fn lemma_sum_interchange<T: Scalar>(f: spec_fn(int, int) -> T, n: int, m: int)
    requires
        exact_arithmetic::<T>(),
    ensures
        sum_upto(row_sums(f, m), n) == sum_upto(col_sums(f, n), m),
    decreases n,
{
    if n > 0 {
        lemma_sum_interchange(f, n - 1, m);
        let before = col_sums(f, n - 1);
        let last = row_of(f, n - 1);
        lemma_sum_added(before, last, m);
        assert forall|j: int| 0 <= j < m implies #[trigger] added(before, last)(j) == col_sums(
            f,
            n,
        )(j) by {
            assert(col_of(f, j)(n - 1) == f(n - 1, j));
        }
        lemma_sum_of_equal_terms(added(before, last), col_sums(f, n), m);
    } else {
        lemma_sum_of_zeros(col_sums(f, n), m);
    }
}

/// The terms of entry `(i, j)` of the product of the matrices `x` and `y`.
pub open spec fn prod_term<T: Scalar>(
    x: spec_fn(int, int) -> T,
    y: spec_fn(int, int) -> T,
    i: int,
    j: int,
) -> spec_fn(int) -> T {
    |k: int| x(i, k).mul_spec(y(k, j))
}

/// The product of the `n`×`n` matrices `x` and `y`.
pub open spec fn prod<T: Scalar>(
    x: spec_fn(int, int) -> T,
    y: spec_fn(int, int) -> T,
    n: int,
) -> spec_fn(int, int) -> T {
    |i: int, j: int| sum_upto(prod_term(x, y, i, j), n)
}

/// The transpose of the matrix `x`.
pub open spec fn transposed<T: Scalar>(x: spec_fn(int, int) -> T) -> spec_fn(int, int) -> T {
    |i: int, j: int| x(j, i)
}

/// The identity matrix.
pub open spec fn eye<T: Scalar>() -> spec_fn(int, int) -> T {
    |i: int, j: int|
        if i == j {
            T::one_spec()
        } else {
            T::zero_spec()
        }
}

/// `x` and `y` hold the same entries in their first `n` rows and columns.
pub open spec fn same_entries<T: Scalar>(
    x: spec_fn(int, int) -> T,
    y: spec_fn(int, int) -> T,
    n: int,
) -> bool {
    forall|i: int, j: int| 0 <= i < n && 0 <= j < n ==> #[trigger] x(i, j) == y(i, j)
}

/// Products of the same matrices are the same.
pub proof fn lemma_prod_of_same<T: Scalar>(
    x: spec_fn(int, int) -> T,
    y: spec_fn(int, int) -> T,
    u: spec_fn(int, int) -> T,
    v: spec_fn(int, int) -> T,
    n: int,
)
    requires
        same_entries(x, u, n),
        same_entries(y, v, n),
    ensures
        same_entries(prod(x, y, n), prod(u, v, n), n),
{
    assert forall|i: int, j: int| 0 <= i < n && 0 <= j < n implies #[trigger] prod(x, y, n)(i, j)
        == prod(u, v, n)(i, j) by {
        assert forall|k: int| 0 <= k < n implies #[trigger] prod_term(x, y, i, j)(k) == prod_term(
            u,
            v,
            i,
            j,
        )(k) by {
            assert(x(i, k) == u(i, k));
            assert(y(k, j) == v(k, j));
        }
        lemma_sum_of_equal_terms(prod_term(x, y, i, j), prod_term(u, v, i, j), n);
    }
}

/// The terms of the double sum that both ways of bracketing a product of
/// three matrices come to.
pub open spec fn triple_term<T: Scalar>(
    x: spec_fn(int, int) -> T,
    y: spec_fn(int, int) -> T,
    z: spec_fn(int, int) -> T,
    i: int,
    j: int,
) -> spec_fn(int, int) -> T {
    |k: int, m: int| x(i, m).mul_spec(y(m, k).mul_spec(z(k, j)))
}

/// The product of matrices is associative.
pub proof fn lemma_prod_assoc<T: Scalar>(
    x: spec_fn(int, int) -> T,
    y: spec_fn(int, int) -> T,
    z: spec_fn(int, int) -> T,
    n: int,
)
    requires
        exact_arithmetic::<T>(),
    ensures
        same_entries(prod(prod(x, y, n), z, n), prod(x, prod(y, z, n), n), n),
{
    assert forall|i: int, j: int| 0 <= i < n && 0 <= j < n implies #[trigger] prod(
        prod(x, y, n),
        z,
        n,
    )(i, j) == prod(x, prod(y, z, n), n)(i, j) by {
        let t = triple_term(x, y, z, i, j);
        let left = prod_term(prod(x, y, n), z, i, j);
        let right = prod_term(x, prod(y, z, n), i, j);
        assert forall|k: int| 0 <= k < n implies #[trigger] left(k) == row_sums(t, n)(k) by {
            let inner = prod_term(x, y, i, k);
            let c = z(k, j);
            lemma_sum_scaled(c, inner, n);
            lemma_mul_comm(sum_upto(inner, n), c);
            assert forall|m: int| 0 <= m < n implies #[trigger] scaled(c, inner)(m) == row_of(
                t,
                k,
            )(m) by {
                lemma_mul_comm(c, x(i, m).mul_spec(y(m, k)));
                lemma_mul_assoc(x(i, m), y(m, k), c);
            }
            lemma_sum_of_equal_terms(scaled(c, inner), row_of(t, k), n);
        }
        lemma_sum_of_equal_terms(left, row_sums(t, n), n);
        assert forall|m: int| 0 <= m < n implies #[trigger] right(m) == col_sums(t, n)(m) by {
            let inner = prod_term(y, z, m, j);
            let c = x(i, m);
            lemma_sum_scaled(c, inner, n);
            assert forall|k: int| 0 <= k < n implies #[trigger] scaled(c, inner)(k) == col_of(
                t,
                m,
            )(k) by {
            }
            lemma_sum_of_equal_terms(scaled(c, inner), col_of(t, m), n);
        }
        lemma_sum_of_equal_terms(right, col_sums(t, n), n);
        lemma_sum_interchange(t, n, n);
    }
}

/// A sum whose terms are all zero but the `p`-th is that term.
pub proof fn lemma_sum_picks<T: Scalar>(f: spec_fn(int) -> T, n: int, p: int)
    requires
        exact_arithmetic::<T>(),
        0 <= p,
        forall|k: int| 0 <= k < n && k != p ==> #[trigger] f(k) == T::zero_spec(),
    ensures
        n <= p ==> sum_upto(f, n) == T::zero_spec(),
        n > p ==> sum_upto(f, n) == f(p),
    decreases n,
{
    if n > 0 {
        lemma_sum_picks(f, n - 1, p);
        lemma_add_zero(f(p));
        lemma_add_zero(T::zero_spec());
    }
}

/// The identity leaves a matrix as it is, from the left and from the right.
pub proof fn lemma_prod_with_eye<T: Scalar>(x: spec_fn(int, int) -> T, n: int)
    requires
        exact_arithmetic::<T>(),
    ensures
        same_entries(prod(eye(), x, n), x, n),
        same_entries(prod(x, eye(), n), x, n),
{
    assert forall|i: int, j: int| 0 <= i < n && 0 <= j < n implies #[trigger] prod(eye(), x, n)(
        i,
        j,
    ) == x(i, j) by {
        let f = prod_term(eye::<T>(), x, i, j);
        assert forall|k: int| 0 <= k < n && k != i implies #[trigger] f(k) == T::zero_spec() by {
            lemma_mul_zero(x(k, j));
        }
        lemma_mul_one(x(i, j));
        lemma_sum_picks(f, n, i);
    }
    assert forall|i: int, j: int| 0 <= i < n && 0 <= j < n implies #[trigger] prod(x, eye(), n)(
        i,
        j,
    ) == x(i, j) by {
        let f = prod_term(x, eye::<T>(), i, j);
        assert forall|k: int| 0 <= k < n && k != j implies #[trigger] f(k) == T::zero_spec() by {
            lemma_mul_zero(x(i, k));
        }
        lemma_mul_one(x(i, j));
        lemma_sum_picks(f, n, j);
    }
}

/// The transpose of a product is the product of the transposes, the other
/// way round.
pub proof fn lemma_prod_transposed<T: Scalar>(
    x: spec_fn(int, int) -> T,
    y: spec_fn(int, int) -> T,
    n: int,
)
    requires
        exact_arithmetic::<T>(),
    ensures
        same_entries(prod(transposed(y), transposed(x), n), transposed(prod(x, y, n)), n),
{
    assert forall|i: int, j: int| 0 <= i < n && 0 <= j < n implies #[trigger] prod(
        transposed(y),
        transposed(x),
        n,
    )(i, j) == transposed(prod(x, y, n))(i, j) by {
        let f = prod_term(transposed(y), transposed(x), i, j);
        let g = prod_term(x, y, j, i);
        assert forall|k: int| 0 <= k < n implies #[trigger] f(k) == g(k) by {
            lemma_mul_comm(y(k, i), x(j, k));
        }
        lemma_sum_of_equal_terms(f, g, n);
    }
}

/// Holding the same entries goes both ways.
pub proof fn lemma_same_symmetric<T: Scalar>(
    x: spec_fn(int, int) -> T,
    y: spec_fn(int, int) -> T,
    n: int,
)
    requires
        same_entries(x, y, n),
    ensures
        same_entries(y, x, n),
{
    assert forall|i: int, j: int| 0 <= i < n && 0 <= j < n implies #[trigger] y(i, j) == x(
        i,
        j,
    ) by {
        assert(x(i, j) == y(i, j));
    }
}

/// Holding the same entries carries over.
pub proof fn lemma_same_transitive<T: Scalar>(
    x: spec_fn(int, int) -> T,
    y: spec_fn(int, int) -> T,
    z: spec_fn(int, int) -> T,
    n: int,
)
    requires
        same_entries(x, y, n),
        same_entries(y, z, n),
    ensures
        same_entries(x, z, n),
{
    assert forall|i: int, j: int| 0 <= i < n && 0 <= j < n implies #[trigger] x(i, j) == z(
        i,
        j,
    ) by {
        assert(x(i, j) == y(i, j));
        assert(y(i, j) == z(i, j));
    }
}

/// Left-to-right product of `factor(0)`, ..., `factor(n - 1)`, starting from
/// one.
pub open spec fn product_upto<T: Scalar>(factor: spec_fn(int) -> T, n: int) -> T
    decreases n,
{
    if n <= 0 {
        T::one_spec()
    } else {
        product_upto(factor, n - 1).mul_spec(factor(n - 1))
    }
}

/// Products of the same factors are the same.
pub proof fn lemma_product_of_equal_factors<T: Scalar>(
    f: spec_fn(int) -> T,
    g: spec_fn(int) -> T,
    n: int,
)
    requires
        forall|k: int| 0 <= k < n ==> #[trigger] f(k) == g(k),
    ensures
        product_upto(f, n) == product_upto(g, n),
    decreases n,
{
    if n > 0 {
        lemma_product_of_equal_factors(f, g, n - 1);
    }
}

} // verus!
