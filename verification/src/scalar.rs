//! The arithmetic that the kernel asks of its element type.

use vstd::prelude::*;

verus! {

/// A number type the matrices can be built over.
///
/// Each operation is a function of its operands alone: the executable method
/// returns exactly what the spec function of the same name (with `_spec`
/// appended) denotes. Nothing else is assumed: no associativity, no
/// distributivity, no exactness. Results of the kernel are therefore stated
/// over these spec functions, operation by operation.
pub trait Scalar: Copy + Sized {
    /// The additive neutral element.
    spec fn zero_spec() -> Self;

    /// The multiplicative neutral element.
    spec fn one_spec() -> Self;

    /// Sum of two scalars.
    spec fn add_spec(self, rhs: Self) -> Self;

    /// Difference of two scalars.
    spec fn sub_spec(self, rhs: Self) -> Self;

    /// Product of two scalars.
    spec fn mul_spec(self, rhs: Self) -> Self;

    /// Quotient of two scalars.
    spec fn div_spec(self, rhs: Self) -> Self;

    /// Square root of a scalar.
    spec fn sqrt_spec(self) -> Self;

    /// The scalar with its sign changed.
    spec fn neg_spec(self) -> Self;

    /// The size of the scalar, its sign left out.
    spec fn abs_spec(self) -> Self;

    /// Whether the scalar is strictly greater than zero.
    spec fn positive_spec(self) -> bool;

    fn zero() -> (r: Self)
        ensures
            r == Self::zero_spec(),
    ;

    fn one() -> (r: Self)
        ensures
            r == Self::one_spec(),
    ;

    fn add(self, rhs: Self) -> (r: Self)
        ensures
            r == self.add_spec(rhs),
    ;

    fn sub(self, rhs: Self) -> (r: Self)
        ensures
            r == self.sub_spec(rhs),
    ;

    fn mul(self, rhs: Self) -> (r: Self)
        ensures
            r == self.mul_spec(rhs),
    ;

    fn div(self, rhs: Self) -> (r: Self)
        ensures
            r == self.div_spec(rhs),
    ;

    fn sqrt(self) -> (r: Self)
        ensures
            r == self.sqrt_spec(),
    ;

    fn neg(self) -> (r: Self)
        ensures
            r == self.neg_spec(),
    ;

    fn abs(self) -> (r: Self)
        ensures
            r == self.abs_spec(),
    ;

    fn is_positive(self) -> (r: bool)
        ensures
            r == self.positive_spec(),
    ;
}

/// Left-to-right sum of `term(0)`, ..., `term(n - 1)`, starting from zero.
pub open spec fn sum_upto<T: Scalar>(term: spec_fn(int) -> T, n: int) -> T
    decreases n,
{
    if n <= 0 {
        T::zero_spec()
    } else {
        sum_upto(term, n - 1).add_spec(term(n - 1))
    }
}

/// Zero and one act on `x` as they do in a ring: multiplying by one and
/// adding zero leave `x` as it is, multiplying by zero gives zero, and zero
/// plus zero is zero. Whether this holds is a matter of the scalar type and
/// of `x`.
pub open spec fn unit_laws_hold<T: Scalar>(x: T) -> bool {
    &&& x.mul_spec(T::one_spec()) == x
    &&& T::one_spec().mul_spec(x) == x
    &&& x.mul_spec(T::zero_spec()) == T::zero_spec()
    &&& T::zero_spec().mul_spec(x) == T::zero_spec()
    &&& x.add_spec(T::zero_spec()) == x
    &&& T::zero_spec().add_spec(x) == x
    &&& T::zero_spec().add_spec(T::zero_spec()) == T::zero_spec()
}

/// Sums of the same terms are the same.
pub proof fn lemma_sum_of_equal_terms<T: Scalar>(
    f: spec_fn(int) -> T,
    g: spec_fn(int) -> T,
    n: int,
)
    requires
        forall|k: int| 0 <= k < n ==> #[trigger] f(k) == g(k),
    ensures
        sum_upto(f, n) == sum_upto(g, n),
    decreases n,
{
    if n > 0 {
        lemma_sum_of_equal_terms(f, g, n - 1);
    }
}

/// A sum whose terms are all zero but one is that one term, where zero is
/// neutral for it.
pub proof fn lemma_sum_of_one_term<T: Scalar>(term: spec_fn(int) -> T, n: int, p: int)
    requires
        0 <= p < n,
        forall|k: int| 0 <= k < n && k != p ==> #[trigger] term(k) == T::zero_spec(),
        term(p).add_spec(T::zero_spec()) == term(p),
        T::zero_spec().add_spec(term(p)) == term(p),
        T::zero_spec().add_spec(T::zero_spec()) == T::zero_spec(),
    ensures
        sum_upto(term, n) == term(p),
{
    lemma_sum_around_one_term(term, n, p);
}

proof fn lemma_sum_around_one_term<T: Scalar>(term: spec_fn(int) -> T, m: int, p: int)
    requires
        0 <= p,
        0 <= m,
        forall|k: int| 0 <= k < m && k != p ==> #[trigger] term(k) == T::zero_spec(),
        term(p).add_spec(T::zero_spec()) == term(p),
        T::zero_spec().add_spec(term(p)) == term(p),
        T::zero_spec().add_spec(T::zero_spec()) == T::zero_spec(),
    ensures
        m <= p ==> sum_upto(term, m) == T::zero_spec(),
        m > p ==> sum_upto(term, m) == term(p),
    decreases m,
{
    if m > 0 {
        lemma_sum_around_one_term(term, m - 1, p);
    }
}

/// Left-to-right sum of `term(lo)`, ..., `term(hi - 1)`, starting from zero.
pub open spec fn sum_range<T: Scalar>(term: spec_fn(int) -> T, lo: int, hi: int) -> T
    decreases hi - lo,
{
    if hi <= lo {
        T::zero_spec()
    } else {
        sum_range(term, lo, hi - 1).add_spec(term(hi - 1))
    }
}

} // verus!
