//! Vectors of a fixed length.

use vstd::prelude::*;
use crate::error::CovError;
use crate::scalar::{sum_upto, Scalar};

verus! {

/// An ordered tuple of `N` scalars.
#[derive(Debug)]
pub struct Vecn<T, const N: usize> {
    v: Vec<T>,
}

/// Three components, such as a position.
pub type Vec3<T> = Vecn<T, 3>;

/// Four components.
pub type Vec4<T> = Vecn<T, 4>;

/// Five components, such as the parameters of a helix.
pub type Vec5<T> = Vecn<T, 5>;

impl<T, const N: usize> View for Vecn<T, N> {
    type V = Seq<T>;

    closed spec fn view(&self) -> Seq<T> {
        self.v@
    }
}

/// The `k`-th term of the dot product of `a` and `b`.
pub open spec fn dot_term<T: Scalar>(a: Seq<T>, b: Seq<T>) -> spec_fn(int) -> T {
    |k: int| a[k].mul_spec(b[k])
}

impl<T, const N: usize> Vecn<T, N> {
    /// The vector holds exactly `N` components.
    #[verifier::type_invariant]
    pub open spec fn wf(self) -> bool {
        self@.len() == N
    }
}

impl<T: Scalar, const N: usize> Vecn<T, N> {
    /// `sum` is this vector plus `other`, component by component.
    pub open spec fn sum_is(self, other: Self, sum: Self) -> bool {
        &&& sum.wf()
        &&& forall|k: int| 0 <= k < N ==> #[trigger] sum@[k] == self@[k].add_spec(other@[k])
    }
}

impl<T: Scalar, const N: usize> Default for Vecn<T, N> {
    /// The vector of zeros.
    fn default() -> (r: Self)
        ensures
            r.wf(),
            forall|k: int| 0 <= k < N ==> #[trigger] r@[k] == T::zero_spec(),
    {
        let mut v: Vec<T> = Vec::new();
        let mut i: usize = 0;
        while i < N
            invariant
                i <= N,
                v@.len() == i,
                forall|k: int| 0 <= k < i ==> #[trigger] v@[k] == T::zero_spec(),
            decreases N - i,
        {
            v.push(T::zero());
            i += 1;
        }
        Vecn { v }
    }
}

impl<T: Scalar, const N: usize> Clone for Vecn<T, N> {
    fn clone(&self) -> (r: Self)
        ensures
            r.wf(),
            r@ == self@,
    {
        proof {
            use_type_invariant(self);
        }
        Vecn { v: self.to_vec() }
    }
}

impl<T: Scalar, const N: usize> Vecn<T, N> {
    /// Takes the first `N` elements of `raw`; a shorter buffer is refused.
    pub fn from_vec(raw: Vec<T>) -> (r: Result<Self, CovError>)
        ensures
            match r {
                Ok(x) => raw@.len() >= N && x.wf() && x@ == raw@.take(N as int),
                Err(e) => raw@.len() < N && e == CovError::ShapeMismatch,
            },
    {
        if raw.len() < N {
            return Err(CovError::ShapeMismatch);
        }
        let mut v: Vec<T> = Vec::new();
        let mut i: usize = 0;
        while i < N
            invariant
                i <= N <= raw@.len(),
                v@ == raw@.take(i as int),
            decreases N - i,
        {
            v.push(raw[i]);
            assert(v@ == raw@.take(i + 1));
            i += 1;
        }
        Ok(Vecn { v })
    }

    /// The vector whose components are laid out in `v`.
    pub(crate) fn assemble(v: Vec<T>) -> (r: Self)
        requires
            v@.len() == N,
        ensures
            r.wf(),
            r@ == v@,
    {
        Vecn { v }
    }

    /// The vector with the components of `raw`, in order.
    pub fn from_array(raw: [T; N]) -> (r: Self)
        ensures
            r.wf(),
            r@ == raw@,
    {
        let mut v: Vec<T> = Vec::new();
        let mut i: usize = 0;
        while i < N
            invariant
                i <= N,
                raw@.len() == N,
                v@ == raw@.take(i as int),
            decreases N - i,
        {
            v.push(raw[i]);
            assert(v@ == raw@.take(i + 1));
            i += 1;
        }
        assert(raw@.take(N as int) == raw@);
        Vecn { v }
    }

    /// Component `i`.
    pub fn get(&self, i: usize) -> (x: T)
        requires
            i < N,
        ensures
            x == self@[i as int],
    {
        proof {
            use_type_invariant(self);
        }
        self.v[i]
    }

    /// The components, in order.
    pub fn to_vec(&self) -> (r: Vec<T>)
        ensures
            r@ == self@,
    {
        proof {
            use_type_invariant(self);
        }
        let mut out: Vec<T> = Vec::new();
        let mut i: usize = 0;
        while i < N
            invariant
                i <= N,
                self@.len() == N,
                out@ == self@.take(i as int),
            decreases N - i,
        {
            out.push(self.v[i]);
            assert(out@ == self@.take(i + 1));
            i += 1;
        }
        assert(self@.take(N as int) == self@);
        out
    }

    /// Component-wise sum.
    pub fn add(&self, other: &Self) -> (r: Self)
        ensures
            self.sum_is(*other, r),
    {
        proof {
            use_type_invariant(self);
            use_type_invariant(other);
        }
        let mut v: Vec<T> = Vec::new();
        let mut i: usize = 0;
        while i < N
            invariant
                i <= N,
                self@.len() == N,
                other@.len() == N,
                v@.len() == i,
                forall|k: int| 0 <= k < i ==> v@[k] == #[trigger] self@[k].add_spec(other@[k]),
            decreases N - i,
        {
            v.push(self.v[i].add(other.v[i]));
            i += 1;
        }
        Vecn { v }
    }

    /// Dot product: the products of matching components, summed from the
    /// first to the last.
    pub fn dot(&self, other: &Self) -> (s: T)
        ensures
            s == sum_upto(dot_term(self@, other@), N as int),
    {
        proof {
            use_type_invariant(self);
            use_type_invariant(other);
        }
        let mut s = T::zero();
        let mut k: usize = 0;
        while k < N
            invariant
                k <= N,
                self@.len() == N,
                other@.len() == N,
                s == sum_upto(dot_term(self@, other@), k as int),
            decreases N - k,
        {
            s = s.add(self.v[k].mul(other.v[k]));
            k += 1;
        }
        s
    }
}

} // verus!
