//! Determinants of packed symmetric matrices, by cofactor expansion.

use vstd::prelude::*;
use crate::cov::Cov;
use crate::scalar::Scalar;

verus! {

/// The column numbers `0, 1, ..., n - 1`.
pub open spec fn all_columns(n: int) -> Seq<usize> {
    Seq::new(n as nat, |c: int| c as usize)
}

impl<T: Scalar, const N: usize> Cov<T, N> {
    /// The determinant of the square block made of the last `cols.len()` rows
    /// and the columns `cols`: one for the empty block, else the cofactor
    /// expansion along the block's first row.
    pub open spec fn minor_det(self, cols: Seq<usize>) -> T
        decreases cols.len(), cols.len() + 1,
    {
        if cols.len() == 0 {
            T::one_spec()
        } else {
            self.cofactor_sum(cols, cols.len() as int)
        }
    }

    /// The first `k` terms of the cofactor expansion along the first row of
    /// the block: each the row's entry times the determinant of the block
    /// without that row and column, added and subtracted in turn, starting
    /// from zero.
    pub open spec fn cofactor_sum(self, cols: Seq<usize>, k: int) -> T
        decreases cols.len(), k,
    {
        if 0 < k <= cols.len() {
            let before = self.cofactor_sum(cols, k - 1);
            let term = self.at(N - cols.len(), cols[k - 1] as int).mul_spec(
                self.minor_det(cols.remove(k - 1)),
            );
            if (k - 1) % 2 == 0 {
                before.add_spec(term)
            } else {
                before.sub_spec(term)
            }
        } else {
            T::zero_spec()
        }
    }

    /// The determinant: the cofactor expansion along the first row, and so
    /// on down the rows.
    pub open spec fn det_spec(self) -> T {
        self.minor_det(all_columns(N as int))
    }

    /// Computes [`Cov::minor_det`].
    fn minor(&self, cols: &Vec<usize>) -> (d: T)
        requires
            cols@.len() <= N,
            forall|k: int| 0 <= k < cols@.len() ==> cols@[k] < N,
        ensures
            d == self.minor_det(cols@),
        decreases cols@.len(),
    {
        let m = cols.len();
        if m == 0 {
            return T::one();
        }
        let row = N - m;
        let mut acc = T::zero();
        let mut k: usize = 0;
        while k < m
            invariant
                k <= m,
                0 < m == cols@.len() <= N,
                row == N - m,
                forall|c: int| 0 <= c < cols@.len() ==> cols@[c] < N,
                acc == self.cofactor_sum(cols@, k as int),
            decreases m - k,
        {
            let rest = without(cols, k);
            let sub = self.minor(&rest);
            let term = self.get(row, cols[k]).mul(sub);
            acc = if k % 2 == 0 {
                acc.add(term)
            } else {
                acc.sub(term)
            };
            k += 1;
        }
        acc
    }

    /// The determinant of the matrix.
    pub fn det(&self) -> (d: T)
        ensures
            d == self.det_spec(),
    {
        let mut cols: Vec<usize> = Vec::new();
        let mut c: usize = 0;
        while c < N
            invariant
                c <= N,
                cols@ == all_columns(c as int),
            decreases N - c,
        {
            cols.push(c);
            assert(cols@ == all_columns(c + 1));
            c += 1;
        }
        self.minor(&cols)
    }
}

/// The list `cols` without its `k`-th element.
fn without(cols: &Vec<usize>, k: usize) -> (rest: Vec<usize>)
    requires
        k < cols@.len(),
    ensures
        rest@ == cols@.remove(k as int),
{
    let mut rest: Vec<usize> = Vec::new();
    let mut c: usize = 0;
    while c < cols.len()
        invariant
            c <= cols@.len(),
            k < cols@.len(),
            c <= k ==> rest@ == cols@.take(c as int),
            c > k ==> rest@ == cols@.remove(k as int).take(c - 1),
        decreases cols@.len() - c,
    {
        if c != k {
            rest.push(cols[c]);
        }
        proof {
            if c < k {
                assert(rest@ == cols@.take(c + 1));
            } else if c == k {
                assert(rest@ == cols@.remove(k as int).take(c as int));
            } else {
                assert(rest@ == cols@.remove(k as int).take(c as int));
            }
        }
        c += 1;
    }
    assert(cols@.remove(k as int).take(cols@.len() - 1) == cols@.remove(k as int));
    rest
}

} // verus!
