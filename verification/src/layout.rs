//! Index formulas of the two storage layouts, and the facts about them that
//! the matrix code relies on.

use vstd::prelude::*;

verus! {

/// The `n`-th triangular number.
pub open spec fn tri(n: int) -> int {
    n * (n + 1) / 2
}

/// Number of stored entries of a packed symmetric matrix of dimension `n`.
pub open spec fn packed_len(n: int) -> int {
    tri(n)
}

/// Position of entry `(i, j)` in the packed upper triangle of an `n`×`n`
/// symmetric matrix, rows of the triangle laid out one after the other;
/// `(i, j)` and `(j, i)` share one position.
pub open spec fn packed_index(n: int, i: int, j: int) -> int {
    if i <= j {
        j + i * n - tri(i)
    } else {
        i + j * n - tri(j)
    }
}

/// Position of entry `(i, j)` in a row-major matrix with `c` columns.
pub open spec fn dense_index(c: int, i: int, j: int) -> int {
    i * c + j
}

/// Each triangular number is the one before plus its own index.
pub proof fn lemma_tri_step(n: int)
    ensures
        tri(n + 1) == tri(n) + n + 1,
{
    assert((n + 1) * (n + 2) == n * (n + 1) + 2 * (n + 1)) by (nonlinear_arith);
}

/// Twice the `n`-th triangular number is `n * (n + 1)`.
pub proof fn lemma_tri_double(n: int)
    requires
        0 <= n,
    ensures
        2 * tri(n) == n * (n + 1),
        0 <= tri(n),
    decreases n,
{
    if n > 0 {
        lemma_tri_double(n - 1);
        lemma_tri_step(n - 1);
        assert(n * (n + 1) == (n - 1) * n + 2 * n) by (nonlinear_arith);
    }
}

/// Each row of the triangle starts right after the previous one ends.
pub proof fn lemma_row_step(n: int, i: int)
    ensures
        packed_index(n, i + 1, i + 1) == packed_index(n, i, i) + n - i,
{
    lemma_tri_step(i);
    assert((i + 1) * n == i * n + n) by (nonlinear_arith);
}

/// Later rows of the triangle start later, by at least the length of the
/// rows in between.
pub proof fn lemma_row_start_monotone(n: int, p: int, i: int)
    requires
        0 <= p <= i <= n,
    ensures
        packed_index(n, p, p) <= packed_index(n, i, i),
        p < i ==> packed_index(n, p, p) + n - p <= packed_index(n, i, i),
    decreases i - p,
{
    if p < i {
        lemma_row_start_monotone(n, p, i - 1);
        lemma_row_step(n, i - 1);
    }
}

/// The packed layout fills exactly `0 .. packed_len(n)`.
pub proof fn lemma_packed_index_bounds(n: int, i: int, j: int)
    requires
        0 <= i < n,
        0 <= j < n,
    ensures
        0 <= packed_index(n, i, j) < packed_len(n),
{
    let (a, b) = if i <= j { (i, j) } else { (j, i) };
    assert(packed_index(n, i, j) == packed_index(n, a, a) + (b - a));
    lemma_row_start_monotone(n, 0, a);
    lemma_row_start_monotone(n, a, n);
    lemma_tri_double(n);
    assert(packed_index(n, 0, 0) == 0) by {
        assert(0 * n == 0);
    }
    assert(packed_index(n, n, n) == tri(n)) by {
        assert(n * n + n == n * (n + 1)) by (nonlinear_arith);
    }
}

/// The triangle starts at position 0 and ends at `packed_len(n)`.
pub proof fn lemma_packed_ends(n: int)
    requires
        0 <= n,
    ensures
        packed_index(n, 0, 0) == 0,
        packed_index(n, n, n) == packed_len(n),
{
    lemma_tri_double(n);
    assert(0 * n == 0);
    assert(n * n + n == n * (n + 1)) by (nonlinear_arith);
}

/// Within the upper triangle the packed position grows with the entry, rows
/// first.
pub proof fn lemma_packed_index_monotone(n: int, p: int, q: int, i: int, j: int)
    requires
        0 <= p <= q < n,
        0 <= i <= j < n,
        p < i || (p == i && q < j),
    ensures
        packed_index(n, p, q) < packed_index(n, i, j),
{
    if p < i {
        lemma_row_start_monotone(n, p, i);
    }
}

/// No two entries of the upper triangle share a packed position.
pub proof fn lemma_packed_index_injective(n: int, p: int, q: int, i: int, j: int)
    requires
        0 <= p <= q < n,
        0 <= i <= j < n,
        packed_index(n, p, q) == packed_index(n, i, j),
    ensures
        p == i,
        q == j,
{
    if p < i || (p == i && q < j) {
        lemma_packed_index_monotone(n, p, q, i, j);
    } else if i < p || (i == p && j < q) {
        lemma_packed_index_monotone(n, i, j, p, q);
    }
}

/// One more row is `c` more entries.
pub proof fn lemma_row_major_step(c: int, i: int)
    ensures
        (i + 1) * c == i * c + c,
{
    assert((i + 1) * c == i * c + c) by (nonlinear_arith);
}

/// Looks for the entry at packed position `k` in row `i` or below.
proof fn lemma_packed_entry_from(n: int, k: int, i: int) -> (e: (int, int))
    requires
        0 <= i < n,
        packed_index(n, i, i) <= k < packed_len(n),
    ensures
        0 <= e.0 <= e.1 < n,
        packed_index(n, e.0, e.1) == k,
    decreases n - i,
{
    lemma_row_step(n, i);
    if k < packed_index(n, i + 1, i + 1) {
        (i, i + (k - packed_index(n, i, i)))
    } else {
        lemma_packed_ends(n);
        lemma_packed_entry_from(n, k, i + 1)
    }
}

/// Every packed position belongs to an entry of the upper triangle.
pub proof fn lemma_packed_index_onto(n: int, k: int) -> (e: (int, int))
    requires
        0 <= n,
        0 <= k < packed_len(n),
    ensures
        0 <= e.0 <= e.1 < n,
        packed_index(n, e.0, e.1) == k,
{
    lemma_packed_ends(n);
    lemma_packed_entry_from(n, k, 0)
}

/// The row-major layout fills exactly `0 .. r * c`.
pub proof fn lemma_dense_index_bounds(r: int, c: int, i: int, j: int)
    requires
        0 <= i < r,
        0 <= j < c,
    ensures
        0 <= i * c,
        0 <= dense_index(c, i, j) < r * c,
        (i + 1) * c <= r * c,
{
    assert(0 <= i * c) by (nonlinear_arith)
        requires
            0 <= i,
            0 <= c,
    ;
    assert((i + 1) * c <= r * c) by (nonlinear_arith)
        requires
            i + 1 <= r,
            0 <= c,
    ;
    assert((i + 1) * c == i * c + c) by (nonlinear_arith);
}

/// No two entries of a row-major matrix share a position.
pub proof fn lemma_dense_index_injective(c: int, p: int, q: int, i: int, j: int)
    requires
        0 <= q < c,
        0 <= j < c,
        dense_index(c, p, q) == dense_index(c, i, j),
    ensures
        p == i,
        q == j,
{
    if p < i {
        assert((p + 1) * c <= i * c) by (nonlinear_arith)
            requires
                p + 1 <= i,
                0 <= c,
        ;
        assert((p + 1) * c == p * c + c) by (nonlinear_arith);
    } else if i < p {
        assert((i + 1) * c <= p * c) by (nonlinear_arith)
            requires
                i + 1 <= p,
                0 <= c,
        ;
        assert((i + 1) * c == i * c + c) by (nonlinear_arith);
    }
}

/// Every entry of the upper triangle whose packed position lies inside `v`
/// holds what `f` gives for it.
pub open spec fn packed_filled<T>(v: Seq<T>, n: int, f: spec_fn(int, int) -> T) -> bool {
    forall|p: int, q: int|
        0 <= p <= q < n && #[trigger] packed_index(n, p, q) < v.len() ==> v[packed_index(n, p, q)]
            == f(p, q)
}

/// Every entry of an `r`×`c` matrix whose row-major position lies inside `v`
/// holds what `f` gives for it.
pub open spec fn dense_filled<T>(v: Seq<T>, r: int, c: int, f: spec_fn(int, int) -> T) -> bool {
    forall|p: int, q: int|
        0 <= p < r && 0 <= q < c && #[trigger] dense_index(c, p, q) < v.len() ==> v[dense_index(
            c,
            p,
            q,
        )] == f(p, q)
}

/// An empty buffer is filled as far as it goes.
pub proof fn lemma_packed_empty<T>(n: int, f: spec_fn(int, int) -> T)
    ensures
        packed_filled(Seq::<T>::empty(), n, f),
{
    assert forall|p: int, q: int| 0 <= p <= q < n implies #[trigger] packed_index(n, p, q)
        >= 0 by {
        lemma_packed_index_bounds(n, p, q);
    }
}

/// An empty buffer is filled as far as it goes.
pub proof fn lemma_dense_empty<T>(r: int, c: int, f: spec_fn(int, int) -> T)
    ensures
        dense_filled(Seq::<T>::empty(), r, c, f),
{
    assert forall|p: int, q: int| 0 <= p < r && 0 <= q < c implies #[trigger] dense_index(c, p, q)
        >= 0 by {
        lemma_dense_index_bounds(r, c, p, q);
    }
}

/// Appending the entry that comes next in the packed layout keeps the buffer
/// filled.
pub proof fn lemma_packed_push<T>(v: Seq<T>, n: int, f: spec_fn(int, int) -> T, i: int, j: int, x: T)
    requires
        packed_filled(v, n, f),
        0 <= i <= j < n,
        v.len() == packed_index(n, i, j),
        x == f(i, j),
    ensures
        packed_filled(v.push(x), n, f),
{
    let w = v.push(x);
    assert forall|p: int, q: int|
        0 <= p <= q < n && #[trigger] packed_index(n, p, q) < w.len() implies w[packed_index(
        n,
        p,
        q,
    )] == f(p, q) by {
        if packed_index(n, p, q) == v.len() {
            lemma_packed_index_injective(n, p, q, i, j);
        } else {
            lemma_packed_index_bounds(n, p, q);
        }
    }
}

/// Appending the entry that comes next in the row-major layout keeps the
/// buffer filled.
pub proof fn lemma_dense_push<T>(
    v: Seq<T>,
    r: int,
    c: int,
    f: spec_fn(int, int) -> T,
    i: int,
    j: int,
    x: T,
)
    requires
        dense_filled(v, r, c, f),
        0 <= i < r,
        0 <= j < c,
        v.len() == dense_index(c, i, j),
        x == f(i, j),
    ensures
        dense_filled(v.push(x), r, c, f),
{
    let w = v.push(x);
    assert forall|p: int, q: int|
        0 <= p < r && 0 <= q < c && #[trigger] dense_index(c, p, q) < w.len() implies w[dense_index(
        c,
        p,
        q,
    )] == f(p, q) by {
        if dense_index(c, p, q) == v.len() {
            lemma_dense_index_injective(c, p, q, i, j);
        } else {
            lemma_dense_index_bounds(r, c, p, q);
        }
    }
}

/// Computes [`packed_index`].
pub fn packed_idx(n: usize, i: usize, j: usize) -> (k: usize)
    requires
        i < n,
        j < n,
        packed_len(n as int) <= usize::MAX,
    ensures
        k == packed_index(n as int, i as int, j as int),
        k < packed_len(n as int),
{
    let (a, b) = if i <= j { (i, j) } else { (j, i) };
    proof {
        lemma_packed_index_bounds(n as int, i as int, j as int);
        lemma_tri_double(a as int);
        assert(packed_index(n as int, i as int, j as int) == b + a * n - tri(a as int));
        assert(a * (a + 1) <= a * n) by (nonlinear_arith)
            requires
                0 <= a,
                a + 1 <= n,
        ;
        assert(a * n <= 0xffff_ffff_ffff_ffff * 0xffff_ffff_ffff_ffff) by (nonlinear_arith)
            requires
                0 <= a <= 0xffff_ffff_ffff_ffff,
                0 <= n <= 0xffff_ffff_ffff_ffff,
        ;
        assert(a * (a + 1) <= 0xffff_ffff_ffff_ffff * 0xffff_ffff_ffff_ffff) by (nonlinear_arith)
            requires
                0 <= a,
                a + 1 <= 0xffff_ffff_ffff_ffff,
        ;
    }
    let wide_a: u128 = a as u128;
    let below: u128 = wide_a * (wide_a + 1) / 2;
    let k: u128 = b as u128 + wide_a * (n as u128) - below;
    k as usize
}

/// Computes [`dense_index`].
pub fn dense_idx(c: usize, i: usize, j: usize) -> (k: usize)
    requires
        j < c,
        dense_index(c as int, i as int, j as int) <= usize::MAX,
    ensures
        k == dense_index(c as int, i as int, j as int),
{
    proof {
        assert(0 <= i * c) by (nonlinear_arith)
            requires
                0 <= i,
                0 <= c,
        ;
    }
    i * c + j
}

/// Computes [`packed_len`], when it fits.
pub fn packed_size(n: usize) -> (len: Option<usize>)
    ensures
        len matches Some(l) ==> l == packed_len(n as int),
        len is None <==> packed_len(n as int) > usize::MAX,
{
    proof {
        lemma_tri_double(n as int);
        assert(n * (n + 1) <= 0xffff_ffff_ffff_ffff * 0x1_0000_0000_0000_0000) by (nonlinear_arith)
            requires
                0 <= n <= 0xffff_ffff_ffff_ffff,
        ;
    }
    let wide: u128 = n as u128;
    let len: u128 = wide * (wide + 1) / 2;
    if len <= usize::MAX as u128 {
        Some(len as usize)
    } else {
        None
    }
}

} // verus!
