//! Arithmetic of flattened multi-indices.

use vstd::prelude::*;

verus! {

/// A pair `(i, j)` with `i < n`, `j < m` flattens to `i * m + j < n * m`, and division and
/// remainder by `m` recover the pair.
pub proof fn lemma_flat(i: int, n: int, j: int, m: int)
    requires
        0 <= i < n,
        0 <= j < m,
    ensures
        0 <= i * m + j < n * m,
        (i * m + j) / m == i,
        (i * m + j) % m == j,
{
    assert(0 <= i * m) by (nonlinear_arith)
        requires
            0 <= i,
            0 <= m,
    ;
    assert(i * m + m <= n * m) by (nonlinear_arith)
        requires
            i + 1 <= n,
            0 <= m,
    ;
    vstd::arithmetic::div_mod::lemma_fundamental_div_mod_converse(i * m + j, m, i, j);
}

/// An index below `n * m` splits into a quotient below `n` and a remainder below `m`.
pub proof fn lemma_split(k: int, n: int, m: int)
    requires
        0 <= k < n * m,
        0 <= n,
        0 <= m,
    ensures
        0 < m,
        0 < n,
        0 <= k / m < n,
        0 <= k % m < m,
        k == (k / m) * m + k % m,
{
    assert(0 < m && 0 < n) by (nonlinear_arith)
        requires
            0 < n * m,
            0 <= m,
            0 <= n,
    ;
    vstd::arithmetic::div_mod::lemma_fundamental_div_mod(k, m);
    assert(m * (k / m) == (k / m) * m) by (nonlinear_arith);
    assert(k / m < n) by (nonlinear_arith)
        requires
            (k / m) * m <= k,
            k < n * m,
            0 < m,
    ;
    assert(0 <= k / m) by (nonlinear_arith)
        requires
            0 <= k,
            0 < m,
    ;
    assert(0 <= k % m < m) by (nonlinear_arith)
        requires
            0 < m,
    ;
}

/// A triple flattens to `(i * m + j) * n + l`, and division and remainder recover it.
pub proof fn lemma_flat3(i: int, h: int, j: int, m: int, l: int, n: int)
    requires
        0 <= i < h,
        0 <= j < m,
        0 <= l < n,
    ensures
        0 <= (i * m + j) * n + l < h * m * n,
        ((i * m + j) * n + l) / n == i * m + j,
        ((i * m + j) * n + l) % n == l,
        ((i * m + j) * n + l) / n / m == i,
        ((i * m + j) * n + l) / n % m == j,
        0 <= i * m + j < h * m,
{
    lemma_flat(i, h, j, m);
    lemma_flat(i * m + j, h * m, l, n);
}

/// An index below `h * m * n` splits into a triple.
pub proof fn lemma_split3(k: int, h: int, m: int, n: int)
    requires
        0 <= k < h * m * n,
        0 <= h,
        0 <= m,
        0 <= n,
    ensures
        0 < h && 0 < m && 0 < n,
        0 <= k / n / m < h,
        0 <= k / n % m < m,
        0 <= k % n < n,
        0 <= k / n < h * m,
        k == ((k / n / m) * m + k / n % m) * n + k % n,
{
    assert(0 <= h * m) by (nonlinear_arith)
        requires
            0 <= h,
            0 <= m,
    ;
    lemma_split(k, h * m, n);
    lemma_split(k / n, h, m);
}

/// Products of nonnegative numbers are monotone.
pub proof fn lemma_mul_le(a: int, b: int, c: int, d: int)
    requires
        0 <= a <= b,
        0 <= c <= d,
    ensures
        0 <= a * c <= b * d,
{
    assert(0 <= a * c <= b * d) by (nonlinear_arith)
        requires
            0 <= a <= b,
            0 <= c <= d,
    ;
}

} // verus!
