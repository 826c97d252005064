//! Linear maps and their adjoints in exact arithmetic.
//!
//! Two maps are adjoint if moving one across an inner product gives the other. The lemmas reduce
//! adjointness of maps on vectors to the matrices behind them.

use vstd::prelude::*;

#[allow(unused_imports)]
use crate::cpu::batch::{batched, block, lemma_block};
#[allow(unused_imports)]
use crate::exact::lemma_plus_swap;
#[allow(unused_imports)]
use crate::index::{lemma_flat, lemma_mul_le};
use crate::scalar::Real;
#[allow(unused_imports)]
use crate::scalar::{
    col_sums, exact_ring, inner, lemma_plus_assoc, lemma_plus_zero, lemma_sum_ext, lemma_sum_plus,
    lemma_sum_scale, lemma_sum_single, lemma_sum_swap, lemma_sum_zero, lemma_times_assoc,
    lemma_times_comm, lemma_times_one, lemma_times_zero, products, row_sums, sum,
};

verus! {

// ── sums over grids ─────────────────────────────────────────────────────────

/// The terms of `f` from `a` on.
pub open spec fn shifted<T>(f: spec_fn(int) -> T, a: int) -> spec_fn(int) -> T {
    |j: int| f(a + j)
}

/// A sum is the sum of its first part and of the rest.
pub proof fn lemma_sum_concat<T: Real>(a: int, b: int, f: spec_fn(int) -> T)
    requires
        exact_ring::<T>(),
        0 <= a,
        0 <= b,
    ensures
        sum(a + b, f) == sum(a, f).plus(sum(b, shifted(f, a))),
    decreases b,
{
    if b == 0 {
        lemma_plus_zero(sum(a, f));
    } else {
        lemma_sum_concat(a, b - 1, f);
        lemma_plus_assoc(sum(a, f), sum(b - 1, shifted(f, a)), f(a + (b - 1)));
    }
}

/// Sums of the rows of a grid with `m` columns.
pub open spec fn grid_rows<T: Real>(m: int, f: spec_fn(int) -> T) -> spec_fn(int) -> T {
    |i: int| sum(m, shifted(f, i * m))
}

/// A sum over a grid is the sum of the sums of its rows.
pub proof fn lemma_sum_grid<T: Real>(n: int, m: int, f: spec_fn(int) -> T)
    requires
        exact_ring::<T>(),
        0 <= n,
        0 <= m,
    ensures
        sum(n * m, f) == sum(n, grid_rows(m, f)),
    decreases n,
{
    if n == 0 {
        assert(0 * m == 0);
    } else {
        lemma_sum_grid(n - 1, m, f);
        assert((n - 1) * m + m == n * m) by (nonlinear_arith);
        lemma_mul_le(0, n - 1, 0, m);
        lemma_sum_concat((n - 1) * m, m, f);
    }
}

/// A sum over a grid with terms in one row only.
pub proof fn lemma_sum_block<T: Real>(
    n: int,
    m: int,
    b: int,
    f: spec_fn(int) -> T,
    g: spec_fn(int) -> T,
)
    requires
        exact_ring::<T>(),
        0 <= b < n,
        0 <= m,
        forall|k: int| 0 <= k < n * m && k / m != b ==> #[trigger] f(k) == T::zero_val(),
        forall|j: int| 0 <= j < m ==> f(b * m + j) == #[trigger] g(j),
    ensures
        sum(n * m, f) == sum(m, g),
{
    lemma_sum_grid(n, m, f);
    let rows = grid_rows(m, f);
    assert forall|i: int| 0 <= i < n && i != b implies #[trigger] rows(i) == T::zero_val() by {
        let h = shifted(f, i * m);
        assert forall|j: int| 0 <= j < m implies #[trigger] h(j) == T::zero_val() by {
            lemma_flat(i, n, j, m);
            assert(f(i * m + j) == T::zero_val());
        }
        lemma_sum_zero(m, h);
    }
    lemma_sum_single(n, b, rows);
    lemma_sum_ext(m, shifted(f, b * m), g);
}

/// A sum over a grid with terms in one column only.
pub proof fn lemma_sum_stride<T: Real>(
    n: int,
    m: int,
    c: int,
    f: spec_fn(int) -> T,
    g: spec_fn(int) -> T,
)
    requires
        exact_ring::<T>(),
        0 <= n,
        0 <= c < m,
        forall|k: int| 0 <= k < n * m && k % m != c ==> #[trigger] f(k) == T::zero_val(),
        forall|i: int| 0 <= i < n ==> f(i * m + c) == #[trigger] g(i),
    ensures
        sum(n * m, f) == sum(n, g),
{
    lemma_sum_grid(n, m, f);
    let rows = grid_rows(m, f);
    assert forall|i: int| 0 <= i < n implies #[trigger] rows(i) == g(i) by {
        let h = shifted(f, i * m);
        assert forall|j: int| 0 <= j < m && j != c implies #[trigger] h(j) == T::zero_val() by {
            lemma_flat(i, n, j, m);
            assert(f(i * m + j) == T::zero_val());
        }
        lemma_sum_single(m, c, h);
    }
    lemma_sum_ext(n, rows, g);
}

/// The terms of `f` other than those at `k` and `p`.
pub open spec fn others<T: Real>(f: spec_fn(int) -> T, k: int, p: int) -> spec_fn(int) -> T {
    |r: int|
        if r == k || r == p {
            T::zero_val()
        } else {
            f(r)
        }
}

/// The term `x` at `k`, and zeros.
pub open spec fn only<T: Real>(k: int, x: T) -> spec_fn(int) -> T {
    |r: int|
        if r == k {
            x
        } else {
            T::zero_val()
        }
}

/// A sum is its terms at two places and the rest.
pub proof fn lemma_sum_split<T: Real>(n: int, k: int, p: int, f: spec_fn(int) -> T)
    requires
        exact_ring::<T>(),
        0 <= k < n,
        0 <= p < n,
        k != p,
    ensures
        sum(n, f) == sum(n, others(f, k, p)).plus(f(k).plus(f(p))),
{
    let (rest, at_k, at_p) = (others(f, k, p), only(k, f(k)), only(p, f(p)));
    let pair = |r: int| at_k(r).plus(at_p(r));
    assert forall|r: int| 0 <= r < n implies #[trigger] f(r) == rest(r).plus(pair(r)) by {
        lemma_plus_zero(f(r));
        lemma_plus_zero(T::zero_val());
    }
    lemma_sum_plus(n, rest, pair, f);
    lemma_sum_plus(n, at_k, at_p, pair);
    lemma_sum_single(n, k, at_k);
    lemma_sum_single(n, p, at_p);
}

/// A sum with terms at two places only.
pub proof fn lemma_sum_pair<T: Real>(n: int, k: int, p: int, f: spec_fn(int) -> T)
    requires
        exact_ring::<T>(),
        0 <= k < n,
        0 <= p < n,
        k != p,
        forall|r: int| 0 <= r < n && r != k && r != p ==> #[trigger] f(r) == T::zero_val(),
    ensures
        sum(n, f) == f(k).plus(f(p)),
{
    lemma_sum_split(n, k, p, f);
    lemma_sum_zero(n, others(f, k, p));
    lemma_plus_zero(f(k).plus(f(p)));
}

/// Trailing zeros do not change a sum.
pub proof fn lemma_sum_trailing<T: Real>(n: int, m: int, f: spec_fn(int) -> T)
    requires
        exact_ring::<T>(),
        0 <= n <= m,
        forall|i: int| n <= i < m ==> #[trigger] f(i) == T::zero_val(),
    ensures
        sum(m, f) == sum(n, f),
    decreases m - n,
{
    if n < m {
        lemma_sum_trailing(n, m - 1, f);
        assert(f(m - 1) == T::zero_val());
        lemma_plus_zero(sum(n, f));
    }
}

/// A sum of products over a grid is the product of the sums.
pub proof fn lemma_sum_product<T: Real>(
    n: int,
    m: int,
    f: spec_fn(int) -> T,
    g: spec_fn(int) -> T,
    h: spec_fn(int) -> T,
)
    requires
        exact_ring::<T>(),
        0 <= n,
        0 <= m,
        forall|t: int| 0 <= t < n * m ==> #[trigger] h(t) == f(t / m).times(g(t % m)),
    ensures
        sum(n * m, h) == sum(n, f).times(sum(m, g)),
{
    lemma_sum_grid(n, m, h);
    let rows = grid_rows(m, h);
    let s = sum(m, g);
    assert forall|i: int| 0 <= i < n implies #[trigger] rows(i) == s.times(f(i)) by {
        let k = shifted(h, i * m);
        assert forall|j: int| 0 <= j < m implies #[trigger] k(j) == f(i).times(g(j)) by {
            lemma_flat(i, n, j, m);
            assert(h(i * m + j) == f(i).times(g(j)));
        }
        lemma_sum_scale(m, f(i), g, k);
        lemma_times_comm(f(i), s);
    }
    lemma_sum_scale(n, s, f, rows);
    lemma_times_comm(s, sum(n, f));
}

/// Terms of a list with one more inserted.
pub proof fn lemma_sum_inserted<T: Real>(
    n: int,
    at: int,
    y: T,
    g: spec_fn(int) -> T,
    h: spec_fn(int) -> T,
)
    requires
        exact_ring::<T>(),
        0 <= at <= n,
        h(at) == y,
        forall|k: int| 0 <= k < at ==> #[trigger] h(k) == g(k),
        forall|k: int| at < k <= n ==> #[trigger] h(k) == g(k - 1),
    ensures
        sum(n + 1, h) == sum(n, g).plus(y),
    decreases n,
{
    if at == n {
        lemma_sum_ext(n, h, g);
    } else {
        lemma_sum_inserted(n - 1, at, y, g, h);
        assert(h(n) == g(n - 1));
        assert(sum(n + 1, h) == sum(n, h).plus(h(n)));
        lemma_plus_swap(sum(n - 1, g), y, g(n - 1));
    }
}

/// One where the indices agree, and zero elsewhere.
pub open spec fn delta<T: Real>(i: int, j: int) -> T {
    if i == j {
        T::one_val()
    } else {
        T::zero_val()
    }
}

/// Products of two columns of a matrix.
pub open spec fn column_products<T: Real>(f: spec_fn(int, int) -> T, a: int, b: int) -> spec_fn(
    int,
) -> T {
    |y: int| f(y, a).times(f(y, b))
}

/// The columns of an `n × n` matrix are orthonormal.
pub open spec fn orthonormal_columns<T: Real>(f: spec_fn(int, int) -> T, n: int) -> bool {
    forall|a: int, b: int|
        0 <= a < n && 0 <= b < n ==> #[trigger] sum(n, column_products(f, a, b)) == delta::<T>(a, b)
}

/// A combination of the rows of a matrix.
pub open spec fn combined<T: Real>(
    f: spec_fn(int, int) -> T,
    n: int,
    w: spec_fn(int) -> T,
    y: int,
) -> T {
    sum(n, |s: int| f(y, s).times(w(s)))
}

/// Products of column `t` with the combinations of `w`.
pub open spec fn combined_terms<T: Real>(
    f: spec_fn(int, int) -> T,
    n: int,
    w: spec_fn(int) -> T,
    t: int,
) -> spec_fn(int) -> T {
    |y: int| f(y, t).times(combined(f, n, w, y))
}

/// Orthonormal columns give the coefficients of a combination back.
pub proof fn lemma_orthonormal_expand<T: Real>(
    f: spec_fn(int, int) -> T,
    n: int,
    w: spec_fn(int) -> T,
    t: int,
)
    requires
        exact_ring::<T>(),
        orthonormal_columns(f, n),
        0 <= t < n,
    ensures
        sum(n, combined_terms(f, n, w, t)) == w(t),
{
    let p = |y: int, s: int| f(y, t).times(f(y, s).times(w(s)));
    let (c, rows, cols) = (combined_terms(f, n, w, t), row_sums(n, p), col_sums(n, p));
    assert forall|y: int| 0 <= y < n implies #[trigger] c(y) == rows(y) by {
        let (g, h) = (|s: int| f(y, s).times(w(s)), |s: int| p(y, s));
        assert forall|s: int| 0 <= s < n implies #[trigger] h(s) == f(y, t).times(g(s)) by {}
        lemma_sum_scale(n, f(y, t), g, h);
    }
    lemma_sum_ext(n, c, rows);
    lemma_sum_swap(n, n, p);
    assert forall|s: int| 0 <= s < n implies #[trigger] cols(s) == w(s).times(delta::<T>(t, s)) by {
        let (g, h) = (column_products(f, t, s), |y: int| p(y, s));
        assert forall|y: int| 0 <= y < n implies #[trigger] h(y) == w(s).times(g(y)) by {
            lemma_times_assoc(f(y, t), f(y, s), w(s));
            lemma_times_comm(g(y), w(s));
        }
        lemma_sum_scale(n, w(s), g, h);
        assert(sum(n, g) == delta::<T>(t, s));
    }
    assert forall|s: int| 0 <= s < n && s != t implies #[trigger] cols(s) == T::zero_val() by {
        lemma_times_zero(w(s));
    }
    lemma_sum_single(n, t, cols);
    lemma_times_one(w(t));
}

// ── adjoint maps ────────────────────────────────────────────────────────────

/// `f` takes vectors of length `n` to vectors of length `m`, `g` goes back, and each can be moved
/// across the inner product to become the other.
pub open spec fn adjoint<T: Real>(
    f: spec_fn(Seq<T>) -> Seq<T>,
    g: spec_fn(Seq<T>) -> Seq<T>,
    n: int,
    m: int,
) -> bool {
    &&& forall|x: Seq<T>| x.len() == n ==> (#[trigger] f(x)).len() == m
    &&& forall|y: Seq<T>| y.len() == m ==> (#[trigger] g(y)).len() == n
    &&& forall|x: Seq<T>, y: Seq<T>|
        #![trigger f(x), g(y)]
        x.len() == n && y.len() == m ==> inner(f(x), y) == inner(x, g(y))
}

/// Products of row `k` of a matrix with a vector.
pub open spec fn row_terms<T: Real>(a: spec_fn(int, int) -> T, x: Seq<T>, k: int) -> spec_fn(
    int,
) -> T {
    |j: int| a(k, j).times(x[j])
}

/// Products of column `j` of a matrix with a vector.
pub open spec fn col_terms<T: Real>(a: spec_fn(int, int) -> T, y: Seq<T>, j: int) -> spec_fn(
    int,
) -> T {
    |k: int| a(k, j).times(y[k])
}

/// `z` is the matrix times `x`.
pub open spec fn is_product<T: Real>(a: spec_fn(int, int) -> T, x: Seq<T>, z: Seq<T>, m: int) -> bool {
    &&& z.len() == m
    &&& forall|k: int| 0 <= k < m ==> #[trigger] z[k] == sum(x.len() as int, row_terms(a, x, k))
}

/// `z` is the transposed matrix times `y`.
pub open spec fn is_transposed_product<T: Real>(
    a: spec_fn(int, int) -> T,
    y: Seq<T>,
    z: Seq<T>,
    n: int,
) -> bool {
    &&& z.len() == n
    &&& forall|j: int| 0 <= j < n ==> #[trigger] z[j] == sum(y.len() as int, col_terms(a, y, j))
}

/// A matrix and its transpose are adjoint.
pub proof fn lemma_matrix_adjoint<T: Real>(
    a: spec_fn(int, int) -> T,
    x: Seq<T>,
    y: Seq<T>,
    ax: Seq<T>,
    ay: Seq<T>,
)
    requires
        exact_ring::<T>(),
        is_product(a, x, ax, y.len() as int),
        is_transposed_product(a, y, ay, x.len() as int),
    ensures
        inner(ax, y) == inner(x, ay),
{
    let (n, m) = (x.len() as int, y.len() as int);
    let f = |k: int, j: int| a(k, j).times(x[j]).times(y[k]);
    lemma_sum_swap(m, n, f);
    assert forall|k: int| 0 <= k < m implies #[trigger] row_sums(n, f)(k) == products(ax, y)(k) by {
        let (g, h) = (row_terms(a, x, k), |j: int| f(k, j));
        assert forall|j: int| 0 <= j < n implies #[trigger] h(j) == y[k].times(g(j)) by {
            lemma_times_comm(g(j), y[k]);
        }
        lemma_sum_scale(n, y[k], g, h);
        assert(ax[k] == sum(n, g));
        lemma_times_comm(y[k], ax[k]);
    }
    lemma_sum_ext(m, row_sums(n, f), products(ax, y));
    assert forall|j: int| 0 <= j < n implies #[trigger] col_sums(m, f)(j) == products(x, ay)(j) by {
        let (g, h) = (col_terms(a, y, j), |k: int| f(k, j));
        assert forall|k: int| 0 <= k < m implies #[trigger] h(k) == x[j].times(g(k)) by {
            lemma_times_comm(a(k, j), x[j]);
            lemma_times_assoc(x[j], a(k, j), y[k]);
        }
        lemma_sum_scale(m, x[j], g, h);
        assert(ay[j] == sum(m, g));
    }
    lemma_sum_ext(n, col_sums(m, f), products(x, ay));
}

/// The composition of maps that are adjoint to each other.
pub proof fn lemma_adjoint_compose<T: Real>(
    f: spec_fn(Seq<T>) -> Seq<T>,
    ft: spec_fn(Seq<T>) -> Seq<T>,
    g: spec_fn(Seq<T>) -> Seq<T>,
    gt: spec_fn(Seq<T>) -> Seq<T>,
    h: spec_fn(Seq<T>) -> Seq<T>,
    ht: spec_fn(Seq<T>) -> Seq<T>,
    n: int,
    l: int,
    m: int,
)
    requires
        adjoint(f, ft, n, l),
        adjoint(g, gt, l, m),
        forall|x: Seq<T>| x.len() == n ==> #[trigger] h(x) == g(f(x)),
        forall|y: Seq<T>| y.len() == m ==> #[trigger] ht(y) == ft(gt(y)),
    ensures
        adjoint(h, ht, n, m),
{
    assert forall|x: Seq<T>, y: Seq<T>|
        #![trigger h(x), ht(y)]
        x.len() == n && y.len() == m implies inner(h(x), y) == inner(x, ht(y)) by {
        assert(h(x) == g(f(x)));
        assert(ht(y) == ft(gt(y)));
        assert(inner(g(f(x)), y) == inner(f(x), gt(y)));
        assert(inner(f(x), gt(y)) == inner(x, ft(gt(y))));
    }
}

/// Products of two vectors, block by block.
pub proof fn lemma_inner_blocks<T: Real>(x: Seq<T>, y: Seq<T>, e: int, n: int)
    requires
        exact_ring::<T>(),
        0 <= e,
        0 <= n,
        x.len() == e * n,
        y.len() == e * n,
    ensures
        inner(x, y) == sum(e, |i: int| inner(block(x, i, n), block(y, i, n))),
{
    let f = products(x, y);
    lemma_sum_grid(e, n, f);
    let g = |i: int| inner(block(x, i, n), block(y, i, n));
    assert forall|i: int| 0 <= i < e implies #[trigger] grid_rows(n, f)(i) == g(i) by {
        lemma_block(i, e, n);
        let (s, p) = (shifted(f, i * n), products(block(x, i, n), block(y, i, n)));
        assert forall|j: int| 0 <= j < n implies #[trigger] s(j) == p(j) by {}
        lemma_sum_ext(n, s, p);
    }
    lemma_sum_ext(e, grid_rows(n, f), g);
}

/// Blocks of a batch are the images of blocks.
proof fn lemma_batch_block<T: Real>(
    f: spec_fn(Seq<T>) -> Seq<T>,
    e: int,
    n: int,
    m: int,
    u: Seq<T>,
    i: int,
)
    requires
        0 <= i < e,
        0 <= n,
        0 <= m,
        u.len() == e * n,
        forall|x: Seq<T>| x.len() == n ==> (#[trigger] f(x)).len() == m,
    ensures
        block(batched(f, e, n, m, u), i, m) == f(block(u, i, n)),
{
    lemma_block(i, e, m);
    lemma_block(i, e, n);
    let (lhs, rhs) = (block(batched(f, e, n, m, u), i, m), f(block(u, i, n)));
    assert(block(u, i, n).len() == n);
    assert forall|j: int| 0 <= j < m implies #[trigger] lhs[j] == rhs[j] by {
        lemma_flat(i, e, j, m);
    }
    assert(lhs =~= rhs);
}

/// Batches of adjoint maps are adjoint.
pub proof fn lemma_adjoint_batched<T: Real>(
    f: spec_fn(Seq<T>) -> Seq<T>,
    g: spec_fn(Seq<T>) -> Seq<T>,
    e: int,
    n: int,
    m: int,
    u: Seq<T>,
    w: Seq<T>,
)
    requires
        exact_ring::<T>(),
        adjoint(f, g, n, m),
        0 <= e,
        0 <= n,
        0 <= m,
        u.len() == e * n,
        w.len() == e * m,
    ensures
        inner(batched(f, e, n, m, u), w) == inner(u, batched(g, e, m, n, w)),
{
    lemma_mul_le(e, e, 0, n);
    lemma_mul_le(e, e, 0, m);
    let (fu, gw) = (batched(f, e, n, m, u), batched(g, e, m, n, w));
    lemma_inner_blocks(fu, w, e, m);
    lemma_inner_blocks(u, gw, e, n);
    let lhs = |i: int| inner(block(fu, i, m), block(w, i, m));
    let rhs = |i: int| inner(block(u, i, n), block(gw, i, n));
    assert forall|i: int| 0 <= i < e implies #[trigger] lhs(i) == rhs(i) by {
        lemma_batch_block(f, e, n, m, u, i);
        lemma_batch_block(g, e, m, n, w, i);
        lemma_block(i, e, m);
        lemma_block(i, e, n);
        let (x, y) = (block(u, i, n), block(w, i, m));
        assert(x.len() == n && y.len() == m);
        assert(inner(f(x), y) == inner(x, g(y)));
    }
    lemma_sum_ext(e, lhs, rhs);
}

} // verus!
