//! Laws of the tensor-product inverse in exact arithmetic.

use vstd::prelude::*;

#[allow(unused_imports)]
use crate::cpu::eigen::{
    diagonalized, eigenvalues, eigenvectors, gram, gram_terms, unrotated,
};
#[allow(unused_imports)]
use crate::cpu::eigen_laws::{
    cleared, eigen_terms, exact_solver, law_eigenpairs_decompose, law_eigenvectors_are_orthonormal,
    read_from, stored,
};
#[allow(unused_imports)]
use crate::cpu::fdm_tensor::{
    eigen_data, kept_sum, Diagonalizer, FdmOperatorKind, MAX_SWEEPS,
};
#[allow(unused_imports)]
use crate::exact::{lemma_product_nonzero, lemma_times_cross, lemma_times_swap};
#[allow(unused_imports)]
use crate::index::{lemma_flat, lemma_mul_le, lemma_split};
#[allow(unused_imports)]
use crate::linear::{
    col_terms, column_products, combined, combined_terms, delta, grid_rows, lemma_matrix_adjoint,
    lemma_orthonormal_expand, lemma_sum_grid, lemma_sum_product, lemma_sum_trailing,
    orthonormal_columns, row_terms, shifted,
};
use crate::scalar::Real;
#[allow(unused_imports)]
use crate::scalar::{
    col_sums, exact_field, exact_ring, inner, lemma_field, lemma_over, lemma_plus_zero,
    lemma_sum_ext, lemma_sum_scale, lemma_sum_swap, lemma_times_assoc, lemma_times_comm,
    lemma_times_one, lemma_times_zero, row_sums, sum,
};

verus! {

// ── tensor products of matrices ─────────────────────────────────────────────

/// The matrix with rows and columns exchanged.
pub open spec fn flipped<T>(f: spec_fn(int, int) -> T) -> spec_fn(int, int) -> T {
    |a: int, b: int| f(b, a)
}

/// The tensor product of a matrix and a `p × p` matrix.
pub open spec fn tensor<T: Real>(
    g: spec_fn(int, int) -> T,
    f: spec_fn(int, int) -> T,
    p: int,
) -> spec_fn(int, int) -> T {
    |x: int, t: int| g(x / p, t / p).times(f(x % p, t % p))
}

/// The tensor power of a `p × p` matrix with one, two or three factors.
pub open spec fn tensor_power<T: Real>(f: spec_fn(int, int) -> T, p: int, dim: int) -> spec_fn(
    int,
    int,
) -> T {
    if dim == 1 {
        f
    } else if dim == 2 {
        tensor(f, f, p)
    } else {
        tensor(tensor(f, f, p), f, p)
    }
}

/// The tensor product of matrices with orthonormal columns has orthonormal columns.
proof fn lemma_tensor_orthonormal<T: Real>(
    g: spec_fn(int, int) -> T,
    n: int,
    f: spec_fn(int, int) -> T,
    p: int,
)
    requires
        exact_ring::<T>(),
        0 <= n,
        0 <= p,
        orthonormal_columns(g, n),
        orthonormal_columns(f, p),
    ensures
        orthonormal_columns(tensor(g, f, p), n * p),
{
    let h = tensor(g, f, p);
    assert forall|a: int, b: int| 0 <= a < n * p && 0 <= b < n * p implies #[trigger] sum(
        n * p,
        column_products(h, a, b),
    ) == delta::<T>(a, b) by {
        lemma_split(a, n, p);
        lemma_split(b, n, p);
        let (u, v, w) = (
            column_products(g, a / p, b / p),
            column_products(f, a % p, b % p),
            column_products(h, a, b),
        );
        assert forall|y: int| 0 <= y < n * p implies #[trigger] w(y) == u(y / p).times(v(y % p)) by {
            lemma_times_cross(
                g(y / p, a / p),
                f(y % p, a % p),
                g(y / p, b / p),
                f(y % p, b % p),
            );
        }
        lemma_sum_product(n, p, u, v, w);
        assert(sum(n, u) == delta::<T>(a / p, b / p));
        assert(sum(p, v) == delta::<T>(a % p, b % p));
        lemma_times_one(delta::<T>(a % p, b % p));
        lemma_times_zero(delta::<T>(a / p, b / p));
        lemma_times_zero(delta::<T>(a % p, b % p));
        lemma_times_one(delta::<T>(a / p, b / p));
        if a / p == b / p && a % p == b % p {
            assert(a == a / p * p + a % p);
            assert(b == b / p * p + b % p);
        }
    }
}

/// Number of rows of a tensor power.
pub open spec fn cells(p: int, dim: int) -> int {
    if dim == 1 {
        p
    } else if dim == 2 {
        p * p
    } else {
        p * p * p
    }
}

pub(crate) proof fn lemma_cells(p: int, dim: int)
    requires
        0 <= p,
    ensures
        0 <= cells(p, dim),
        0 <= p * p,
{
    lemma_mul_le(0, p, 0, p);
    lemma_mul_le(0, p * p, 0, p);
}

/// Tensor powers of a matrix with orthonormal columns have orthonormal columns.
proof fn lemma_power_orthonormal<T: Real>(f: spec_fn(int, int) -> T, p: int, dim: int)
    requires
        exact_ring::<T>(),
        0 <= p,
        1 <= dim <= 3,
        orthonormal_columns(f, p),
    ensures
        orthonormal_columns(tensor_power(f, p, dim), cells(p, dim)),
{
    lemma_cells(p, dim);
    if dim >= 2 {
        lemma_tensor_orthonormal(f, p, f, p);
    }
    if dim == 3 {
        lemma_tensor_orthonormal(tensor(f, f, p), p * p, f, p);
    }
}

// ── matrices by their eigenvectors ──────────────────────────────────────────

/// Coefficient `t` of a vector: its inner product with column `t`.
pub open spec fn coefficient<T: Real>(
    f: spec_fn(int, int) -> T,
    n: int,
    u: Seq<T>,
    t: int,
) -> T {
    sum(n, |y: int| f(y, t).times(u[y]))
}

/// Products of entry `(x, y)` of the matrix with eigenvectors `f` and eigenvalues `d`.
pub open spec fn spectral_terms<T: Real>(
    f: spec_fn(int, int) -> T,
    d: spec_fn(int) -> T,
    x: int,
    y: int,
) -> spec_fn(int) -> T {
    |t: int| f(x, t).times(d(t).times(f(y, t)))
}

/// The matrix with eigenvectors `f` and eigenvalues `d`.
pub open spec fn spectral<T: Real>(
    f: spec_fn(int, int) -> T,
    d: spec_fn(int) -> T,
    n: int,
) -> spec_fn(int, int) -> T {
    |x: int, y: int| sum(n, spectral_terms(f, d, x, y))
}

/// Shares of entry `x` of the product of that matrix with a vector, by eigenvectors.
pub open spec fn spectral_shares<T: Real>(
    f: spec_fn(int, int) -> T,
    d: spec_fn(int) -> T,
    n: int,
    u: Seq<T>,
    x: int,
) -> spec_fn(int) -> T {
    |t: int| f(x, t).times(d(t).times(coefficient(f, n, u, t)))
}

/// The matrix acts by scaling coefficients.
proof fn lemma_spectral<T: Real>(
    f: spec_fn(int, int) -> T,
    d: spec_fn(int) -> T,
    n: int,
    u: Seq<T>,
    x: int,
)
    requires
        exact_ring::<T>(),
    ensures
        sum(n, spectral_shares(f, d, n, u, x)) == sum(n, row_terms(spectral(f, d, n), u, x)),
{
    let p = |t: int, y: int| f(x, t).times(d(t).times(f(y, t).times(u[y])));
    let (s, rows) = (spectral_shares(f, d, n, u, x), row_sums(n, p));
    assert forall|t: int| 0 <= t < n implies #[trigger] s(t) == rows(t) by {
        let (a, b, c) = (
            |y: int| f(y, t).times(u[y]),
            |y: int| d(t).times(f(y, t).times(u[y])),
            |y: int| p(t, y),
        );
        assert forall|y: int| 0 <= y < n implies #[trigger] b(y) == d(t).times(a(y)) by {}
        lemma_sum_scale(n, d(t), a, b);
        assert forall|y: int| 0 <= y < n implies #[trigger] c(y) == f(x, t).times(b(y)) by {}
        lemma_sum_scale(n, f(x, t), b, c);
    }
    lemma_sum_ext(n, s, rows);
    lemma_sum_swap(n, n, p);
    let (r, cols) = (row_terms(spectral(f, d, n), u, x), col_sums(n, p));
    assert forall|y: int| 0 <= y < n implies #[trigger] cols(y) == r(y) by {
        let (a, b) = (spectral_terms(f, d, x, y), |t: int| p(t, y));
        assert forall|t: int| 0 <= t < n implies #[trigger] b(t) == u[y].times(a(t)) by {
            lemma_times_assoc(d(t), f(y, t), u[y]);
            lemma_times_assoc(f(x, t), d(t).times(f(y, t)), u[y]);
            lemma_times_comm(a(t), u[y]);
        }
        lemma_sum_scale(n, u[y], a, b);
        lemma_times_comm(u[y], sum(n, a));
    }
    lemma_sum_ext(n, cols, r);
}

/// The matrix is symmetric.
proof fn lemma_spectral_symmetric<T: Real>(
    f: spec_fn(int, int) -> T,
    d: spec_fn(int) -> T,
    n: int,
    x: int,
    y: int,
)
    requires
        exact_ring::<T>(),
    ensures
        spectral(f, d, n)(x, y) == spectral(f, d, n)(y, x),
{
    let (a, b) = (spectral_terms(f, d, x, y), spectral_terms(f, d, y, x));
    assert forall|t: int| 0 <= t < n implies #[trigger] a(t) == b(t) by {
        lemma_times_comm(d(t), f(y, t));
        lemma_times_assoc(f(x, t), f(y, t), d(t));
        lemma_times_comm(f(x, t), f(y, t));
        lemma_times_assoc(f(y, t), f(x, t), d(t));
        lemma_times_comm(f(x, t), d(t));
    }
    lemma_sum_ext(n, a, b);
}

// ── the element inverse ─────────────────────────────────────────────────────

/// The matrix of eigenvectors, one per column.
pub open spec fn vectors_of<T: Real>(g: Diagonalizer<T>) -> spec_fn(int, int) -> T {
    |i: int, k: int| g.entry(i, k)
}

/// Eigenvalue `t` of the element operator.
pub open spec fn eigenvalues_of<T: Real>(g: Diagonalizer<T>, dim: int) -> spec_fn(int) -> T {
    let p = g.p;
    if dim == 1 {
        |t: int| g.lambda[t]
    } else if dim == 2 {
        |t: int| g.joined(g.lambda[t / p], g.lambda[t % p])
    } else {
        |t: int| g.joined(g.joined(g.lambda[t / p / p], g.lambda[t / p % p]), g.lambda[t % p])
    }
}

/// Reciprocals of the eigenvalues.
pub open spec fn reciprocals_of<T: Real>(g: Diagonalizer<T>, dim: int) -> spec_fn(int) -> T {
    |t: int| T::one_val().over(eigenvalues_of(g, dim)(t))
}

/// Leaving out terms that are zero does not change a sum.
proof fn lemma_kept_sum<T: Real>(n: int, keep: spec_fn(int) -> bool, f: spec_fn(int) -> T)
    requires
        exact_ring::<T>(),
        forall|i: int| 0 <= i < n && !keep(i) ==> #[trigger] f(i) == T::zero_val(),
    ensures
        kept_sum(n, keep, f) == sum(n, f),
    decreases n,
{
    if n > 0 {
        lemma_kept_sum(n - 1, keep, f);
        if !keep(n - 1) {
            assert(f(n - 1) == T::zero_val());
            lemma_plus_zero(sum(n - 1, f));
        }
    }
}

/// A number divided by another, as a product.
proof fn lemma_scaled<T: Real>(a: T, b: T)
    requires
        exact_field::<T>(),
    ensures
        a.over(b) == T::one_val().over(b).times(a),
{
    lemma_over(a, b);
    lemma_times_comm(a, T::one_val().over(b));
}

/// The inverse in one dimension, by eigenvectors.
proof fn lemma_value1<T: Real>(g: Diagonalizer<T>, u: Seq<T>, x: int)
    requires
        exact_field::<T>(),
        g.valid(),
    ensures
        g.value(1, u, x) == sum(
            g.p,
            spectral_shares(vectors_of(g), reciprocals_of(g, 1), g.p, u, x),
        ),
{
    let (p, f) = (g.p, vectors_of(g));
    let (s, h) = (g.shares1(u, x), spectral_shares(f, reciprocals_of(g, 1), p, u, x));
    lemma_field(T::zero_val(), T::zero_val());
    assert forall|k: int| 0 <= k < p implies #[trigger] s(k) == h(k) by {
        lemma_sum_ext(p, g.terms1(u, k), |y: int| f(y, k).times(u[y]));
        lemma_scaled(sum(p, g.terms1(u, k)), g.lambda[k]);
    }
    assert forall|k: int| 0 <= k < p && !g.kept1(u)(k) implies #[trigger] s(k) == T::zero_val() by {
        lemma_field(g.scaled1(u, k), T::zero_val());
        lemma_times_zero(g.entry(x, k));
    }
    lemma_kept_sum(p, g.kept1(u), s);
    lemma_sum_ext(p, s, h);
}

/// Coefficients in two dimensions.
proof fn lemma_coefficient2<T: Real>(g: Diagonalizer<T>, u: Seq<T>, t: int)
    requires
        exact_ring::<T>(),
        g.valid(),
        0 <= t < g.p * g.p,
    ensures
        sum(g.p, g.terms2(u, t / g.p, t % g.p)) == coefficient(
            tensor_power(vectors_of(g), g.p, 2),
            g.p * g.p,
            u,
            t,
        ),
{
    let p = g.p;
    let (l, k) = (t / p, t % p);
    let f = tensor_power(vectors_of(g), p, 2);
    let c = |y: int| f(y, t).times(u[y]);
    lemma_sum_grid(p, p, c);
    let (rows, terms) = (grid_rows(p, c), g.terms2(u, l, k));
    assert forall|i: int| 0 <= i < p implies #[trigger] terms(i) == rows(i) by {
        let (a, b) = (g.terms2_last(u, i, k), shifted(c, i * p));
        assert forall|j: int| 0 <= j < p implies #[trigger] b(j) == g.entry(i, l).times(a(j)) by {
            lemma_flat(i, p, j, p);
            lemma_times_assoc(g.entry(i, l), g.entry(j, k), u[i * p + j]);
            lemma_times_comm(g.entry(j, k), u[i * p + j]);
        }
        lemma_sum_scale(p, g.entry(i, l), a, b);
    }
    lemma_sum_ext(p, terms, rows);
}

/// The inverse in two dimensions, by eigenvectors.
proof fn lemma_value2<T: Real>(g: Diagonalizer<T>, u: Seq<T>, x: int)
    requires
        exact_field::<T>(),
        g.valid(),
        0 <= x < g.p * g.p,
    ensures
        g.value(2, u, x) == sum(
            g.p * g.p,
            spectral_shares(
                tensor_power(vectors_of(g), g.p, 2),
                reciprocals_of(g, 2),
                g.p * g.p,
                u,
                x,
            ),
        ),
{
    let p = g.p;
    let n = p * p;
    let (i, j) = (x / p, x % p);
    let f = tensor_power(vectors_of(g), p, 2);
    let (s, h) = (g.shares2(u, i, j), spectral_shares(f, reciprocals_of(g, 2), n, u, x));
    lemma_field(T::zero_val(), T::zero_val());
    assert forall|t: int| 0 <= t < n implies #[trigger] s(t) == h(t) by {
        let (l, k) = (t / p, t % p);
        lemma_coefficient2(g, u, t);
        lemma_scaled(sum(p, g.terms2(u, l, k)), g.joined(g.lambda[l], g.lambda[k]));
        let c = g.scaled2(u, t);
        lemma_times_assoc(g.entry(i, l), c, g.entry(j, k));
        lemma_times_comm(c, g.entry(j, k));
        lemma_times_assoc(g.entry(i, l), g.entry(j, k), c);
    }
    assert forall|t: int| 0 <= t < n && !g.kept2(u, i)(t) implies #[trigger] s(t)
        == T::zero_val() by {
        lemma_field(g.scaled2(u, t), T::zero_val());
        lemma_field(g.lead2(u, i, t), T::zero_val());
        lemma_times_zero(g.entry(i, t / p));
        lemma_times_zero(g.entry(j, t % p));
    }
    lemma_kept_sum(n, g.kept2(u, i), s);
    lemma_sum_ext(n, s, h);
}

/// Coefficients in three dimensions.
proof fn lemma_coefficient3<T: Real>(g: Diagonalizer<T>, u: Seq<T>, t: int)
    requires
        exact_ring::<T>(),
        g.valid(),
        0 <= t < g.p * g.p * g.p,
    ensures
        sum(g.p, g.terms3(u, t / g.p / g.p, t / g.p % g.p, t % g.p)) == coefficient(
            tensor_power(vectors_of(g), g.p, 3),
            g.p * g.p * g.p,
            u,
            t,
        ),
{
    let p = g.p;
    let (n, m, l) = (t / p / p, t / p % p, t % p);
    let f = tensor_power(vectors_of(g), p, 3);
    let c = |y: int| f(y, t).times(u[y]);
    lemma_cells(p, 3);
    lemma_sum_grid(p * p, p, c);
    let planes = grid_rows(p, c);
    assert forall|q: int| 0 <= q < p * p implies #[trigger] planes(q) == g.entry(q / p, n).times(
        g.entry(q % p, m),
    ).times(sum(p, g.terms3_last(u, q / p, q % p, l))) by {
        lemma_split(q, p, p);
        let e = g.entry(q / p, n).times(g.entry(q % p, m));
        let (a, b) = (g.terms3_last(u, q / p, q % p, l), shifted(c, q * p));
        assert forall|k: int| 0 <= k < p implies #[trigger] b(k) == e.times(a(k)) by {
            lemma_flat(q, p * p, k, p);
            assert(q / p * p + q % p == q);
            lemma_times_assoc(e, g.entry(k, l), u[q * p + k]);
            lemma_times_comm(g.entry(k, l), u[q * p + k]);
        }
        lemma_sum_scale(p, e, a, b);
    }
    lemma_sum_grid(p, p, planes);
    let (rows, terms) = (grid_rows(p, planes), g.terms3(u, n, m, l));
    assert forall|i: int| 0 <= i < p implies #[trigger] terms(i) == rows(i) by {
        let (a, b) = (g.terms3_middle(u, i, m, l), shifted(planes, i * p));
        assert forall|j: int| 0 <= j < p implies #[trigger] b(j) == g.entry(i, n).times(a(j)) by {
            lemma_flat(i, p, j, p);
            assert(b(j) == planes(i * p + j));
            lemma_times_assoc(
                g.entry(i, n),
                g.entry(j, m),
                sum(p, g.terms3_last(u, i, j, l)),
            );
        }
        lemma_sum_scale(p, g.entry(i, n), a, b);
    }
    lemma_sum_ext(p, terms, rows);
}

/// The inverse in three dimensions, by eigenvectors.
proof fn lemma_value3<T: Real>(g: Diagonalizer<T>, u: Seq<T>, x: int)
    requires
        exact_field::<T>(),
        g.valid(),
        0 <= x < g.p * g.p * g.p,
    ensures
        g.value(3, u, x) == sum(
            g.p * g.p * g.p,
            spectral_shares(
                tensor_power(vectors_of(g), g.p, 3),
                reciprocals_of(g, 3),
                g.p * g.p * g.p,
                u,
                x,
            ),
        ),
{
    let p = g.p;
    let n = p * p * p;
    let (i, j, k) = (x / p / p, x / p % p, x % p);
    let f = tensor_power(vectors_of(g), p, 3);
    let (s, h) = (g.shares3(u, i, j, k), spectral_shares(f, reciprocals_of(g, 3), n, u, x));
    lemma_field(T::zero_val(), T::zero_val());
    assert forall|t: int| 0 <= t < n implies #[trigger] s(t) == h(t) by {
        let (a, b, c) = (
            g.entry(i, t / p / p),
            g.entry(j, t / p % p),
            g.entry(k, t % p),
        );
        lemma_coefficient3(g, u, t);
        lemma_scaled(
            sum(p, g.terms3(u, t / p / p, t / p % p, t % p)),
            g.joined(g.joined(g.lambda[t / p / p], g.lambda[t / p % p]), g.lambda[t % p]),
        );
        let v = g.scaled3(u, t);
        // ((a v) b) c == ((a b) c) v
        lemma_times_assoc(a, v, b);
        lemma_times_comm(v, b);
        lemma_times_assoc(a, b, v);
        lemma_times_assoc(a.times(b), v, c);
        lemma_times_comm(v, c);
        lemma_times_assoc(a.times(b), c, v);
    }
    assert forall|t: int| 0 <= t < n && !g.kept3(u, i, j)(t) implies #[trigger] s(t)
        == T::zero_val() by {
        lemma_field(g.scaled3(u, t), T::zero_val());
        lemma_field(g.lead3(u, i, t), T::zero_val());
        lemma_field(g.pair3(u, i, j, t), T::zero_val());
        lemma_times_zero(g.entry(i, t / p / p));
        lemma_times_zero(g.entry(j, t / p % p));
        lemma_times_zero(g.entry(k, t % p));
    }
    lemma_kept_sum(n, g.kept3(u, i, j), s);
    lemma_sum_ext(n, s, h);
}

/// The inverse is the matrix with the same eigenvectors and the reciprocal eigenvalues.
pub proof fn law_element_inverse_is_spectral<T: Real>(
    g: Diagonalizer<T>,
    dim: int,
    u: Seq<T>,
    x: int,
)
    requires
        exact_field::<T>(),
        g.valid(),
        1 <= dim <= 3,
        0 <= x < g.cells(dim),
    ensures
        g.value(dim, u, x) == sum(
            g.cells(dim),
            row_terms(
                spectral(
                    tensor_power(vectors_of(g), g.p, dim),
                    reciprocals_of(g, dim),
                    g.cells(dim),
                ),
                u,
                x,
            ),
        ),
{
    lemma_field(T::zero_val(), T::zero_val());
    if dim == 1 {
        lemma_value1(g, u, x);
    } else if dim == 2 {
        lemma_value2(g, u, x);
    } else {
        lemma_value3(g, u, x);
    }
    lemma_spectral(
        tensor_power(vectors_of(g), g.p, dim),
        reciprocals_of(g, dim),
        g.cells(dim),
        u,
        x,
    );
}

/// The inverse on an element is its own adjoint.
pub proof fn law_element_inverse_symmetric<T: Real>(
    g: Diagonalizer<T>,
    dim: int,
    len: int,
    x: Seq<T>,
    y: Seq<T>,
)
    requires
        exact_field::<T>(),
        g.valid(),
        1 <= dim <= 3,
        g.cells(dim) <= len,
        x.len() == len,
        y.len() == len,
    ensures
        inner(g.image(dim, len)(x), y) == inner(x, g.image(dim, len)(y)),
{
    let n = g.cells(dim);
    let f = tensor_power(vectors_of(g), g.p, dim);
    let m = spectral(f, reciprocals_of(g, dim), n);
    let a = |k: int, j: int|
        if k < n && j < n {
            m(k, j)
        } else {
            T::zero_val()
        };
    lemma_field(T::zero_val(), T::zero_val());
    lemma_cells(g.p, dim);
    let (ax, ay) = (g.image(dim, len)(x), g.image(dim, len)(y));
    assert forall|k: int| 0 <= k < len implies #[trigger] ax[k] == sum(len, row_terms(a, x, k)) by {
        let r = row_terms(a, x, k);
        if k < n {
            law_element_inverse_is_spectral(g, dim, x, k);
            lemma_sum_ext(n, r, row_terms(m, x, k));
            assert forall|j: int| n <= j < len implies #[trigger] r(j) == T::zero_val() by {
                lemma_times_zero(x[j]);
            }
            lemma_sum_trailing(n, len, r);
        } else {
            assert forall|j: int| 0 <= j < len implies #[trigger] r(j) == T::zero_val() by {
                lemma_times_zero(x[j]);
            }
            lemma_sum_trailing(0, len, r);
        }
    }
    assert forall|k: int| 0 <= k < len implies #[trigger] ay[k] == sum(len, col_terms(a, y, k)) by {
        let r = col_terms(a, y, k);
        if k < n {
            law_element_inverse_is_spectral(g, dim, y, k);
            let q = row_terms(m, y, k);
            assert forall|j: int| 0 <= j < n implies #[trigger] r(j) == q(j) by {
                lemma_spectral_symmetric(f, reciprocals_of(g, dim), n, j, k);
            }
            lemma_sum_ext(n, r, q);
            assert forall|j: int| n <= j < len implies #[trigger] r(j) == T::zero_val() by {
                lemma_times_zero(y[j]);
            }
            lemma_sum_trailing(n, len, r);
        } else {
            assert forall|j: int| 0 <= j < len implies #[trigger] r(j) == T::zero_val() by {
                lemma_times_zero(y[j]);
            }
            lemma_sum_trailing(0, len, r);
        }
    }
    lemma_matrix_adjoint(a, x, y, ax, ay);
}

/// The matrix `a` times a vector.
pub open spec fn matrix_product<T: Real>(a: spec_fn(int, int) -> T, n: int, u: Seq<T>) -> Seq<T> {
    Seq::new(n as nat, |y: int| sum(n, row_terms(a, u, y)))
}

/// Where the eigenvectors are orthonormal and no eigenvalue is zero, the inverse on an element
/// undoes the matrix with these eigenvectors and eigenvalues.
pub proof fn law_element_inverse_undoes<T: Real>(g: Diagonalizer<T>, dim: int, u: Seq<T>)
    requires
        exact_field::<T>(),
        g.valid(),
        1 <= dim <= 3,
        orthonormal_columns(vectors_of(g), g.p),
        orthonormal_columns(flipped(vectors_of(g)), g.p),
        forall|t: int|
            0 <= t < g.cells(dim) ==> #[trigger] eigenvalues_of(g, dim)(t) != T::zero_val(),
        u.len() == g.cells(dim),
    ensures
        g.image(dim, g.cells(dim))(
            matrix_product(
                spectral(
                    tensor_power(vectors_of(g), g.p, dim),
                    eigenvalues_of(g, dim),
                    g.cells(dim),
                ),
                g.cells(dim),
                u,
            ),
        ) == u,
{
    lemma_field(T::zero_val(), T::zero_val());
    let n = g.cells(dim);
    let v = vectors_of(g);
    let f = tensor_power(v, g.p, dim);
    let (d, r) = (eigenvalues_of(g, dim), reciprocals_of(g, dim));
    lemma_power_orthonormal(v, g.p, dim);
    lemma_power_orthonormal(flipped(v), g.p, dim);
    let back = tensor_power(flipped(v), g.p, dim);
    let c = |t: int| coefficient(f, n, u, t);
    let w = |t: int| d(t).times(c(t));
    let au = matrix_product(spectral(f, d, n), n, u);
    assert forall|y: int| 0 <= y < n implies #[trigger] au[y] == combined(f, n, w, y) by {
        lemma_spectral(f, d, n, u, y);
        lemma_sum_ext(n, spectral_shares(f, d, n, u, y), |s: int| f(y, s).times(w(s)));
    }
    assert forall|t: int| 0 <= t < n implies r(t).times(#[trigger] coefficient(f, n, au, t)) == c(
        t,
    ) by {
        let (a, b) = (|y: int| f(y, t).times(au[y]), combined_terms(f, n, w, t));
        assert forall|y: int| 0 <= y < n implies #[trigger] a(y) == b(y) by {
            assert(au[y] == combined(f, n, w, y));
        }
        lemma_sum_ext(n, a, b);
        lemma_orthonormal_expand(f, n, w, t);
        lemma_over(T::one_val(), d(t));
        lemma_times_comm(r(t), d(t));
        lemma_times_assoc(r(t), d(t), c(t));
        lemma_times_one(c(t));
    }
    let end = g.image(dim, n)(au);
    let given = |z: int| u[z];
    assert forall|x: int| 0 <= x < n implies #[trigger] end[x] == u[x] by {
        law_element_inverse_is_spectral(g, dim, au, x);
        lemma_spectral(f, r, n, au, x);
        let (a, b) = (spectral_shares(f, r, n, au, x), combined_terms(back, n, given, x));
        assert forall|t: int| 0 <= t < n implies #[trigger] a(t) == b(t) by {
            assert(r(t).times(coefficient(f, n, au, t)) == c(t));
            assert(back(t, x) == f(x, t));
            let (e, h) = (|y: int| f(y, t).times(u[y]), |z: int| back(t, z).times(given(z)));
            lemma_sum_ext(n, e, h);
        }
        lemma_sum_ext(n, a, b);
        lemma_orthonormal_expand(back, n, given, x);
    }
    assert(end =~= u);
}

// ── the mass operator ───────────────────────────────────────────────────────

/// The tensor product of two matrices has the products of their eigenvalues.
pub(crate) proof fn lemma_tensor_spectral<T: Real>(
    a: spec_fn(int, int) -> T,
    da: spec_fn(int) -> T,
    n: int,
    b: spec_fn(int, int) -> T,
    db: spec_fn(int) -> T,
    p: int,
    d: spec_fn(int) -> T,
    x: int,
    y: int,
)
    requires
        exact_ring::<T>(),
        0 <= n,
        0 <= p,
        forall|t: int| 0 <= t < n * p ==> #[trigger] d(t) == da(t / p).times(db(t % p)),
    ensures
        spectral(tensor(a, b, p), d, n * p)(x, y) == tensor(
            spectral(a, da, n),
            spectral(b, db, p),
            p,
        )(x, y),
{
    let (f, g, h) = (
        spectral_terms(a, da, x / p, y / p),
        spectral_terms(b, db, x % p, y % p),
        spectral_terms(tensor(a, b, p), d, x, y),
    );
    assert forall|t: int| 0 <= t < n * p implies #[trigger] h(t) == f(t / p).times(g(t % p)) by {
        let (l, k) = (t / p, t % p);
        assert(d(t) == da(l).times(db(k)));
        lemma_times_cross(da(l), db(k), a(y / p, l), b(y % p, k));
        lemma_times_cross(
            a(x / p, l),
            b(x % p, k),
            da(l).times(a(y / p, l)),
            db(k).times(b(y % p, k)),
        );
    }
    lemma_sum_product(n, p, f, g, h);
}

/// On mass data the matrix that is undone is the tensor power of the one-dimensional matrix.
pub proof fn law_mass_is_tensor_power<T: Real>(g: Diagonalizer<T>, dim: int, x: int, y: int)
    requires
        exact_ring::<T>(),
        g.valid(),
        g.kind == FdmOperatorKind::Mass,
        1 <= dim <= 3,
    ensures
        spectral(tensor_power(vectors_of(g), g.p, dim), eigenvalues_of(g, dim), g.cells(dim))(
            x,
            y,
        ) == tensor_power(spectral(vectors_of(g), eigenvalues_of(g, 1), g.p), g.p, dim)(x, y),
{
    let (p, v) = (g.p, vectors_of(g));
    let (d1, d2, d3) = (eigenvalues_of(g, 1), eigenvalues_of(g, 2), eigenvalues_of(g, 3));
    lemma_cells(p, dim);
    if dim == 2 {
        lemma_tensor_spectral(v, d1, p, v, d1, p, d2, x, y);
    } else if dim == 3 {
        lemma_tensor_spectral(tensor(v, v, p), d2, p * p, v, d1, p, d3, x, y);
        lemma_tensor_spectral(v, d1, p, v, d1, p, d2, x / p, y / p);
    }
}

/// The tables of the inverse of the mass operator of a one-dimensional basis.
pub open spec fn mass_tables<T: Real>(
    interp: Seq<T>,
    grad: Seq<T>,
    weights: Seq<T>,
    p: int,
    q: int,
) -> Diagonalizer<T> {
    let data = eigen_data(interp, grad, weights, p, q);
    Diagonalizer { kind: FdmOperatorKind::Mass, p, vectors: data.vectors, lambda: data.mass }
}

/// Weighted products of tables are symmetric.
proof fn lemma_gram_symmetric<T: Real>(b: Seq<T>, w: Seq<T>, p: int, q: int, r: int, c: int)
    requires
        exact_ring::<T>(),
        0 <= r < p,
        0 <= c < p,
    ensures
        read_from(gram(b, w, p, q), p)(r, c) == stored(gram(b, w, p, q), p)(r, c),
{
    lemma_flat(c, p, r, p);
    lemma_flat(r, p, c, p);
    lemma_flat(r, p, r, p);
    let (f, g) = (gram_terms(b, w, p, r, c), gram_terms(b, w, p, c, r));
    assert forall|k: int| 0 <= k < q implies #[trigger] f(k) == g(k) by {
        lemma_times_swap(w[k], b[k * p + r], b[k * p + c]);
    }
    lemma_sum_ext(q, f, g);
}

/// Products of tables agree where the entries do.
pub(crate) proof fn lemma_power_agrees<T: Real>(
    f: spec_fn(int, int) -> T,
    g: spec_fn(int, int) -> T,
    p: int,
    dim: int,
    x: int,
    y: int,
)
    requires
        1 <= dim <= 3,
        0 <= p,
        0 <= x < cells(p, dim),
        0 <= y < cells(p, dim),
        forall|r: int, c: int| 0 <= r < p && 0 <= c < p ==> #[trigger] f(r, c) == g(r, c),
    ensures
        tensor_power(f, p, dim)(x, y) == tensor_power(g, p, dim)(x, y),
{
    if dim == 1 {
        assert(f(x, y) == g(x, y));
    } else if dim == 2 {
        lemma_split(x, p, p);
        lemma_split(y, p, p);
        assert(f(x / p, y / p) == g(x / p, y / p));
        assert(f(x % p, y % p) == g(x % p, y % p));
    } else {
        lemma_split(x, p * p, p);
        lemma_split(y, p * p, p);
        lemma_split(x / p, p, p);
        lemma_split(y / p, p, p);
        assert(f(x % p, y % p) == g(x % p, y % p));
        assert(f(x / p / p, y / p / p) == g(x / p / p, y / p / p));
        assert(f(x / p % p, y / p % p) == g(x / p % p, y / p % p));
    }
}

/// The inverse that is built from the tables of a one-dimensional basis undoes the mass operator:
/// in one, two or three dimensions it takes the tensor power of the mass matrix times `u` back to
/// `u`, once the eigenvalue solver has [`cleared`] the mass matrix, which is rare for size three
/// or more, and if no eigenvalue is zero.
pub proof fn law_inverse_undoes_mass<T: Real>(
    interp: Seq<T>,
    grad: Seq<T>,
    weights: Seq<T>,
    p: int,
    q: int,
    dim: int,
    u: Seq<T>,
)
    requires
        exact_solver::<T>(),
        0 <= p,
        p * p <= usize::MAX,
        1 <= dim <= 3,
        u.len() == cells(p, dim),
        cleared(diagonalized(unrotated(gram(interp, weights, p, q), p), p, MAX_SWEEPS as int), p),
        forall|k: int|
            0 <= k < p ==> #[trigger] mass_tables(interp, grad, weights, p, q).lambda[k]
                != T::zero_val(),
    ensures
        mass_tables(interp, grad, weights, p, q).image(dim, cells(p, dim))(
            matrix_product(
                tensor_power(stored(gram(interp, weights, p, q), p), p, dim),
                cells(p, dim),
                u,
            ),
        ) == u,
{
    lemma_field(T::zero_val(), T::zero_val());
    lemma_cells(p, dim);
    let g = mass_tables(interp, grad, weights, p, q);
    let mass = gram(interp, weights, p, q);
    let (v, d, n) = (vectors_of(g), eigenvalues_of(g, dim), cells(p, dim));
    let lambda = eigenvalues_of(g, 1);
    let sweeps = MAX_SWEEPS as int;
    law_eigenvectors_are_orthonormal(mass, p, sweeps);
    let w = stored(eigenvectors(mass, p, sweeps), p);
    assert forall|a: int, b: int| 0 <= a < p && 0 <= b < p implies #[trigger] sum(
        p,
        column_products(v, a, b),
    ) == delta::<T>(a, b) by {
        lemma_sum_ext(p, column_products(v, a, b), column_products(w, a, b));
        assert(sum(p, column_products(w, a, b)) == delta::<T>(a, b));
    }
    let back = |k: int, r: int| w(r, k);
    assert forall|a: int, b: int| 0 <= a < p && 0 <= b < p implies #[trigger] sum(
        p,
        column_products(flipped(v), a, b),
    ) == delta::<T>(a, b) by {
        lemma_sum_ext(p, column_products(flipped(v), a, b), column_products(back, a, b));
        assert(sum(p, column_products(back, a, b)) == delta::<T>(a, b));
    }
    assert forall|t: int| 0 <= t < n implies #[trigger] d(t) != T::zero_val() by {
        if dim == 1 {
            assert(g.lambda[t] != T::zero_val());
        } else if dim == 2 {
            lemma_split(t, p, p);
            assert(g.lambda[t / p] != T::zero_val());
            assert(g.lambda[t % p] != T::zero_val());
            lemma_product_nonzero(g.lambda[t / p], g.lambda[t % p]);
        } else {
            lemma_split(t, p * p, p);
            lemma_split(t / p, p, p);
            assert(g.lambda[t / p / p] != T::zero_val());
            assert(g.lambda[t / p % p] != T::zero_val());
            assert(g.lambda[t % p] != T::zero_val());
            lemma_product_nonzero(g.lambda[t / p / p], g.lambda[t / p % p]);
            lemma_product_nonzero(
                g.lambda[t / p / p].times(g.lambda[t / p % p]),
                g.lambda[t % p],
            );
        }
    }
    law_element_inverse_undoes(g, dim, u);
    // the matrix that is undone
    let one = spectral(v, lambda, p);
    let m = stored(mass, p);
    assert forall|r: int, c: int| 0 <= r < p && 0 <= c < p implies #[trigger] one(r, c) == m(
        r,
        c,
    ) by {
        law_eigenpairs_decompose(mass, p, sweeps, r, c);
        lemma_sum_ext(
            p,
            spectral_terms(v, lambda, r, c),
            eigen_terms(w, eigenvalues(mass, p, sweeps), r, c),
        );
        lemma_gram_symmetric(interp, weights, p, q, r, c);
    }
    let (x, y) = (
        matrix_product(spectral(tensor_power(v, p, dim), d, n), n, u),
        matrix_product(tensor_power(m, p, dim), n, u),
    );
    assert forall|k: int| 0 <= k < n implies #[trigger] x[k] == y[k] by {
        let (a, b) = (
            row_terms(spectral(tensor_power(v, p, dim), d, n), u, k),
            row_terms(tensor_power(m, p, dim), u, k),
        );
        assert forall|j: int| 0 <= j < n implies #[trigger] a(j) == b(j) by {
            law_mass_is_tensor_power(g, dim, k, j);
            lemma_power_agrees(one, m, p, dim, k, j);
        }
        lemma_sum_ext(n, a, b);
    }
    assert(x =~= y);
}

} // verus!
