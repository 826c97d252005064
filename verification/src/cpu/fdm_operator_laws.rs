//! What the tensor-product inverse undoes: the mass and the stiffness operator of a basis.

use vstd::prelude::*;

#[allow(unused_imports)]
use crate::cpu::eigen::{diagonalized, eigenvectors, gram, gram_terms, unrotated};
#[allow(unused_imports)]
use crate::cpu::eigen_laws::{
    cleared, exact_solver, law_eigenvectors_are_orthonormal, stored,
};
#[allow(unused_imports)]
use crate::cpu::fdm_laws::{
    cells, eigenvalues_of, flipped, law_element_inverse_undoes, law_inverse_undoes_mass,
    lemma_cells, lemma_power_agrees, lemma_tensor_spectral, mass_tables, matrix_product, spectral,
    spectral_terms, tensor, tensor_power, vectors_of,
};
#[allow(unused_imports)]
use crate::cpu::fdm_tensor::{
    eigen_data, image_terms, quotient_terms, Diagonalizer, FdmOperatorKind, TensorInverseView,
    MAX_SWEEPS,
};
#[allow(unused_imports)]
use crate::index::{lemma_flat, lemma_split};
#[allow(unused_imports)]
use crate::linear::{
    column_products, combined_terms, delta, lemma_orthonormal_expand, orthonormal_columns,
    row_terms,
};
use crate::scalar::Real;
#[allow(unused_imports)]
use crate::scalar::{
    col_sums, exact_ring, lemma_distribute, lemma_field, lemma_sum_ext, lemma_sum_plus,
    lemma_sum_scale, lemma_sum_single, lemma_sum_swap, lemma_times_assoc, lemma_times_comm,
    lemma_times_one, lemma_times_zero, row_sums, sum,
};

verus! {

// ── matrices of a basis ─────────────────────────────────────────────────────

/// Weighted products of functions `i` and `j` of a table with `p` functions.
pub open spec fn weighted_products<T: Real>(
    b: Seq<T>,
    w: Seq<T>,
    p: int,
    i: int,
    j: int,
) -> spec_fn(int) -> T {
    |t: int| w[t].times(b[t * p + i].times(b[t * p + j]))
}

/// The matrix of integrals of products of the functions of a table. On a table of values it is the
/// mass matrix, on a table of derivatives the stiffness matrix.
pub open spec fn integrals<T: Real>(b: Seq<T>, w: Seq<T>, p: int, q: int) -> spec_fn(
    int,
    int,
) -> T {
    |i: int, j: int| sum(q, weighted_products(b, w, p, i, j))
}

/// A matrix times column `b` of `v`.
pub open spec fn image_of<T: Real>(
    m: spec_fn(int, int) -> T,
    v: spec_fn(int, int) -> T,
    p: int,
    i: int,
    b: int,
) -> T {
    sum(p, |j: int| m(i, j).times(v(j, b)))
}

/// Column `a` of `v` paired with column `b` by a matrix.
pub open spec fn paired<T: Real>(
    m: spec_fn(int, int) -> T,
    v: spec_fn(int, int) -> T,
    p: int,
    a: int,
    b: int,
) -> T {
    sum(p, |i: int| v(i, a).times(image_of(m, v, p, i, b)))
}

/// The sum over the axes of a matrix that acts along one axis and leaves the others alone.
pub open spec fn axis_sum<T: Real>(m: spec_fn(int, int) -> T, p: int, dim: int) -> spec_fn(
    int,
    int,
) -> T {
    if dim == 1 {
        m
    } else if dim == 2 {
        |x: int, y: int|
            m(x / p, y / p).times(delta(x % p, y % p)).plus(
                delta::<T>(x / p, y / p).times(m(x % p, y % p)),
            )
    } else {
        |x: int, y: int|
            {
                let (a, b, c) = (x / p / p, x / p % p, x % p);
                let (d, e, f) = (y / p / p, y / p % p, y % p);
                m(a, d).times(delta(b, e)).plus(delta::<T>(a, d).times(m(b, e))).times(
                    delta(c, f),
                ).plus(delta::<T>(a, d).times(delta(b, e)).times(m(c, f)))
            }
    }
}

/// The stored products of a table are its integrals.
proof fn lemma_gram_is_integrals<T: Real>(b: Seq<T>, w: Seq<T>, p: int, q: int, i: int, j: int)
    requires
        exact_ring::<T>(),
        0 <= i < p,
        0 <= j < p,
    ensures
        gram(b, w, p, q)[i + j * p] == integrals(b, w, p, q)(i, j),
{
    lemma_flat(j, p, i, p);
    let (f, g) = (gram_terms(b, w, p, i, j), weighted_products(b, w, p, i, j));
    assert forall|t: int| 0 <= t < q implies #[trigger] f(t) == g(t) by {
        lemma_times_assoc(w[t], b[t * p + i], b[t * p + j]);
    }
    lemma_sum_ext(q, f, g);
}

// ── mass ────────────────────────────────────────────────────────────────────

/// The inverse of kind mass undoes the mass operator of the basis that it was built from: in one,
/// two or three dimensions it takes the tensor power of the matrix of integrals of products of
/// values, times `u`, back to `u`, once the eigenvalue solver has [`cleared`] that matrix and if
/// no eigenvalue is zero.
pub proof fn law_tensor_inverse_undoes_mass<T: Real>(
    view: TensorInverseView<T>,
    interp: Seq<T>,
    grad: Seq<T>,
    weights: Seq<T>,
    q: int,
    u: Seq<T>,
)
    requires
        exact_solver::<T>(),
        view.op_kind == FdmOperatorKind::Mass,
        view.eigen == eigen_data(interp, grad, weights, view.p as int, q),
        view.p * view.p <= usize::MAX,
        view.has_dim(),
        u.len() == cells(view.p as int, view.dim as int),
        cleared(
            diagonalized(
                unrotated(gram(interp, weights, view.p as int, q), view.p as int),
                view.p as int,
                MAX_SWEEPS as int,
            ),
            view.p as int,
        ),
        forall|k: int| 0 <= k < view.p ==> #[trigger] view.tables().lambda[k] != T::zero_val(),
    ensures
        ({
            let (p, dim) = (view.p as int, view.dim as int);
            view.tables().image(dim, cells(p, dim))(
                matrix_product(
                    tensor_power(integrals(interp, weights, p, q), p, dim),
                    cells(p, dim),
                    u,
                ),
            ) == u
        }),
{
    lemma_field(T::zero_val(), T::zero_val());
    let (p, dim) = (view.p as int, view.dim as int);
    let n = cells(p, dim);
    lemma_cells(p, dim);
    let g = view.tables();
    assert(g == mass_tables(interp, grad, weights, p, q));
    law_inverse_undoes_mass(interp, grad, weights, p, q, dim, u);
    let (a, b) = (stored(gram(interp, weights, p, q), p), integrals(interp, weights, p, q));
    assert forall|r: int, c: int| 0 <= r < p && 0 <= c < p implies #[trigger] a(r, c) == b(
        r,
        c,
    ) by {
        lemma_gram_is_integrals(interp, weights, p, q, r, c);
    }
    let (x, y) = (
        matrix_product(tensor_power(a, p, dim), n, u),
        matrix_product(tensor_power(b, p, dim), n, u),
    );
    assert forall|k: int| 0 <= k < n implies #[trigger] x[k] == y[k] by {
        let (e, f) = (
            row_terms(tensor_power(a, p, dim), u, k),
            row_terms(tensor_power(b, p, dim), u, k),
        );
        assert forall|j: int| 0 <= j < n implies #[trigger] e(j) == f(j) by {
            lemma_power_agrees(a, b, p, dim, k, j);
        }
        lemma_sum_ext(n, e, f);
    }
    assert(x =~= y);
}

// ── stiffness ───────────────────────────────────────────────────────────────

/// Each divisor of the inverse of kind stiffness is the energy of its eigenvector: the vector
/// paired with itself by the matrix of integrals of products of derivatives.
pub proof fn law_stiffness_divisors_are_energies<T: Real>(
    view: TensorInverseView<T>,
    interp: Seq<T>,
    grad: Seq<T>,
    weights: Seq<T>,
    q: int,
    k: int,
)
    requires
        exact_ring::<T>(),
        view.op_kind == FdmOperatorKind::Stiffness,
        view.eigen == eigen_data(interp, grad, weights, view.p as int, q),
        0 <= k < view.p,
    ensures
        view.tables().lambda[k] == paired(
            integrals(grad, weights, view.p as int, q),
            vectors_of(view.tables()),
            view.p as int,
            k,
            k,
        ),
{
    let p = view.p as int;
    let g = view.tables();
    let (m, v) = (integrals(grad, weights, p, q), vectors_of(g));
    let stiff = gram(grad, weights, p, q);
    let f = quotient_terms(stiff, g.vectors, p, k);
    let h = |i: int| v(i, k).times(image_of(m, v, p, i, k));
    assert forall|i: int| 0 <= i < p implies #[trigger] f(i) == h(i) by {
        let (a, b) = (image_terms(stiff, g.vectors, p, i, k), |j: int| m(i, j).times(v(j, k)));
        assert forall|j: int| 0 <= j < p implies #[trigger] a(j) == b(j) by {
            lemma_gram_is_integrals(grad, weights, p, q, i, j);
        }
        lemma_sum_ext(p, a, b);
    }
    lemma_sum_ext(p, f, h);
}

/// The columns of a matrix with orthonormal rows and columns diagonalise another matrix.
pub open spec fn diagonalises<T: Real>(
    v: spec_fn(int, int) -> T,
    m: spec_fn(int, int) -> T,
    p: int,
) -> bool {
    forall|a: int, b: int|
        0 <= a < p && 0 <= b < p && a != b ==> #[trigger] paired(m, v, p, a, b) == T::zero_val()
}

/// A matrix that orthonormal columns diagonalise is made of them and of its pairings.
proof fn lemma_diagonalised<T: Real>(
    v: spec_fn(int, int) -> T,
    m: spec_fn(int, int) -> T,
    d: spec_fn(int) -> T,
    p: int,
    r: int,
    c: int,
)
    requires
        exact_ring::<T>(),
        0 <= r < p,
        0 <= c < p,
        orthonormal_columns(flipped(v), p),
        diagonalises(v, m, p),
        forall|k: int| 0 <= k < p ==> #[trigger] d(k) == paired(m, v, p, k, k),
    ensures
        spectral(v, d, p)(r, c) == m(r, c),
{
    let back = flipped(v);
    let column = |z: int| m(z, c);
    // m(r, c) is the sum over k of v(r, k) times the pairing of column k with column c of m
    lemma_orthonormal_expand(back, p, column, r);
    let (s, h) = (spectral_terms(v, d, r, c), combined_terms(back, p, column, r));
    assert forall|k: int| 0 <= k < p implies #[trigger] s(k) == h(k) by {
        let x = |z: int| v(z, k).times(column(z));
        lemma_sum_ext(p, |z: int| back(k, z).times(column(z)), x);
        // m(z, c) is the sum over l of v(c, l) times entry z of m times column l
        let grid = |z: int, l: int| v(z, k).times(v(c, l).times(image_of(m, v, p, z, l)));
        assert forall|z: int| 0 <= z < p implies #[trigger] x(z) == row_sums(p, grid)(z) by {
            let row = |j: int| m(z, j);
            lemma_orthonormal_expand(back, p, row, c);
            let (e, f) = (
                combined_terms(back, p, row, c),
                |l: int| v(c, l).times(image_of(m, v, p, z, l)),
            );
            assert forall|l: int| 0 <= l < p implies #[trigger] e(l) == f(l) by {
                let (a, b) = (|j: int| back(l, j).times(row(j)), |j: int| m(z, j).times(v(j, l)));
                assert forall|j: int| 0 <= j < p implies #[trigger] a(j) == b(j) by {
                    lemma_times_comm(v(j, l), m(z, j));
                }
                lemma_sum_ext(p, a, b);
            }
            lemma_sum_ext(p, e, f);
            lemma_sum_scale(p, v(z, k), f, |l: int| grid(z, l));
        }
        lemma_sum_ext(p, x, row_sums(p, grid));
        lemma_sum_swap(p, p, grid);
        let cols = col_sums(p, grid);
        assert forall|l: int| 0 <= l < p implies #[trigger] cols(l) == v(c, l).times(
            paired(m, v, p, k, l),
        ) by {
            let (a, b) = (
                |z: int| v(z, k).times(image_of(m, v, p, z, l)),
                |z: int| grid(z, l),
            );
            assert forall|z: int| 0 <= z < p implies #[trigger] b(z) == v(c, l).times(a(z)) by {
                let y = image_of(m, v, p, z, l);
                lemma_times_assoc(v(z, k), v(c, l), y);
                lemma_times_comm(v(z, k), v(c, l));
                lemma_times_assoc(v(c, l), v(z, k), y);
            }
            lemma_sum_scale(p, v(c, l), a, b);
        }
        assert forall|l: int| 0 <= l < p && l != k implies #[trigger] cols(l) == T::zero_val() by {
            assert(paired(m, v, p, k, l) == T::zero_val());
            lemma_times_zero(v(c, l));
        }
        lemma_sum_single(p, k, cols);
        lemma_times_comm(v(c, k), d(k));
    }
    lemma_sum_ext(p, s, h);
}

/// Orthonormal rows make up the identity.
proof fn lemma_identity<T: Real>(
    v: spec_fn(int, int) -> T,
    one: spec_fn(int) -> T,
    p: int,
    r: int,
    c: int,
)
    requires
        exact_ring::<T>(),
        0 <= r < p,
        0 <= c < p,
        orthonormal_columns(flipped(v), p),
        forall|k: int| 0 <= k < p ==> #[trigger] one(k) == T::one_val(),
    ensures
        spectral(v, one, p)(r, c) == delta::<T>(r, c),
{
    let (s, h) = (spectral_terms(v, one, r, c), column_products(flipped(v), r, c));
    assert forall|k: int| 0 <= k < p implies #[trigger] s(k) == h(k) by {
        assert(one(k) == T::one_val());
        lemma_times_one(v(c, k));
    }
    lemma_sum_ext(p, s, h);
    assert(sum(p, h) == delta::<T>(r, c));
}

/// A tensor product with sums of eigenvalues is a sum of two tensor products.
proof fn lemma_sum_spectral<T: Real>(
    a: spec_fn(int, int) -> T,
    da: spec_fn(int) -> T,
    n: int,
    b: spec_fn(int, int) -> T,
    db: spec_fn(int) -> T,
    p: int,
    d: spec_fn(int) -> T,
    x: int,
    y: int,
)
    requires
        exact_ring::<T>(),
        0 <= n,
        0 <= p,
        forall|t: int| 0 <= t < n * p ==> #[trigger] d(t) == da(t / p).plus(db(t % p)),
    ensures
        spectral(tensor(a, b, p), d, n * p)(x, y) == tensor(
            spectral(a, da, n),
            spectral(b, |t: int| T::one_val(), p),
            p,
        )(x, y).plus(
            tensor(spectral(a, |t: int| T::one_val(), n), spectral(b, db, p), p)(x, y),
        ),
{
    let one = |t: int| T::one_val();
    let ab = tensor(a, b, p);
    let (d1, d2) = (|t: int| da(t / p), |t: int| db(t % p));
    assert forall|t: int| 0 <= t < n * p implies #[trigger] d1(t) == da(t / p).times(
        one(t % p),
    ) by {
        lemma_times_one(da(t / p));
    }
    assert forall|t: int| 0 <= t < n * p implies #[trigger] d2(t) == one(t / p).times(
        db(t % p),
    ) by {
        lemma_times_one(db(t % p));
    }
    lemma_tensor_spectral(a, da, n, b, one, p, d1, x, y);
    lemma_tensor_spectral(a, one, n, b, db, p, d2, x, y);
    let (s, f, g) = (
        spectral_terms(ab, d, x, y),
        spectral_terms(ab, d1, x, y),
        spectral_terms(ab, d2, x, y),
    );
    assert forall|t: int| 0 <= t < n * p implies #[trigger] s(t) == f(t).plus(g(t)) by {
        let (e, z) = (ab(x, t), ab(y, t));
        assert(d(t) == d1(t).plus(d2(t)));
        lemma_distribute(z, d1(t), d2(t));
        lemma_times_comm(z, d(t));
        lemma_times_comm(z, d1(t));
        lemma_times_comm(z, d2(t));
        lemma_distribute(e, d1(t).times(z), d2(t).times(z));
    }
    lemma_sum_plus(n * p, f, g, s);
}

/// On stiffness data the matrix that is undone is the sum over the axes.
proof fn lemma_stiffness_is_axis_sum<T: Real>(
    g: Diagonalizer<T>,
    m: spec_fn(int, int) -> T,
    dim: int,
    x: int,
    y: int,
)
    requires
        exact_ring::<T>(),
        g.valid(),
        g.kind == FdmOperatorKind::Stiffness,
        1 <= dim <= 3,
        orthonormal_columns(flipped(vectors_of(g)), g.p),
        diagonalises(vectors_of(g), m, g.p),
        forall|k: int|
            0 <= k < g.p ==> #[trigger] g.lambda[k] == paired(m, vectors_of(g), g.p, k, k),
        0 <= x < g.cells(dim),
        0 <= y < g.cells(dim),
    ensures
        spectral(tensor_power(vectors_of(g), g.p, dim), eigenvalues_of(g, dim), g.cells(dim))(
            x,
            y,
        ) == axis_sum(m, g.p, dim)(x, y),
{
    let (p, v) = (g.p, vectors_of(g));
    let (d1, d2, d3) = (eigenvalues_of(g, 1), eigenvalues_of(g, 2), eigenvalues_of(g, 3));
    let one = |t: int| T::one_val();
    lemma_cells(p, dim);
    assert forall|k: int| 0 <= k < p implies #[trigger] d1(k) == paired(m, v, p, k, k) by {
        assert(g.lambda[k] == paired(m, v, p, k, k));
    }
    if dim == 1 {
        lemma_diagonalised(v, m, d1, p, x, y);
    } else if dim == 2 {
        lemma_split(x, p, p);
        lemma_split(y, p, p);
        lemma_sum_spectral(v, d1, p, v, d1, p, d2, x, y);
        lemma_diagonalised(v, m, d1, p, x / p, y / p);
        lemma_diagonalised(v, m, d1, p, x % p, y % p);
        lemma_identity(v, one, p, x / p, y / p);
        lemma_identity(v, one, p, x % p, y % p);
    } else {
        let (i, j) = (x / p, y / p);
        lemma_split(x, p * p, p);
        lemma_split(y, p * p, p);
        lemma_split(i, p, p);
        lemma_split(j, p, p);
        let vv = tensor(v, v, p);
        lemma_sum_spectral(vv, d2, p * p, v, d1, p, d3, x, y);
        lemma_diagonalised(v, m, d1, p, x % p, y % p);
        lemma_identity(v, one, p, x % p, y % p);
        lemma_sum_spectral(v, d1, p, v, d1, p, d2, i, j);
        lemma_diagonalised(v, m, d1, p, i / p, j / p);
        lemma_diagonalised(v, m, d1, p, i % p, j % p);
        lemma_identity(v, one, p, i / p, j / p);
        lemma_identity(v, one, p, i % p, j % p);
        lemma_times_one(T::one_val());
        lemma_tensor_spectral(v, one, p, v, one, p, one, i, j);
    }
}

/// The inverse of kind stiffness undoes the stiffness operator of the basis that it was built
/// from: in one, two or three dimensions it takes the sum over the axes of the matrix of integrals
/// of products of derivatives, times `u`, back to `u`, if the eigenvectors of the mass matrix
/// diagonalise that matrix too and no divisor is zero.
pub proof fn law_tensor_inverse_undoes_stiffness<T: Real>(
    view: TensorInverseView<T>,
    interp: Seq<T>,
    grad: Seq<T>,
    weights: Seq<T>,
    q: int,
    u: Seq<T>,
)
    requires
        exact_solver::<T>(),
        view.op_kind == FdmOperatorKind::Stiffness,
        view.eigen == eigen_data(interp, grad, weights, view.p as int, q),
        view.p * view.p <= usize::MAX,
        view.has_dim(),
        u.len() == cells(view.p as int, view.dim as int),
        diagonalises(
            vectors_of(view.tables()),
            integrals(grad, weights, view.p as int, q),
            view.p as int,
        ),
        forall|t: int|
            0 <= t < cells(view.p as int, view.dim as int) ==> #[trigger] eigenvalues_of(
                view.tables(),
                view.dim as int,
            )(t) != T::zero_val(),
    ensures
        ({
            let (p, dim) = (view.p as int, view.dim as int);
            view.tables().image(dim, cells(p, dim))(
                matrix_product(
                    axis_sum(integrals(grad, weights, p, q), p, dim),
                    cells(p, dim),
                    u,
                ),
            ) == u
        }),
{
    lemma_field(T::zero_val(), T::zero_val());
    let (p, dim) = (view.p as int, view.dim as int);
    let n = cells(p, dim);
    lemma_cells(p, dim);
    let g = view.tables();
    let (v, d) = (vectors_of(g), eigenvalues_of(g, dim));
    let m = integrals(grad, weights, p, q);
    let mass = gram(interp, weights, p, q);
    let sweeps = MAX_SWEEPS as int;
    law_eigenvectors_are_orthonormal(mass, p, sweeps);
    let w = stored(eigenvectors(mass, p, sweeps), p);
    assert forall|a: int, b: int| 0 <= a < p && 0 <= b < p implies #[trigger] sum(
        p,
        column_products(v, a, b),
    ) == delta::<T>(a, b) by {
        lemma_sum_ext(p, column_products(v, a, b), column_products(w, a, b));
        assert(sum(p, column_products(w, a, b)) == delta::<T>(a, b));
    }
    let back = |k: int, r: int| w(r, k);
    assert forall|a: int, b: int| 0 <= a < p && 0 <= b < p implies #[trigger] sum(
        p,
        column_products(flipped(v), a, b),
    ) == delta::<T>(a, b) by {
        lemma_sum_ext(p, column_products(flipped(v), a, b), column_products(back, a, b));
        assert(sum(p, column_products(back, a, b)) == delta::<T>(a, b));
    }
    assert forall|k: int| 0 <= k < p implies #[trigger] g.lambda[k] == paired(m, v, p, k, k) by {
        law_stiffness_divisors_are_energies(view, interp, grad, weights, q, k);
    }
    law_element_inverse_undoes(g, dim, u);
    let (a, b) = (spectral(tensor_power(v, p, dim), d, n), axis_sum(m, p, dim));
    let (x, y) = (matrix_product(a, n, u), matrix_product(b, n, u));
    assert forall|k: int| 0 <= k < n implies #[trigger] x[k] == y[k] by {
        let (e, f) = (row_terms(a, u, k), row_terms(b, u, k));
        assert forall|j: int| 0 <= j < n implies #[trigger] e(j) == f(j) by {
            lemma_stiffness_is_axis_sum(g, m, dim, k, j);
        }
        lemma_sum_ext(n, e, f);
    }
    assert(x =~= y);
}

} // verus!
