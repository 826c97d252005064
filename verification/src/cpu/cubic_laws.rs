//! Laws of the cubic shape functions on triangles and tetrahedra in exact arithmetic.

use vstd::prelude::*;

#[allow(unused_imports)]
use crate::cpu::simplex_shapes::{
    small_power, tet_monomials, tet_p3_slopes, tet_p3_terms, tet_p3_values, tri_monomials,
    tri_monomials_dx, tri_monomials_dy, tri_p3_slopes, tri_p3_terms, tri_p3_values, TET_P3,
    TET_P3_EXP, TRI_P3,
};
#[allow(unused_imports)]
use crate::exact::{
    exact_integers, lemma_int_nonzero, lemma_int_times, lemma_int_units, lemma_quotient,
    lemma_ratio_plus, lemma_ratio_whole, lemma_recip_product, lemma_times_cross, recip,
};
use crate::scalar::Real;
#[allow(unused_imports)]
use crate::scalar::{
    col_sums, exact_field, lemma_over, lemma_sum_ext, lemma_sum_scale, lemma_sum_single,
    lemma_sum_swap, lemma_times_assoc, lemma_times_comm, lemma_times_one, lemma_times_zero,
    ratio_val, row_sums, sum,
};

verus! {

// ── integer tables ──────────────────────────────────────────────────────────

/// The sum of the first `n` integers of a list.
pub open spec fn int_sum(n: int, f: spec_fn(int) -> int) -> int
    decreases n,
{
    if n <= 0 {
        0
    } else {
        int_sum(n - 1, f) + f(n - 1)
    }
}

/// Products of quotients of integers.
proof fn lemma_ratio_times<R: Real>(a: int, d: int, b: int, e: int)
    requires
        exact_field::<R>(),
        exact_integers::<R>(),
        d != 0,
        e != 0,
    ensures
        ratio_val::<R>(a, d).times(ratio_val::<R>(b, e)) == ratio_val::<R>(a * b, d * e),
{
    let (na, nd, nb, ne) = (
        R::int_val(a),
        R::int_val(d),
        R::int_val(b),
        R::int_val(e),
    );
    lemma_int_nonzero::<R>(d);
    lemma_int_nonzero::<R>(e);
    lemma_quotient(na, nd);
    lemma_quotient(nb, ne);
    lemma_int_times::<R>(a, b);
    lemma_int_times::<R>(d, e);
    lemma_quotient(R::int_val(a * b), R::int_val(d * e));
    lemma_recip_product(nd, ne);
    lemma_times_cross(na, recip(nd), nb, recip(ne));
}

/// Sums of products of quotients.
proof fn lemma_ratio_sum<R: Real>(
    n: int,
    c: spec_fn(int) -> int,
    d: int,
    v: spec_fn(int) -> int,
    e: int,
)
    requires
        exact_field::<R>(),
        exact_integers::<R>(),
        d != 0,
        e != 0,
    ensures
        sum(n, |k: int| ratio_val::<R>(c(k), d).times(ratio_val::<R>(v(k), e))) == ratio_val::<R>(
            int_sum(n, |k: int| c(k) * v(k)),
            d * e,
        ),
    decreases n,
{
    let f = |k: int| ratio_val::<R>(c(k), d).times(ratio_val::<R>(v(k), e));
    let g = |k: int| c(k) * v(k);
    if n <= 0 {
        assert(0 * (d * e) == 0);
        assert(d * e != 0) by (nonlinear_arith)
            requires
                d != 0,
                e != 0,
        ;
        lemma_ratio_whole::<R>(0, d * e);
        lemma_int_units::<R>();
    } else {
        lemma_ratio_sum::<R>(n - 1, c, d, v, e);
        lemma_ratio_times::<R>(c(n - 1), d, v(n - 1), e);
        lemma_ratio_plus::<R>(int_sum(n - 1, g), g(n - 1), d * e);
        assert(sum(n, f) == sum(n - 1, f).plus(f(n - 1)));
    }
}

/// Functions `k` that combine the values `m` with halves of the integers in column `k` of a table.
pub open spec fn table_values<R: Real>(
    rows: int,
    c: spec_fn(int, int) -> int,
    m: Seq<R>,
    k: int,
) -> R {
    sum(rows, |j: int| ratio_val::<R>(c(j, k), 2).times(m[j]))
}

/// Products of row `j` of a table with the integers `v`.
pub open spec fn row_products(c: spec_fn(int, int) -> int, v: spec_fn(int) -> int, j: int) -> spec_fn(
    int,
) -> int {
    |k: int| c(j, k) * v(k)
}

/// Where the table undoes the values `v(k) / e`, combining the functions with them gives value
/// `t` back.
proof fn lemma_table<R: Real>(
    rows: int,
    cols: int,
    c: spec_fn(int, int) -> int,
    m: Seq<R>,
    v: spec_fn(int) -> int,
    e: int,
    t: int,
)
    requires
        exact_field::<R>(),
        exact_integers::<R>(),
        e != 0,
        0 <= t < rows,
        forall|j: int|
            0 <= j < rows ==> int_sum(cols, #[trigger] row_products(c, v, j)) == if j == t {
                2 * e
            } else {
                0
            },
    ensures
        sum(cols, |k: int| table_values(rows, c, m, k).times(ratio_val::<R>(v(k), e))) == m[t],
{
    lemma_over(R::one_val(), R::one_val());
    let f = |k: int, j: int|
        ratio_val::<R>(v(k), e).times(ratio_val::<R>(c(j, k), 2).times(m[j]));
    let (a, b) = (
        |k: int| table_values(rows, c, m, k).times(ratio_val::<R>(v(k), e)),
        row_sums(rows, f),
    );
    assert forall|k: int| 0 <= k < cols implies #[trigger] a(k) == b(k) by {
        let r = ratio_val::<R>(v(k), e);
        let (g, h) = (|j: int| ratio_val::<R>(c(j, k), 2).times(m[j]), |j: int| f(k, j));
        assert forall|j: int| 0 <= j < rows implies #[trigger] h(j) == r.times(g(j)) by {}
        lemma_sum_scale(rows, r, g, h);
        lemma_times_comm(r, sum(rows, g));
    }
    lemma_sum_ext(cols, a, b);
    lemma_sum_swap(cols, rows, f);
    let w = col_sums(cols, f);
    assert forall|j: int| 0 <= j < rows implies #[trigger] w(j) == m[j].times(
        if j == t {
            R::one_val()
        } else {
            R::zero_val()
        },
    ) by {
        let (g, h) = (
            |k: int| ratio_val::<R>(c(j, k), 2).times(ratio_val::<R>(v(k), e)),
            |k: int| f(k, j),
        );
        assert forall|k: int| 0 <= k < cols implies #[trigger] h(k) == m[j].times(g(k)) by {
            let (p, q) = (ratio_val::<R>(v(k), e), ratio_val::<R>(c(j, k), 2));
            lemma_times_assoc(p, q, m[j]);
            lemma_times_comm(p, q);
            lemma_times_comm(q.times(p), m[j]);
        }
        lemma_sum_scale(cols, m[j], g, h);
        let col = |k: int| c(j, k);
        lemma_ratio_sum::<R>(cols, col, 2, v, e);
        lemma_sum_ext(
            cols,
            g,
            |k: int| ratio_val::<R>(col(k), 2).times(ratio_val::<R>(v(k), e)),
        );
        assert((|k: int| col(k) * v(k)) =~= row_products(c, v, j));
        lemma_int_units::<R>();
        if j == t {
            lemma_ratio_whole::<R>(1, 2 * e);
        } else {
            assert(0 * (2 * e) == 0);
            lemma_ratio_whole::<R>(0, 2 * e);
        }
    }
    assert forall|j: int| 0 <= j < rows && j != t implies #[trigger] w(j) == R::zero_val() by {
        lemma_times_zero(m[j]);
    }
    lemma_sum_single(rows, t, w);
    lemma_times_one(m[t]);
}

// ── triangle ────────────────────────────────────────────────────────────────

/// Three times the first coordinate of node `k` of the cubic triangle.
pub open spec fn tri_node_x(k: int) -> int {
    if k == 1 {
        3
    } else if k == 4 || k == 5 {
        2
    } else if k == 3 || k == 6 || k == 9 {
        1
    } else {
        0
    }
}

/// Three times the second coordinate of node `k` of the cubic triangle.
pub open spec fn tri_node_y(k: int) -> int {
    if k == 2 {
        3
    } else if k == 6 || k == 8 {
        2
    } else if k == 5 || k == 7 || k == 9 {
        1
    } else {
        0
    }
}

/// The plane monomial `j` of two integers.
pub open spec fn tri_power(a: int, b: int, j: int) -> int {
    if j == 0 {
        1
    } else if j == 1 {
        a
    } else if j == 2 {
        b
    } else if j == 3 {
        a * a
    } else if j == 4 {
        a * b
    } else if j == 5 {
        b * b
    } else if j == 6 {
        a * a * a
    } else if j == 7 {
        a * a * b
    } else if j == 8 {
        a * (b * b)
    } else {
        b * b * b
    }
}

/// Three to the degree of the plane monomial `j`.
pub open spec fn tri_scale(j: int) -> int {
    if j == 0 {
        1
    } else if j < 3 {
        3
    } else if j < 6 {
        9
    } else {
        27
    }
}

/// Twice the coefficients on the triangle.
pub open spec fn tri_table() -> spec_fn(int, int) -> int {
    |j: int, k: int| TRI_P3[j][k] as int
}

/// The monomial `t` at three times the nodes.
pub open spec fn tri_samples(t: int) -> spec_fn(int) -> int {
    |k: int| tri_power(tri_node_x(k), tri_node_y(k), t)
}

/// The first `rows` rows of the table pick the monomial `t` out of the samples.
spec fn tri_picks(t: int, rows: int) -> bool
    decreases rows,
{
    rows <= 0 || (tri_picks(t, rows - 1) && int_sum(
        10,
        row_products(tri_table(), tri_samples(t), rows - 1),
    ) == if rows - 1 == t {
        2 * tri_scale(t)
    } else {
        0
    })
}

#[verifier::rlimit(100)]
#[verifier::spinoff_prover]
proof fn lemma_tri_picks(t: int)
    requires
        0 <= t < 10,
    ensures
        tri_picks(t, 10),
{
    reveal_with_fuel(int_sum, 11);
    reveal_with_fuel(tri_picks, 11);
    assert(tri_picks(0, 10));
    assert(tri_picks(1, 10));
    assert(tri_picks(2, 10));
    assert(tri_picks(3, 10));
    assert(tri_picks(4, 10));
    assert(tri_picks(5, 10));
    assert(tri_picks(6, 10));
    assert(tri_picks(7, 10));
    assert(tri_picks(8, 10));
    assert(tri_picks(9, 10));
}

proof fn lemma_tri_pick(t: int, rows: int, j: int)
    requires
        tri_picks(t, rows),
        0 <= j < rows,
    ensures
        int_sum(10, row_products(tri_table(), tri_samples(t), j)) == if j == t {
            2 * tri_scale(t)
        } else {
            0
        },
    decreases rows,
{
    if j < rows - 1 {
        lemma_tri_pick(t, rows - 1, j);
    }
}

/// The monomials of thirds.
proof fn lemma_tri_thirds<R: Real>(a: int, b: int, t: int)
    requires
        exact_field::<R>(),
        exact_integers::<R>(),
        0 <= t < 10,
    ensures
        tri_monomials(ratio_val::<R>(a, 3), ratio_val::<R>(b, 3))[t] == ratio_val::<R>(
            tri_power(a, b, t),
            tri_scale(t),
        ),
{
    lemma_int_units::<R>();
    lemma_quotient(R::one_val(), R::one_val());
    lemma_over(R::one_val(), R::one_val());
    assert(1 * 1 == 1);
    lemma_ratio_whole::<R>(1, 1);
    lemma_ratio_times::<R>(a, 3, a, 3);
    lemma_ratio_times::<R>(a, 3, b, 3);
    lemma_ratio_times::<R>(b, 3, b, 3);
    lemma_ratio_times::<R>(a * a, 9, a, 3);
    lemma_ratio_times::<R>(a * a, 9, b, 3);
    lemma_ratio_times::<R>(a, 3, b * b, 9);
    lemma_ratio_times::<R>(b * b, 9, b, 3);
}

/// A cubic shape function on the triangle, or its derivative, times the monomial `t` at its node.
pub open spec fn tri_samples_of<R: Real>(values: spec_fn(int) -> R, t: int) -> spec_fn(int) -> R {
    |k: int|
        values(k).times(
            tri_monomials(ratio_val::<R>(tri_node_x(k), 3), ratio_val::<R>(tri_node_y(k), 3))[t],
        )
}

proof fn lemma_tri_reproduces<R: Real>(values: spec_fn(int) -> R, m: Seq<R>, t: int)
    requires
        exact_field::<R>(),
        exact_integers::<R>(),
        0 <= t < 10,
        forall|k: int| 0 <= k < 10 ==> #[trigger] values(k) == sum(10, tri_p3_terms(m, k)),
    ensures
        sum(10, tri_samples_of(values, t)) == m[t],
{
    let (c, v, e) = (tri_table(), tri_samples(t), tri_scale(t));
    lemma_tri_picks(t);
    assert forall|j: int| 0 <= j < 10 implies int_sum(10, #[trigger] row_products(c, v, j))
        == if j == t {
        2 * e
    } else {
        0
    } by {
        lemma_tri_pick(t, 10, j);
    }
    lemma_table(10, 10, c, m, v, e, t);
    let (f, g) = (
        tri_samples_of(values, t),
        |k: int| table_values(10, c, m, k).times(ratio_val::<R>(v(k), e)),
    );
    assert forall|k: int| 0 <= k < 10 implies #[trigger] f(k) == g(k) by {
        lemma_tri_thirds::<R>(tri_node_x(k), tri_node_y(k), t);
        lemma_sum_ext(
            10,
            tri_p3_terms(m, k),
            |j: int| ratio_val::<R>(c(j, k), 2).times(m[j]),
        );
    }
    lemma_sum_ext(10, f, g);
}

/// The cubic shape functions on the triangle reproduce every monomial up to degree three from its
/// values at the nodes, and their gradients reproduce its gradient. On the constant this says
/// that they add up to one.
pub proof fn law_cubic_triangle_reproduces<R: Real>(x: R, y: R, t: int)
    requires
        exact_field::<R>(),
        exact_integers::<R>(),
        0 <= t < 10,
    ensures
        sum(10, tri_samples_of(|k: int| tri_p3_values(x, y)[k], t)) == tri_monomials(x, y)[t],
        sum(10, tri_samples_of(|k: int| tri_p3_slopes(x, y)[2 * k], t)) == tri_monomials_dx(
            x,
            y,
        )[t],
        sum(10, tri_samples_of(|k: int| tri_p3_slopes(x, y)[2 * k + 1], t)) == tri_monomials_dy(
            x,
            y,
        )[t],
{
    lemma_tri_reproduces(|k: int| tri_p3_values(x, y)[k], tri_monomials(x, y), t);
    lemma_tri_reproduces(|k: int| tri_p3_slopes(x, y)[2 * k], tri_monomials_dx(x, y), t);
    lemma_tri_reproduces(|k: int| tri_p3_slopes(x, y)[2 * k + 1], tri_monomials_dy(x, y), t);
}

// ── tetrahedron ─────────────────────────────────────────────────────────────

/// Three times the barycentric coordinates of node `k` of the cubic tetrahedron.
pub open spec fn tet_node(k: int) -> (int, int, int) {
    if k == 0 {
        (0, 0, 3)
    } else if k == 1 {
        (0, 1, 2)
    } else if k == 2 {
        (0, 2, 1)
    } else if k == 3 {
        (0, 3, 0)
    } else if k == 4 {
        (1, 0, 2)
    } else if k == 5 {
        (1, 1, 1)
    } else if k == 6 {
        (1, 2, 0)
    } else if k == 7 {
        (2, 0, 1)
    } else if k == 8 {
        (2, 1, 0)
    } else if k == 9 {
        (3, 0, 0)
    } else if k == 10 {
        (0, 0, 2)
    } else if k == 11 {
        (0, 1, 1)
    } else if k == 12 {
        (0, 2, 0)
    } else if k == 13 {
        (1, 0, 1)
    } else if k == 14 {
        (1, 1, 0)
    } else if k == 15 {
        (2, 0, 0)
    } else if k == 16 {
        (0, 0, 1)
    } else if k == 17 {
        (0, 1, 0)
    } else if k == 18 {
        (1, 0, 0)
    } else {
        (0, 0, 0)
    }
}

/// The space monomial `t` of three integers.
pub open spec fn tet_power(a: int, b: int, c: int, t: int) -> int {
    if t == 0 {
        1
    } else if t == 1 {
        a
    } else if t == 2 {
        b
    } else if t == 3 {
        c
    } else if t == 4 {
        a * a
    } else if t == 5 {
        a * b
    } else if t == 6 {
        a * c
    } else if t == 7 {
        b * b
    } else if t == 8 {
        b * c
    } else if t == 9 {
        c * c
    } else if t == 10 {
        a * a * a
    } else if t == 11 {
        a * a * b
    } else if t == 12 {
        a * a * c
    } else if t == 13 {
        a * b * b
    } else if t == 14 {
        a * b * c
    } else if t == 15 {
        a * c * c
    } else if t == 16 {
        b * b * b
    } else if t == 17 {
        b * b * c
    } else if t == 18 {
        b * c * c
    } else {
        c * c * c
    }
}

/// Three to the degree of the space monomial `t`.
pub open spec fn tet_scale(t: int) -> int {
    if t == 0 {
        1
    } else if t < 4 {
        3
    } else if t < 10 {
        9
    } else {
        27
    }
}

/// Twice the coefficients on the tetrahedron.
pub open spec fn tet_table() -> spec_fn(int, int) -> int {
    |j: int, k: int| TET_P3[j][k] as int
}

/// The monomials at three times the nodes, one monomial per row.
pub const TET_SAMPLES: [[i64; 20]; 20] = [
    [1, 1, 1, 1, 1, 1, 1, 1, 1, 1, 1, 1, 1, 1, 1, 1, 1, 1, 1, 1],
    [0, 0, 0, 0, 1, 1, 1, 2, 2, 3, 0, 0, 0, 1, 1, 2, 0, 0, 1, 0],
    [0, 1, 2, 3, 0, 1, 2, 0, 1, 0, 0, 1, 2, 0, 1, 0, 0, 1, 0, 0],
    [3, 2, 1, 0, 2, 1, 0, 1, 0, 0, 2, 1, 0, 1, 0, 0, 1, 0, 0, 0],
    [0, 0, 0, 0, 1, 1, 1, 4, 4, 9, 0, 0, 0, 1, 1, 4, 0, 0, 1, 0],
    [0, 0, 0, 0, 0, 1, 2, 0, 2, 0, 0, 0, 0, 0, 1, 0, 0, 0, 0, 0],
    [0, 0, 0, 0, 2, 1, 0, 2, 0, 0, 0, 0, 0, 1, 0, 0, 0, 0, 0, 0],
    [0, 1, 4, 9, 0, 1, 4, 0, 1, 0, 0, 1, 4, 0, 1, 0, 0, 1, 0, 0],
    [0, 2, 2, 0, 0, 1, 0, 0, 0, 0, 0, 1, 0, 0, 0, 0, 0, 0, 0, 0],
    [9, 4, 1, 0, 4, 1, 0, 1, 0, 0, 4, 1, 0, 1, 0, 0, 1, 0, 0, 0],
    [0, 0, 0, 0, 1, 1, 1, 8, 8, 27, 0, 0, 0, 1, 1, 8, 0, 0, 1, 0],
    [0, 0, 0, 0, 0, 1, 2, 0, 4, 0, 0, 0, 0, 0, 1, 0, 0, 0, 0, 0],
    [0, 0, 0, 0, 2, 1, 0, 4, 0, 0, 0, 0, 0, 1, 0, 0, 0, 0, 0, 0],
    [0, 0, 0, 0, 0, 1, 4, 0, 2, 0, 0, 0, 0, 0, 1, 0, 0, 0, 0, 0],
    [0, 0, 0, 0, 0, 1, 0, 0, 0, 0, 0, 0, 0, 0, 0, 0, 0, 0, 0, 0],
    [0, 0, 0, 0, 4, 1, 0, 2, 0, 0, 0, 0, 0, 1, 0, 0, 0, 0, 0, 0],
    [0, 1, 8, 27, 0, 1, 8, 0, 1, 0, 0, 1, 8, 0, 1, 0, 0, 1, 0, 0],
    [0, 2, 4, 0, 0, 1, 0, 0, 0, 0, 0, 1, 0, 0, 0, 0, 0, 0, 0, 0],
    [0, 4, 2, 0, 0, 1, 0, 0, 0, 0, 0, 1, 0, 0, 0, 0, 0, 0, 0, 0],
    [27, 8, 1, 0, 8, 1, 0, 1, 0, 0, 8, 1, 0, 1, 0, 0, 1, 0, 0, 0],
];

/// The monomial `t` at three times the nodes.
pub open spec fn tet_samples(t: int) -> spec_fn(int) -> int {
    |k: int| TET_SAMPLES[t][k] as int
}

/// `a * b`, spelled out for the values that samples take.
spec fn scaled(a: int, b: int) -> int {
    if b == 0 {
        0
    } else if b == 1 {
        a
    } else if b == 2 {
        2 * a
    } else if b == 3 {
        3 * a
    } else if b == 4 {
        4 * a
    } else if b == 8 {
        8 * a
    } else if b == 9 {
        9 * a
    } else if b == 27 {
        27 * a
    } else {
        a * b
    }
}

/// Products of row `j` of the table with the samples, spelled out.
spec fn tet_products(t: int, j: int) -> spec_fn(int) -> int {
    |k: int| scaled(TET_P3[j][k] as int, TET_SAMPLES[t][k] as int)
}

/// The products are products.
proof fn lemma_tet_products(n: int, t: int, j: int)
    ensures
        int_sum(n, tet_products(t, j)) == int_sum(
            n,
            row_products(tet_table(), tet_samples(t), j),
        ),
    decreases n,
{
    if n > 0 {
        lemma_tet_products(n - 1, t, j);
        let (a, b) = (TET_P3[j][n - 1] as int, TET_SAMPLES[t][n - 1] as int);
        assert(scaled(a, b) == a * b) by (nonlinear_arith);
    }
}

/// The first `rows` rows of the table pick the monomial `t` out of the samples.
spec fn tet_picks(t: int, rows: int) -> bool
    decreases rows,
{
    rows <= 0 || (tet_picks(t, rows - 1) && int_sum(20, tet_products(t, rows - 1)) == if rows - 1 == t {
        2 * tet_scale(t)
    } else {
        0
    })
}

#[verifier::rlimit(100)]
#[verifier::spinoff_prover]
proof fn lemma_tet_picks_0(t: int)
    requires
        0 <= t < 5,
    ensures
        tet_picks(t, 20),
{
    reveal_with_fuel(int_sum, 21);
    reveal_with_fuel(tet_picks, 21);
    assert(tet_picks(0, 20));
    assert(tet_picks(1, 20));
    assert(tet_picks(2, 20));
    assert(tet_picks(3, 20));
    assert(tet_picks(4, 20));
}

#[verifier::rlimit(100)]
#[verifier::spinoff_prover]
proof fn lemma_tet_picks_5(t: int)
    requires
        5 <= t < 10,
    ensures
        tet_picks(t, 20),
{
    reveal_with_fuel(int_sum, 21);
    reveal_with_fuel(tet_picks, 21);
    assert(tet_picks(5, 20));
    assert(tet_picks(6, 20));
    assert(tet_picks(7, 20));
    assert(tet_picks(8, 20));
    assert(tet_picks(9, 20));
}

#[verifier::rlimit(100)]
#[verifier::spinoff_prover]
proof fn lemma_tet_picks_10(t: int)
    requires
        10 <= t < 15,
    ensures
        tet_picks(t, 20),
{
    reveal_with_fuel(int_sum, 21);
    reveal_with_fuel(tet_picks, 21);
    assert(tet_picks(10, 20));
    assert(tet_picks(11, 20));
    assert(tet_picks(12, 20));
    assert(tet_picks(13, 20));
    assert(tet_picks(14, 20));
}

#[verifier::rlimit(100)]
#[verifier::spinoff_prover]
proof fn lemma_tet_picks_15(t: int)
    requires
        15 <= t < 20,
    ensures
        tet_picks(t, 20),
{
    reveal_with_fuel(int_sum, 21);
    reveal_with_fuel(tet_picks, 21);
    assert(tet_picks(15, 20));
    assert(tet_picks(16, 20));
    assert(tet_picks(17, 20));
    assert(tet_picks(18, 20));
    assert(tet_picks(19, 20));
}

proof fn lemma_tet_picks(t: int)
    requires
        0 <= t < 20,
    ensures
        tet_picks(t, 20),
{
    if t < 5 {
        lemma_tet_picks_0(t);
    } else if t < 10 {
        lemma_tet_picks_5(t);
    } else if t < 15 {
        lemma_tet_picks_10(t);
    } else {
        lemma_tet_picks_15(t);
    }
}

proof fn lemma_tet_pick(t: int, rows: int, j: int)
    requires
        tet_picks(t, rows),
        0 <= j < rows,
    ensures
        int_sum(20, row_products(tet_table(), tet_samples(t), j)) == if j == t {
            2 * tet_scale(t)
        } else {
            0
        },
    decreases rows,
{
    if j < rows - 1 {
        lemma_tet_pick(t, rows - 1, j);
    } else {
        lemma_tet_products(20, t, j);
    }
}

/// The samples are the monomials at three times the nodes.
#[verifier::rlimit(100)]
#[verifier::spinoff_prover]
proof fn lemma_tet_samples(k: int, t: int)
    requires
        0 <= k < 20,
        0 <= t < 20,
    ensures
        TET_SAMPLES[t][k] as int == tet_power(tet_node(k).0, tet_node(k).1, tet_node(k).2, t),
{
    assert(TET_SAMPLES[t][0] as int == tet_power(0, 0, 3, t));
    assert(TET_SAMPLES[t][1] as int == tet_power(0, 1, 2, t));
    assert(TET_SAMPLES[t][2] as int == tet_power(0, 2, 1, t));
    assert(TET_SAMPLES[t][3] as int == tet_power(0, 3, 0, t));
    assert(TET_SAMPLES[t][4] as int == tet_power(1, 0, 2, t));
    assert(TET_SAMPLES[t][5] as int == tet_power(1, 1, 1, t));
    assert(TET_SAMPLES[t][6] as int == tet_power(1, 2, 0, t));
    assert(TET_SAMPLES[t][7] as int == tet_power(2, 0, 1, t));
    assert(TET_SAMPLES[t][8] as int == tet_power(2, 1, 0, t));
    assert(TET_SAMPLES[t][9] as int == tet_power(3, 0, 0, t));
    assert(TET_SAMPLES[t][10] as int == tet_power(0, 0, 2, t));
    assert(TET_SAMPLES[t][11] as int == tet_power(0, 1, 1, t));
    assert(TET_SAMPLES[t][12] as int == tet_power(0, 2, 0, t));
    assert(TET_SAMPLES[t][13] as int == tet_power(1, 0, 1, t));
    assert(TET_SAMPLES[t][14] as int == tet_power(1, 1, 0, t));
    assert(TET_SAMPLES[t][15] as int == tet_power(2, 0, 0, t));
    assert(TET_SAMPLES[t][16] as int == tet_power(0, 0, 1, t));
    assert(TET_SAMPLES[t][17] as int == tet_power(0, 1, 0, t));
    assert(TET_SAMPLES[t][18] as int == tet_power(1, 0, 0, t));
    assert(TET_SAMPLES[t][19] as int == tet_power(0, 0, 0, t));
}

/// `a` to the power `i`, for `i` up to three.
spec fn int_power(a: int, i: int) -> int {
    if i <= 0 {
        1
    } else if i == 1 {
        a
    } else if i == 2 {
        a * a
    } else {
        a * a * a
    }
}

/// Powers of thirds.
proof fn lemma_third_power<R: Real>(a: int, i: int)
    requires
        exact_field::<R>(),
        exact_integers::<R>(),
        0 <= i <= 3,
    ensures
        small_power(ratio_val::<R>(a, 3), i) == ratio_val::<R>(int_power(a, i), int_power(3, i)),
{
    lemma_int_units::<R>();
    assert(1 * 1 == 1);
    lemma_ratio_whole::<R>(1, 1);
    lemma_ratio_times::<R>(a, 3, a, 3);
    lemma_ratio_times::<R>(a * a, 9, a, 3);
}

/// The monomials are products of powers.
proof fn lemma_tet_power(a: int, b: int, c: int, t: int)
    requires
        0 <= t < 20,
    ensures
        tet_power(a, b, c, t) == int_power(a, TET_P3_EXP[t][0] as int) * int_power(
            b,
            TET_P3_EXP[t][1] as int,
        ) * int_power(c, TET_P3_EXP[t][2] as int),
        0 <= TET_P3_EXP[t][0] <= 3,
        0 <= TET_P3_EXP[t][1] <= 3,
        0 <= TET_P3_EXP[t][2] <= 3,
{
    let (i, j, k) = (
        TET_P3_EXP[t][0] as int,
        TET_P3_EXP[t][1] as int,
        TET_P3_EXP[t][2] as int,
    );
    let (x, y, z) = (int_power(a, i), int_power(b, j), int_power(c, k));
    assert(1 * y * z == y * z && x * 1 * z == x * z && x * y * 1 == x * y) by (nonlinear_arith);
    assert(x * (b * b) == x * b * b && x * y * (c * c) == x * y * c * c && x * (b * b * b) == x * b
        * b * b && x * y * (c * c * c) == x * y * c * c * c) by (nonlinear_arith);
    assert(1 * b == b && 1 * c == c && 1 * (b * b) == b * b && 1 * (c * c) == c * c) by (
    nonlinear_arith);
    assert(b * (c * c) == b * c * c && a * (c * c) == a * c * c && a * (b * b) == a * b * b) by (
    nonlinear_arith);
}

/// The monomials of thirds.
proof fn lemma_tet_thirds<R: Real>(a: int, b: int, c: int, t: int)
    requires
        exact_field::<R>(),
        exact_integers::<R>(),
        0 <= t < 20,
    ensures
        tet_monomials(ratio_val::<R>(a, 3), ratio_val::<R>(b, 3), ratio_val::<R>(c, 3), 3)[t]
            == ratio_val::<R>(tet_power(a, b, c, t), tet_scale(t)),
{
    lemma_tet_power(a, b, c, t);
    lemma_tet_power(3, 3, 3, t);
    assert(tet_power(3, 3, 3, t) == tet_scale(t));
    let (i, j, k) = (
        TET_P3_EXP[t][0] as int,
        TET_P3_EXP[t][1] as int,
        TET_P3_EXP[t][2] as int,
    );
    lemma_third_power::<R>(a, i);
    lemma_third_power::<R>(b, j);
    lemma_third_power::<R>(c, k);
    lemma_ratio_times::<R>(int_power(a, i), int_power(3, i), int_power(b, j), int_power(3, j));
    assert(int_power(3, i) * int_power(3, j) != 0) by (nonlinear_arith)
        requires
            int_power(3, i) > 0,
            int_power(3, j) > 0,
    ;
    lemma_ratio_times::<R>(
        int_power(a, i) * int_power(b, j),
        int_power(3, i) * int_power(3, j),
        int_power(c, k),
        int_power(3, k),
    );
}

/// The monomial `t` at node `k` of the cubic tetrahedron.
pub open spec fn tet_sample<R: Real>(k: int, t: int) -> R {
    tet_monomials(
        ratio_val::<R>(tet_node(k).0, 3),
        ratio_val::<R>(tet_node(k).1, 3),
        ratio_val::<R>(tet_node(k).2, 3),
        3,
    )[t]
}

/// A cubic shape function on the tetrahedron, or its derivative, times the monomial `t` at its
/// node.
pub open spec fn tet_samples_of<R: Real>(values: spec_fn(int) -> R, t: int) -> spec_fn(int) -> R {
    |k: int| values(k).times(tet_sample::<R>(k, t))
}

proof fn lemma_tet_reproduces<R: Real>(values: spec_fn(int) -> R, m: Seq<R>, t: int)
    requires
        exact_field::<R>(),
        exact_integers::<R>(),
        0 <= t < 20,
        forall|k: int| 0 <= k < 20 ==> #[trigger] values(k) == sum(20, tet_p3_terms(m, k)),
    ensures
        sum(20, tet_samples_of(values, t)) == m[t],
{
    let (c, v, e) = (tet_table(), tet_samples(t), tet_scale(t));
    lemma_tet_picks(t);
    assert forall|j: int| 0 <= j < 20 implies int_sum(20, #[trigger] row_products(c, v, j))
        == if j == t {
        2 * e
    } else {
        0
    } by {
        lemma_tet_pick(t, 20, j);
    }
    lemma_table(20, 20, c, m, v, e, t);
    let (f, g) = (
        tet_samples_of(values, t),
        |k: int| table_values(20, c, m, k).times(ratio_val::<R>(v(k), e)),
    );
    assert forall|k: int| 0 <= k < 20 implies #[trigger] f(k) == g(k) by {
        lemma_tet_thirds::<R>(tet_node(k).0, tet_node(k).1, tet_node(k).2, t);
        lemma_tet_samples(k, t);
        lemma_sum_ext(
            20,
            tet_p3_terms(m, k),
            |j: int| ratio_val::<R>(c(j, k), 2).times(m[j]),
        );
    }
    lemma_sum_ext(20, f, g);
}

/// The cubic shape functions on the tetrahedron reproduce every monomial up to degree three from
/// its values at the nodes, and their gradients reproduce its gradient. On the constant this says
/// that they add up to one.
pub proof fn law_cubic_tetrahedron_reproduces<R: Real>(x: R, y: R, z: R, t: int, d: int)
    requires
        exact_field::<R>(),
        exact_integers::<R>(),
        0 <= t < 20,
        0 <= d < 3,
    ensures
        sum(20, tet_samples_of(|k: int| tet_p3_values(x, y, z)[k], t)) == tet_monomials(
            x,
            y,
            z,
            3,
        )[t],
        sum(20, tet_samples_of(|k: int| tet_p3_slopes(x, y, z)[3 * k + d], t)) == tet_monomials(
            x,
            y,
            z,
            d,
        )[t],
{
    lemma_tet_reproduces(|k: int| tet_p3_values(x, y, z)[k], tet_monomials(x, y, z, 3), t);
    lemma_tet_reproduces(
        |k: int| tet_p3_slopes(x, y, z)[3 * k + d],
        tet_monomials(x, y, z, d),
        t,
    );
}

} // verus!
