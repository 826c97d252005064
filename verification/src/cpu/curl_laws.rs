//! The tabulated curls and divergences of the edge and face elements are those of the tabulated
//! functions.
//!
//! In exact arithmetic every component of a function is the value of a polynomial, given here by
//! its coefficients; its curl or divergence is the value of the polynomial that the coefficients
//! of the derivatives describe.

use vstd::prelude::*;

#[allow(unused_imports)]
use crate::cpu::polynomials::{
    coordinate, lemma_by_axis, lemma_difference_value, lemma_number, lemma_sum_value, Cubic,
};
#[allow(unused_imports)]
use crate::cpu::vector_laws::lemma_minus_one;
#[allow(unused_imports)]
use crate::cpu::vector_shapes::{
    face_first, face_second, face_third, last_axis, moment_factor, moment_vertex, next_axis,
    tet_dlam, tet_edge_end, tet_edge_form, tet_edge_start, tet_face_curl, tet_lam, tet_nedelec_curl,
    tet_nedelec_value, tet_psi, tet_rt_div, tet_rt_value, tri_bubble_slope, tri_dlam, tri_edge_diff,
    tri_edge_end, tri_edge_form, tri_edge_start, tri_first_slope, tri_lam, tri_nedelec_curl,
    tri_nedelec_value, tri_pair_slope, tri_psi, tri_rt_div, tri_rt_value, tri_second_slope,
};
#[allow(unused_imports)]
use crate::exact::{exact_integers, lemma_distribute_minus, lemma_int_plus, lemma_int_units};
use crate::scalar::Real;
#[allow(unused_imports)]
use crate::scalar::{
    exact_ring, lemma_distribute, lemma_times_assoc, lemma_times_comm, lemma_times_one,
    lemma_times_zero,
};

verus! {

// ── building blocks ─────────────────────────────────────────────────────────

/// Barycentric coordinate `i` on the triangle for `dim == 2`, else on the tetrahedron.
pub open spec fn bary<R: Real>(dim: int, x: R, y: R, z: R, i: int) -> R {
    if dim == 2 {
        tri_lam(x, y, i)
    } else {
        tet_lam(x, y, z, i)
    }
}

/// The product of a polynomial of degree two or less with barycentric coordinate `i`.
pub open spec fn by_lam(dim: int, i: int, p: Cubic) -> Cubic {
    if i == 1 {
        p.by_axis(0)
    } else if i == 2 {
        p.by_axis(1)
    } else if i == 3 {
        p.by_axis(2)
    } else if dim == 2 {
        p.minus(p.by_axis(0)).minus(p.by_axis(1))
    } else {
        p.minus(p.by_axis(0)).minus(p.by_axis(1)).minus(p.by_axis(2))
    }
}

proof fn lemma_by_lam<R: Real>(dim: int, x: R, y: R, z: R, i: int, p: Cubic)
    requires
        exact_ring::<R>(),
        exact_integers::<R>(),
        dim == 2 || dim == 3,
        0 <= i <= dim,
        p.quadratic(),
    ensures
        by_lam(dim, i, p).at(x, y, z) == bary(dim, x, y, z, i).times(p.at(x, y, z)),
{
    let (v, one) = (p.at(x, y, z), R::one_val());
    lemma_by_axis(x, y, z, 0, p);
    lemma_by_axis(x, y, z, 1, p);
    lemma_by_axis(x, y, z, 2, p);
    let a = p.minus(p.by_axis(0));
    let b = a.minus(p.by_axis(1));
    lemma_difference_value(x, y, z, p, p.by_axis(0));
    lemma_difference_value(x, y, z, a, p.by_axis(1));
    lemma_difference_value(x, y, z, b, p.by_axis(2));
    lemma_times_one(v);
    lemma_distribute_minus(v, one, x);
    lemma_distribute_minus(v, one.minus(x), y);
    lemma_distribute_minus(v, one.minus(x).minus(y), z);
}

/// Barycentric coordinate `i`.
pub open spec fn lam(dim: int, i: int) -> Cubic {
    by_lam(dim, i, Cubic::number(1))
}

proof fn lemma_lam<R: Real>(dim: int, x: R, y: R, z: R, i: int)
    requires
        exact_ring::<R>(),
        exact_integers::<R>(),
        dim == 2 || dim == 3,
        0 <= i <= dim,
    ensures
        lam(dim, i).at(x, y, z) == bary(dim, x, y, z, i),
{
    lemma_number(x, y, z, 1);
    lemma_by_lam(dim, x, y, z, i, Cubic::number(1));
    lemma_int_units::<R>();
    lemma_times_one(bary(dim, x, y, z, i));
}

/// The product with the derivative of barycentric coordinate `i` along axis `d`.
pub open spec fn graded(i: int, d: int, p: Cubic) -> Cubic {
    if i == 0 {
        p.negated()
    } else if i == d + 1 {
        p
    } else {
        Cubic::number(0)
    }
}

proof fn lemma_graded<R: Real>(x: R, y: R, z: R, i: int, d: int, p: Cubic)
    requires
        exact_ring::<R>(),
        exact_integers::<R>(),
    ensures
        graded(i, d, p).at(x, y, z) == p.at(x, y, z).times(tri_dlam(i, d)),
        graded(i, d, p).at(x, y, z) == tri_dlam::<R>(i, d).times(p.at(x, y, z)),
        tri_dlam::<R>(i, d) == tet_dlam::<R>(i, d),
{
    let v = p.at(x, y, z);
    lemma_times_comm(v, tri_dlam(i, d));
    lemma_minus_one(v);
    lemma_times_one(v);
    lemma_times_zero(v);
    lemma_number(x, y, z, 0);
    lemma_int_units::<R>();
    lemma_difference_value(x, y, z, p, p);
}

/// The product of a polynomial of degree two or less with the difference of two barycentric
/// coordinates.
pub open spec fn by_diff(dim: int, i: int, j: int, p: Cubic) -> Cubic {
    by_lam(dim, i, p).minus(by_lam(dim, j, p))
}

proof fn lemma_by_diff<R: Real>(dim: int, x: R, y: R, z: R, i: int, j: int, p: Cubic)
    requires
        exact_ring::<R>(),
        exact_integers::<R>(),
        dim == 2 || dim == 3,
        0 <= i <= dim,
        0 <= j <= dim,
        p.quadratic(),
    ensures
        by_diff(dim, i, j, p).at(x, y, z) == bary(dim, x, y, z, i).minus(
            bary(dim, x, y, z, j),
        ).times(p.at(x, y, z)),
{
    lemma_by_lam(dim, x, y, z, i, p);
    lemma_by_lam(dim, x, y, z, j, p);
    lemma_difference_value(x, y, z, by_lam(dim, i, p), by_lam(dim, j, p));
    lemma_distribute_minus(p.at(x, y, z), bary(dim, x, y, z, i), bary(dim, x, y, z, j));
}

/// The product of two barycentric coordinates.
pub open spec fn pair(dim: int, a: int, b: int) -> Cubic {
    by_lam(dim, a, lam(dim, b))
}

proof fn lemma_pair<R: Real>(dim: int, x: R, y: R, z: R, a: int, b: int)
    requires
        exact_ring::<R>(),
        exact_integers::<R>(),
        dim == 2 || dim == 3,
        0 <= a <= dim,
        0 <= b <= dim,
    ensures
        pair(dim, a, b).at(x, y, z) == bary(dim, x, y, z, a).times(bary(dim, x, y, z, b)),
{
    lemma_lam(dim, x, y, z, b);
    lemma_by_lam(dim, x, y, z, a, lam(dim, b));
}

/// The product of three barycentric coordinates on the triangle.
pub open spec fn triple(a: int, b: int, c: int) -> Cubic {
    by_lam(2, a, pair(2, b, c))
}

proof fn lemma_triple<R: Real>(x: R, y: R, z: R, a: int, b: int, c: int)
    requires
        exact_ring::<R>(),
        exact_integers::<R>(),
        0 <= a < 3,
        0 <= b < 3,
        0 <= c < 3,
    ensures
        triple(a, b, c).at(x, y, z) == tri_lam(x, y, a).times(tri_lam(x, y, b)).times(
            tri_lam(x, y, c),
        ),
{
    lemma_pair(2, x, y, z, b, c);
    lemma_by_lam(2, x, y, z, a, pair(2, b, c));
    lemma_times_assoc(tri_lam(x, y, a), tri_lam(x, y, b), tri_lam(x, y, c));
}

/// Twice a polynomial.
pub open spec fn twice(p: Cubic) -> Cubic {
    p.plus(p)
}

proof fn lemma_twice<R: Real>(x: R, y: R, z: R, p: Cubic)
    requires
        exact_ring::<R>(),
        exact_integers::<R>(),
    ensures
        twice(p).at(x, y, z) == R::int_val(2).times(p.at(x, y, z)),
        twice(p).plus(p).at(x, y, z) == R::int_val(3).times(p.at(x, y, z)),
        twice(twice(p)).at(x, y, z) == R::int_val(4).times(p.at(x, y, z)),
        twice(twice(twice(p))).at(x, y, z) == R::int_val(8).times(p.at(x, y, z)),
{
    let v = p.at(x, y, z);
    let (i1, i2, i4) = (R::int_val(1), R::int_val(2), R::int_val(4));
    lemma_int_units::<R>();
    lemma_times_one(v);
    lemma_int_plus::<R>(1, 1);
    lemma_int_plus::<R>(2, 1);
    lemma_int_plus::<R>(2, 2);
    lemma_int_plus::<R>(4, 4);
    lemma_distribute(v, i1, i1);
    lemma_distribute(v, i2, i1);
    lemma_distribute(v, i2, i2);
    lemma_distribute(v, i4, i4);
    lemma_sum_value(x, y, z, p, p);
    lemma_sum_value(x, y, z, twice(p), p);
    lemma_sum_value(x, y, z, twice(p), twice(p));
    lemma_sum_value(x, y, z, twice(twice(p)), twice(twice(p)));
}

/// Component `d` of the edge form `λ_i ∇λ_j − λ_j ∇λ_i`.
pub open spec fn form(dim: int, i: int, j: int, d: int) -> Cubic {
    graded(j, d, lam(dim, i)).minus(graded(i, d, lam(dim, j)))
}

proof fn lemma_form<R: Real>(dim: int, x: R, y: R, z: R, i: int, j: int, d: int)
    requires
        exact_ring::<R>(),
        exact_integers::<R>(),
        dim == 2 || dim == 3,
        0 <= i <= dim,
        0 <= j <= dim,
    ensures
        form(dim, i, j, d).at(x, y, z) == if dim == 2 {
            tri_edge_form(x, y, i, j, d)
        } else {
            tet_edge_form(x, y, z, i, j, d)
        },
        form(dim, i, j, d).quadratic(),
{
    lemma_lam(dim, x, y, z, i);
    lemma_lam(dim, x, y, z, j);
    lemma_graded(x, y, z, j, d, lam(dim, i));
    lemma_graded(x, y, z, i, d, lam(dim, j));
    lemma_difference_value(x, y, z, graded(j, d, lam(dim, i)), graded(i, d, lam(dim, j)));
}

/// Twice the component `a × b` of `∇λ_i × ∇λ_j`.
pub open spec fn form_curl(i: int, j: int, a: int, b: int) -> Cubic {
    let one = Cubic::number(1);
    twice(graded(j, b, graded(i, a, one)).minus(graded(j, a, graded(i, b, one))))
}

proof fn lemma_form_curl<R: Real>(x: R, y: R, z: R, i: int, j: int, a: int, b: int)
    requires
        exact_ring::<R>(),
        exact_integers::<R>(),
    ensures
        form_curl(i, j, a, b).at(x, y, z) == R::int_val(2).times(
            tri_dlam::<R>(i, a).times(tri_dlam::<R>(j, b)).minus(
                tri_dlam::<R>(i, b).times(tri_dlam::<R>(j, a)),
            ),
        ),
{
    let one = Cubic::number(1);
    let (p, q) = (graded(i, a, one), graded(i, b, one));
    lemma_number(x, y, z, 1);
    lemma_int_units::<R>();
    lemma_graded(x, y, z, i, a, one);
    lemma_graded(x, y, z, i, b, one);
    lemma_times_one(tri_dlam::<R>(i, a));
    lemma_times_one(tri_dlam::<R>(i, b));
    lemma_graded(x, y, z, j, b, p);
    lemma_graded(x, y, z, j, a, q);
    lemma_difference_value(x, y, z, graded(j, b, p), graded(j, a, q));
    lemma_twice(x, y, z, graded(j, b, p).minus(graded(j, a, q)));
}

/// Component `a × b` of the cross product of `∇(λ_i − λ_j)` with the field that has the
/// components `f` along `a` and `g` along `b`.
pub open spec fn turned(i: int, j: int, a: int, b: int, f: Cubic, g: Cubic) -> Cubic {
    graded(i, a, g).minus(graded(j, a, g)).minus(graded(i, b, f).minus(graded(j, b, f)))
}

proof fn lemma_turned<R: Real>(
    x: R,
    y: R,
    z: R,
    i: int,
    j: int,
    a: int,
    b: int,
    f: Cubic,
    g: Cubic,
)
    requires
        exact_ring::<R>(),
        exact_integers::<R>(),
        f.quadratic(),
        g.quadratic(),
    ensures
        turned(i, j, a, b, f, g).at(x, y, z) == tri_dlam::<R>(i, a).minus(
            tri_dlam::<R>(j, a),
        ).times(g.at(x, y, z)).minus(
            tri_dlam::<R>(i, b).minus(tri_dlam::<R>(j, b)).times(f.at(x, y, z)),
        ),
        turned(i, j, a, b, f, g).quadratic(),
{
    lemma_graded(x, y, z, i, a, g);
    lemma_graded(x, y, z, j, a, g);
    lemma_graded(x, y, z, i, b, f);
    lemma_graded(x, y, z, j, b, f);
    let (p, q) = (graded(i, a, g).minus(graded(j, a, g)), graded(i, b, f).minus(graded(j, b, f)));
    lemma_difference_value(x, y, z, graded(i, a, g), graded(j, a, g));
    lemma_difference_value(x, y, z, graded(i, b, f), graded(j, b, f));
    lemma_difference_value(x, y, z, p, q);
    lemma_distribute_minus(g.at(x, y, z), tri_dlam::<R>(i, a), tri_dlam::<R>(j, a));
    lemma_distribute_minus(f.at(x, y, z), tri_dlam::<R>(i, b), tri_dlam::<R>(j, b));
}

/// Component `a × b` of `∇(λ_i − λ_j)` times the edge form, crosswise.
pub open spec fn twist(dim: int, i: int, j: int, a: int, b: int) -> Cubic {
    turned(i, j, a, b, form(dim, i, j, a), form(dim, i, j, b))
}

// ── edge elements on the triangle ───────────────────────────────────────────

/// The factor `p` and the index `c` of a function `p ∇λ_c`.
pub open spec fn tri_scaled_gradient(dof: int) -> (Cubic, int) {
    if dof == 6 {
        (pair(2, 0, 1), 2)
    } else if dof == 7 {
        (pair(2, 0, 2), 1)
    } else if dof == 11 {
        (triple(0, 1, 2), 0)
    } else if dof == 12 {
        (triple(0, 1, 2), 1)
    } else if dof == 13 {
        (triple(0, 0, 1), 2)
    } else {
        (triple(0, 1, 1), 2)
    }
}

/// Component `d` of edge element function `dof` on the triangle.
pub open spec fn tri_nedelec_cubic(dof: int, d: int) -> Cubic {
    if dof < 3 {
        form(2, tri_edge_start(dof), tri_edge_end(dof), d)
    } else if dof < 6 {
        let (i, j) = (tri_edge_start(dof - 3), tri_edge_end(dof - 3));
        by_diff(2, i, j, form(2, i, j, d))
    } else if 8 <= dof < 11 {
        let (i, j) = (tri_edge_start(dof - 8), tri_edge_end(dof - 8));
        by_diff(2, i, j, by_diff(2, i, j, form(2, i, j, d)))
    } else {
        graded(tri_scaled_gradient(dof).1, d, tri_scaled_gradient(dof).0)
    }
}

/// The functions on the triangle are values of polynomials.
pub proof fn law_tri_edge_functions_are_cubics<R: Real>(x: R, y: R, z: R, dof: int, d: int)
    requires
        exact_ring::<R>(),
        exact_integers::<R>(),
        0 <= dof < 15,
        0 <= d < 2,
    ensures
        tri_nedelec_value(x, y, dof, d) == tri_nedelec_cubic(dof, d).at(x, y, z),
{
    if dof < 3 {
        lemma_form(2, x, y, z, tri_edge_start(dof), tri_edge_end(dof), d);
    } else if dof < 6 {
        let (i, j) = (tri_edge_start(dof - 3), tri_edge_end(dof - 3));
        lemma_form(2, x, y, z, i, j, d);
        lemma_by_diff(2, x, y, z, i, j, form(2, i, j, d));
    } else if 8 <= dof < 11 {
        let (i, j) = (tri_edge_start(dof - 8), tri_edge_end(dof - 8));
        let f = form(2, i, j, d);
        lemma_form(2, x, y, z, i, j, d);
        lemma_by_diff(2, x, y, z, i, j, f);
        lemma_by_diff(2, x, y, z, i, j, by_diff(2, i, j, f));
        let e = tri_edge_diff(x, y, i, j);
        lemma_times_assoc(e, e, f.at(x, y, z));
    } else {
        let (p, c) = tri_scaled_gradient(dof);
        lemma_graded(x, y, z, c, d, p);
        if dof < 8 {
            lemma_pair(2, x, y, z, 0, dof - 5);
        } else if dof < 13 {
            lemma_triple(x, y, z, 0, 1, 2);
        } else if dof == 13 {
            lemma_triple(x, y, z, 0, 0, 1);
        } else {
            lemma_triple(x, y, z, 0, 1, 1);
        }
    }
}

/// The plane cross product with `∇λ_c`.
pub open spec fn cross(g0: Cubic, g1: Cubic, c: int) -> Cubic {
    graded(c, 1, g0).minus(graded(c, 0, g1))
}

/// Component `d` of the gradient of the factor in front of `∇λ_c`.
pub open spec fn tri_factor_slope(dof: int, d: int) -> Cubic {
    if dof == 6 {
        graded(1, d, lam(2, 0)).plus(graded(0, d, lam(2, 1)))
    } else if dof == 7 {
        graded(2, d, lam(2, 0)).plus(graded(0, d, lam(2, 2)))
    } else if dof < 13 {
        graded(0, d, pair(2, 1, 2)).plus(graded(1, d, pair(2, 0, 2))).plus(
            graded(2, d, pair(2, 0, 1)),
        )
    } else if dof == 13 {
        graded(0, d, twice(pair(2, 0, 1))).plus(graded(1, d, pair(2, 0, 0)))
    } else {
        graded(0, d, pair(2, 1, 1)).plus(graded(1, d, twice(pair(2, 0, 1))))
    }
}

/// The gradient of that factor.
pub open spec fn tri_factor_gradient<R: Real>(x: R, y: R, dof: int, d: int) -> R {
    if dof == 6 {
        tri_pair_slope(x, y, 0, 1, d)
    } else if dof == 7 {
        tri_pair_slope(x, y, 0, 2, d)
    } else if dof < 13 {
        tri_bubble_slope(x, y, d)
    } else if dof == 13 {
        tri_first_slope(x, y, d)
    } else {
        tri_second_slope(x, y, d)
    }
}

proof fn lemma_factor_slope<R: Real>(x: R, y: R, z: R, dof: int, d: int)
    requires
        exact_ring::<R>(),
        exact_integers::<R>(),
        6 <= dof < 15,
    ensures
        tri_factor_gradient(x, y, dof, d) == tri_factor_slope(dof, d).at(x, y, z),
{
    let (l0, l1) = (tri_lam(x, y, 0), tri_lam(x, y, 1));
    if dof < 8 {
        let b = dof - 5;
        lemma_lam(2, x, y, z, 0);
        lemma_lam(2, x, y, z, b);
        lemma_graded(x, y, z, b, d, lam(2, 0));
        lemma_graded(x, y, z, 0, d, lam(2, b));
        lemma_sum_value(x, y, z, graded(b, d, lam(2, 0)), graded(0, d, lam(2, b)));
    } else if dof < 13 {
        lemma_pair(2, x, y, z, 1, 2);
        lemma_pair(2, x, y, z, 0, 2);
        lemma_pair(2, x, y, z, 0, 1);
        let (p, q, r) = (
            graded(0, d, pair(2, 1, 2)),
            graded(1, d, pair(2, 0, 2)),
            graded(2, d, pair(2, 0, 1)),
        );
        lemma_graded(x, y, z, 0, d, pair(2, 1, 2));
        lemma_graded(x, y, z, 1, d, pair(2, 0, 2));
        lemma_graded(x, y, z, 2, d, pair(2, 0, 1));
        lemma_sum_value(x, y, z, p, q);
        lemma_sum_value(x, y, z, p.plus(q), r);
    } else {
        let m = twice(pair(2, 0, 1));
        lemma_pair(2, x, y, z, 0, 1);
        lemma_twice(x, y, z, pair(2, 0, 1));
        lemma_times_assoc(R::int_val(2), l0, l1);
        lemma_pair(2, x, y, z, 0, 0);
        lemma_pair(2, x, y, z, 1, 1);
        lemma_graded(x, y, z, 0, d, m);
        lemma_graded(x, y, z, 1, d, m);
        lemma_graded(x, y, z, 0, d, pair(2, 1, 1));
        lemma_graded(x, y, z, 1, d, pair(2, 0, 0));
        lemma_sum_value(x, y, z, graded(0, d, m), graded(1, d, pair(2, 0, 0)));
        lemma_sum_value(x, y, z, graded(0, d, pair(2, 1, 1)), graded(1, d, m));
    }
}

/// The tabulated curl of edge element function `dof` on the triangle.
pub open spec fn tri_nedelec_curl_cubic(dof: int) -> Cubic {
    if dof < 3 {
        form_curl(tri_edge_start(dof), tri_edge_end(dof), 0, 1)
    } else if dof < 6 {
        let (i, j) = (tri_edge_start(dof - 3), tri_edge_end(dof - 3));
        twist(2, i, j, 0, 1).plus(by_diff(2, i, j, form_curl(i, j, 0, 1)))
    } else if 8 <= dof < 11 {
        let (i, j) = (tri_edge_start(dof - 8), tri_edge_end(dof - 8));
        twice(by_diff(2, i, j, twist(2, i, j, 0, 1))).plus(
            by_diff(2, i, j, by_diff(2, i, j, form_curl(i, j, 0, 1))),
        )
    } else {
        cross(tri_factor_slope(dof, 0), tri_factor_slope(dof, 1), tri_scaled_gradient(dof).1)
    }
}

proof fn lemma_tri_curl_value<R: Real>(x: R, y: R, z: R, dof: int)
    requires
        exact_ring::<R>(),
        exact_integers::<R>(),
        0 <= dof < 15,
    ensures
        tri_nedelec_curl(x, y, dof) == tri_nedelec_curl_cubic(dof).at(x, y, z),
{
    if dof < 3 {
        lemma_form_curl(x, y, z, tri_edge_start(dof), tri_edge_end(dof), 0, 1);
    } else if dof < 6 || 8 <= dof < 11 {
        let n = if dof < 6 {
            dof - 3
        } else {
            dof - 8
        };
        let (i, j) = (tri_edge_start(n), tri_edge_end(n));
        let (t, c) = (twist(2, i, j, 0, 1), form_curl(i, j, 0, 1));
        let e = tri_edge_diff(x, y, i, j);
        lemma_form(2, x, y, z, i, j, 0);
        lemma_form(2, x, y, z, i, j, 1);
        lemma_turned(x, y, z, i, j, 0, 1, form(2, i, j, 0), form(2, i, j, 1));
        lemma_form_curl(x, y, z, i, j, 0, 1);
        lemma_by_diff(2, x, y, z, i, j, c);
        lemma_sum_value(x, y, z, t, by_diff(2, i, j, c));
        let (u, w) = (by_diff(2, i, j, t), by_diff(2, i, j, by_diff(2, i, j, c)));
        lemma_by_diff(2, x, y, z, i, j, t);
        lemma_by_diff(2, x, y, z, i, j, by_diff(2, i, j, c));
        lemma_times_assoc(e, e, c.at(x, y, z));
        lemma_twice(x, y, z, u);
        lemma_times_assoc(R::int_val(2), e, t.at(x, y, z));
        lemma_sum_value(x, y, z, twice(u), w);
    } else {
        let (p, q) = (tri_factor_slope(dof, 0), tri_factor_slope(dof, 1));
        let c = tri_scaled_gradient(dof).1;
        lemma_factor_slope(x, y, z, dof, 0);
        lemma_factor_slope(x, y, z, dof, 1);
        lemma_graded(x, y, z, c, 1, p);
        lemma_graded(x, y, z, c, 0, q);
        lemma_difference_value(x, y, z, graded(c, 1, p), graded(c, 0, q));
    }
}

/// The curl of the plane field with the components `p` and `q`.
pub open spec fn plane_curl(p: Cubic, q: Cubic) -> Cubic {
    q.slope(0).minus(p.slope(1))
}

#[verifier::spinoff_prover]
proof fn lemma_tri_curl_coefficients(dof: int)
    requires
        0 <= dof < 15,
    ensures
        tri_nedelec_curl_cubic(dof) == plane_curl(
            tri_nedelec_cubic(dof, 0),
            tri_nedelec_cubic(dof, 1),
        ),
{
    if dof < 3 {
    } else if dof < 6 {
    } else if dof == 6 {
    } else if dof == 7 {
    } else if dof == 8 {
    } else if dof == 9 {
    } else if dof == 10 {
    } else if dof == 11 {
    } else if dof == 12 {
    } else if dof == 13 {
    }
}

/// The tabulated curl on the triangle is the curl of the function: with the polynomials of its
/// two components, `∂v_1/∂x − ∂v_0/∂y`.
pub proof fn law_tri_curl_is_the_curl<R: Real>(x: R, y: R, z: R, dof: int)
    requires
        exact_ring::<R>(),
        exact_integers::<R>(),
        0 <= dof < 15,
    ensures
        tri_nedelec_curl(x, y, dof) == plane_curl(
            tri_nedelec_cubic(dof, 0),
            tri_nedelec_cubic(dof, 1),
        ).at(x, y, z),
{
    lemma_tri_curl_value(x, y, z, dof);
    lemma_tri_curl_coefficients(dof);
}

// ── face elements on the triangle ───────────────────────────────────────────

/// Coordinate `t`.
pub open spec fn axis(t: int) -> Cubic {
    Cubic::number(1).by_axis(t)
}

proof fn lemma_axis<R: Real>(x: R, y: R, z: R, t: int)
    requires
        exact_ring::<R>(),
        exact_integers::<R>(),
    ensures
        axis(t).at(x, y, z) == coordinate(x, y, z, t),
{
    lemma_number(x, y, z, 1);
    lemma_by_axis(x, y, z, t, Cubic::number(1));
    lemma_int_units::<R>();
    lemma_times_one(coordinate(x, y, z, t));
}

/// Component `d` of the position relative to vertex `k`.
pub open spec fn offset(k: int, d: int) -> Cubic {
    axis(d).minus(
        Cubic::number(
            if k == d + 1 {
                1
            } else {
                0
            },
        ),
    )
}

proof fn lemma_offset<R: Real>(x: R, y: R, z: R, k: int, d: int)
    requires
        exact_ring::<R>(),
        exact_integers::<R>(),
        0 <= d < 3,
    ensures
        d < 2 ==> offset(k, d).at(x, y, z) == tri_psi(x, y, k, d),
        twice(offset(k, d)).at(x, y, z) == tet_psi(x, y, z, k, d),
{
    let n: int = if k == d + 1 {
        1
    } else {
        0
    };
    lemma_axis(x, y, z, d);
    lemma_number(x, y, z, n);
    lemma_int_units::<R>();
    lemma_difference_value(x, y, z, axis(d), Cubic::number(n));
    lemma_twice(x, y, z, offset(k, d));
}

/// The barycentric coordinates whose difference enters face element function `dof`, 3 to 5 or 8
/// to 10, and the vertex.
pub open spec fn tri_rt_parts(dof: int) -> (int, int, int) {
    if dof == 3 || dof == 8 {
        (1, 2, 0)
    } else if dof == 4 {
        (2, 0, 1)
    } else if dof == 9 {
        (0, 2, 1)
    } else {
        (0, 1, 2)
    }
}

/// Component `d` of face element function `dof` on the triangle.
pub open spec fn tri_rt_cubic(dof: int, d: int) -> Cubic {
    let (i, j, k) = tri_rt_parts(dof);
    if dof < 3 {
        offset(dof, d)
    } else if dof < 6 {
        by_diff(2, i, j, offset(k, d))
    } else if dof == 6 {
        if d == 0 {
            lam(2, 0).negated().by_axis(0)
        } else {
            Cubic::number(0)
        }
    } else if dof == 7 {
        if d == 0 {
            Cubic::number(0)
        } else {
            lam(2, 0).by_axis(1)
        }
    } else if dof < 11 {
        by_diff(2, i, j, by_diff(2, i, j, offset(k, d)))
    } else if dof == 11 {
        if d == 0 {
            triple(0, 1, 2)
        } else {
            triple(0, 1, 2).negated()
        }
    } else if dof == 12 {
        if d == 0 {
            Cubic::number(0)
        } else {
            triple(0, 1, 2)
        }
    } else if dof == 13 {
        if d == 0 {
            triple(0, 0, 1).negated()
        } else {
            Cubic::number(0)
        }
    } else {
        if d == 0 {
            triple(0, 1, 1).negated()
        } else {
            Cubic::number(0)
        }
    }
}

/// The functions on the triangle are values of polynomials.
pub proof fn law_tri_face_functions_are_cubics<R: Real>(x: R, y: R, z: R, dof: int, d: int)
    requires
        exact_ring::<R>(),
        exact_integers::<R>(),
        0 <= dof < 15,
        0 <= d < 2,
    ensures
        tri_rt_value(x, y, dof, d) == tri_rt_cubic(dof, d).at(x, y, z),
{
    let (i, j, k) = tri_rt_parts(dof);
    lemma_number(x, y, z, 0);
    lemma_int_units::<R>();
    if dof < 3 {
        lemma_offset(x, y, z, dof, d);
    } else if dof < 6 {
        lemma_offset(x, y, z, k, d);
        lemma_by_diff(2, x, y, z, i, j, offset(k, d));
    } else if dof < 8 {
        let p = lam(2, 0);
        lemma_lam(2, x, y, z, 0);
        lemma_difference_value(x, y, z, p, p);
        lemma_by_axis(x, y, z, 0, p.negated());
        lemma_by_axis(x, y, z, 1, p);
        lemma_times_comm(x, tri_lam(x, y, 0).negated());
        lemma_times_comm(y, tri_lam(x, y, 0));
    } else if dof < 11 {
        let e = tri_edge_diff(x, y, i, j);
        lemma_offset(x, y, z, k, d);
        lemma_by_diff(2, x, y, z, i, j, offset(k, d));
        lemma_by_diff(2, x, y, z, i, j, by_diff(2, i, j, offset(k, d)));
        lemma_times_assoc(e, e, tri_psi(x, y, k, d));
    } else {
        let (a, b, c) = (triple(0, 1, 2), triple(0, 0, 1), triple(0, 1, 1));
        lemma_triple(x, y, z, 0, 1, 2);
        lemma_triple(x, y, z, 0, 0, 1);
        lemma_triple(x, y, z, 0, 1, 1);
        lemma_difference_value(x, y, z, a, a);
        lemma_difference_value(x, y, z, b, b);
        lemma_difference_value(x, y, z, c, c);
    }
}

/// The tabulated divergence of face element function `dof` on the triangle.
pub open spec fn tri_rt_div_cubic(dof: int) -> Cubic {
    let (i, j, k) = tri_rt_parts(dof);
    let one = Cubic::number(1);
    let m = twice(pair(2, 0, 1));
    if dof < 3 {
        Cubic::number(2)
    } else if dof == 3 {
        let p = axis(0).minus(axis(1));
        twice(p).plus(p)
    } else if dof == 4 {
        let p = axis(0).plus(twice(axis(1))).minus(one);
        twice(p).plus(p)
    } else if dof == 5 {
        let p = one.minus(twice(axis(0))).minus(axis(1));
        twice(p).plus(p)
    } else if dof == 6 {
        twice(axis(0)).plus(axis(1)).minus(one)
    } else if dof == 7 {
        one.minus(axis(0)).minus(twice(axis(1)))
    } else if dof < 11 {
        twice(twice(by_diff(2, i, j, lam(2, i).minus(lam(2, j)))))
    } else if dof == 11 {
        by_lam(2, 0, lam(2, 2).minus(lam(2, 1)))
    } else if dof == 12 {
        pair(2, 0, 1).minus(pair(2, 1, 2))
    } else if dof == 13 {
        m.minus(pair(2, 0, 0))
    } else {
        pair(2, 1, 1).minus(m)
    }
}

proof fn lemma_tri_div_value<R: Real>(x: R, y: R, z: R, dof: int)
    requires
        exact_ring::<R>(),
        exact_integers::<R>(),
        0 <= dof < 15,
    ensures
        tri_rt_div(x, y, dof) == tri_rt_div_cubic(dof).at(x, y, z),
{
    let (i, j, k) = tri_rt_parts(dof);
    let (one, u, v) = (Cubic::number(1), axis(0), axis(1));
    if dof < 8 {
        lemma_number(x, y, z, 1);
        lemma_number(x, y, z, 2);
        lemma_int_units::<R>();
        lemma_axis(x, y, z, 0);
        lemma_axis(x, y, z, 1);
        lemma_twice(x, y, z, u);
        lemma_twice(x, y, z, v);
        let (a, b, c, e) = (
            u.plus(twice(v)),
            one.minus(twice(u)),
            twice(u).plus(v),
            one.minus(u),
        );
        lemma_sum_value(x, y, z, u, twice(v));
        lemma_difference_value(x, y, z, one, twice(u));
        lemma_sum_value(x, y, z, twice(u), v);
        lemma_difference_value(x, y, z, one, u);
        lemma_difference_value(x, y, z, u, v);
        lemma_difference_value(x, y, z, a, one);
        lemma_difference_value(x, y, z, b, v);
        lemma_difference_value(x, y, z, c, one);
        lemma_difference_value(x, y, z, e, twice(v));
        lemma_twice(x, y, z, u.minus(v));
        lemma_twice(x, y, z, a.minus(one));
        lemma_twice(x, y, z, b.minus(v));
    } else if dof < 11 {
        let p = lam(2, i).minus(lam(2, j));
        lemma_lam(2, x, y, z, i);
        lemma_lam(2, x, y, z, j);
        lemma_difference_value(x, y, z, lam(2, i), lam(2, j));
        lemma_by_diff(2, x, y, z, i, j, p);
        lemma_twice(x, y, z, by_diff(2, i, j, p));
    } else if dof == 11 {
        let p = lam(2, 2).minus(lam(2, 1));
        lemma_lam(2, x, y, z, 2);
        lemma_lam(2, x, y, z, 1);
        lemma_difference_value(x, y, z, lam(2, 2), lam(2, 1));
        lemma_by_lam(2, x, y, z, 0, p);
    } else {
        let m = pair(2, 0, 1);
        lemma_pair(2, x, y, z, 0, 1);
        lemma_pair(2, x, y, z, 1, 2);
        lemma_pair(2, x, y, z, 0, 0);
        lemma_pair(2, x, y, z, 1, 1);
        lemma_twice(x, y, z, m);
        lemma_times_assoc(R::int_val(2), tri_lam(x, y, 0), tri_lam(x, y, 1));
        lemma_difference_value(x, y, z, m, pair(2, 1, 2));
        lemma_difference_value(x, y, z, twice(m), pair(2, 0, 0));
        lemma_difference_value(x, y, z, pair(2, 1, 1), twice(m));
    }
}

/// The divergence of the plane field with the components `p` and `q`.
pub open spec fn plane_divergence(p: Cubic, q: Cubic) -> Cubic {
    p.slope(0).plus(q.slope(1))
}

#[verifier::spinoff_prover]
proof fn lemma_tri_div_coefficients(dof: int)
    requires
        0 <= dof < 15,
    ensures
        tri_rt_div_cubic(dof) == plane_divergence(tri_rt_cubic(dof, 0), tri_rt_cubic(dof, 1)),
{
    if dof < 3 {
    } else if dof == 3 {
    } else if dof == 4 {
    } else if dof == 5 {
    } else if dof < 8 {
    } else if dof == 8 {
    } else if dof == 9 {
    } else if dof == 10 {
    } else if dof < 13 {
    } else if dof == 13 {
    }
}

/// The tabulated divergence on the triangle is the divergence of the function: with the
/// polynomials of its two components, `∂v_0/∂x + ∂v_1/∂y`.
pub proof fn law_tri_divergence_is_the_divergence<R: Real>(x: R, y: R, z: R, dof: int)
    requires
        exact_ring::<R>(),
        exact_integers::<R>(),
        0 <= dof < 15,
    ensures
        tri_rt_div(x, y, dof) == plane_divergence(
            tri_rt_cubic(dof, 0),
            tri_rt_cubic(dof, 1),
        ).at(x, y, z),
{
    lemma_tri_div_value(x, y, z, dof);
    lemma_tri_div_coefficients(dof);
}

// ── edge elements on the tetrahedron ────────────────────────────────────────

/// Component `d` of edge element function `dof` on the tetrahedron.
pub open spec fn tet_nedelec_cubic(dof: int, d: int) -> Cubic {
    if dof < 6 {
        form(3, tet_edge_start(dof), tet_edge_end(dof), d)
    } else if dof < 12 {
        let (i, j) = (tet_edge_start(dof - 6), tet_edge_end(dof - 6));
        by_diff(3, i, j, form(3, i, j, d))
    } else {
        graded(face_third(dof - 12), d, pair(3, face_first(dof - 12), face_second(dof - 12)))
    }
}

/// The functions on the tetrahedron are values of polynomials.
pub proof fn law_tet_edge_functions_are_cubics<R: Real>(x: R, y: R, z: R, dof: int, d: int)
    requires
        exact_ring::<R>(),
        exact_integers::<R>(),
        0 <= dof < 20,
        0 <= d < 3,
    ensures
        tet_nedelec_value(x, y, z, dof, d) == tet_nedelec_cubic(dof, d).at(x, y, z),
{
    if dof < 6 {
        lemma_form(3, x, y, z, tet_edge_start(dof), tet_edge_end(dof), d);
    } else if dof < 12 {
        let (i, j) = (tet_edge_start(dof - 6), tet_edge_end(dof - 6));
        lemma_form(3, x, y, z, i, j, d);
        lemma_by_diff(3, x, y, z, i, j, form(3, i, j, d));
    } else {
        let (a, b) = (face_first(dof - 12), face_second(dof - 12));
        lemma_pair(3, x, y, z, a, b);
        lemma_graded(x, y, z, face_third(dof - 12), d, pair(3, a, b));
    }
}

/// Component `d` of the tabulated curl of face function `n`.
pub open spec fn face_curl(n: int, d: int) -> Cubic {
    let diff = |i: int, j: int| lam(3, i).minus(lam(3, j));
    if n == 0 {
        if d == 0 {
            lam(3, 1)
        } else if d == 1 {
            lam(3, 2).negated()
        } else {
            Cubic::number(0)
        }
    } else if n == 1 {
        if d == 0 {
            lam(3, 1).negated()
        } else if d == 1 {
            Cubic::number(0)
        } else {
            lam(3, 3)
        }
    } else if n == 2 {
        if d == 0 {
            diff(0, 2)
        } else if d == 1 {
            lam(3, 2)
        } else {
            Cubic::number(0)
        }
    } else if n == 3 {
        if d == 0 {
            diff(3, 0)
        } else if d == 1 {
            Cubic::number(0)
        } else {
            lam(3, 3).negated()
        }
    } else if n == 4 {
        if d == 0 {
            lam(3, 1).negated()
        } else if d == 1 {
            diff(1, 0)
        } else {
            Cubic::number(0)
        }
    } else if n == 5 {
        if d == 0 {
            Cubic::number(0)
        } else if d == 1 {
            diff(0, 3)
        } else {
            lam(3, 3)
        }
    } else if n == 6 {
        if d == 0 {
            lam(3, 1)
        } else if d == 1 {
            Cubic::number(0)
        } else {
            diff(0, 1)
        }
    } else {
        if d == 0 {
            Cubic::number(0)
        } else if d == 1 {
            lam(3, 2).negated()
        } else {
            diff(2, 0)
        }
    }
}

proof fn lemma_face_curl<R: Real>(x: R, y: R, z: R, n: int, d: int)
    requires
        exact_ring::<R>(),
        exact_integers::<R>(),
        0 <= n < 8,
        0 <= d < 3,
    ensures
        face_curl(n, d).at(x, y, z) == tet_face_curl(x, y, z, n, d),
{
    lemma_number(x, y, z, 0);
    lemma_int_units::<R>();
    lemma_lam(3, x, y, z, 0);
    lemma_lam(3, x, y, z, 1);
    lemma_lam(3, x, y, z, 2);
    lemma_lam(3, x, y, z, 3);
    lemma_difference_value(x, y, z, lam(3, 0), lam(3, 1));
    lemma_difference_value(x, y, z, lam(3, 0), lam(3, 2));
    lemma_difference_value(x, y, z, lam(3, 0), lam(3, 3));
    lemma_difference_value(x, y, z, lam(3, 1), lam(3, 0));
    lemma_difference_value(x, y, z, lam(3, 2), lam(3, 0));
    lemma_difference_value(x, y, z, lam(3, 3), lam(3, 0));
}

/// Component `d` of the tabulated curl of edge element function `dof` on the tetrahedron.
pub open spec fn tet_nedelec_curl_cubic(dof: int, d: int) -> Cubic {
    let (a, b) = (next_axis(d), last_axis(d));
    if dof < 6 {
        form_curl(tet_edge_start(dof), tet_edge_end(dof), a, b)
    } else if dof < 12 {
        let (i, j) = (tet_edge_start(dof - 6), tet_edge_end(dof - 6));
        twist(3, i, j, a, b).plus(by_diff(3, i, j, form_curl(i, j, a, b)))
    } else {
        face_curl(dof - 12, d)
    }
}

proof fn lemma_tet_curl_value<R: Real>(x: R, y: R, z: R, dof: int, d: int)
    requires
        exact_ring::<R>(),
        exact_integers::<R>(),
        0 <= dof < 20,
        0 <= d < 3,
    ensures
        tet_nedelec_curl(x, y, z, dof, d) == tet_nedelec_curl_cubic(dof, d).at(x, y, z),
{
    let (a, b) = (next_axis(d), last_axis(d));
    if dof < 6 {
        lemma_form_curl(x, y, z, tet_edge_start(dof), tet_edge_end(dof), a, b);
    } else if dof < 12 {
        let (i, j) = (tet_edge_start(dof - 6), tet_edge_end(dof - 6));
        let (t, c) = (twist(3, i, j, a, b), form_curl(i, j, a, b));
        lemma_form(3, x, y, z, i, j, a);
        lemma_form(3, x, y, z, i, j, b);
        lemma_turned(x, y, z, i, j, a, b, form(3, i, j, a), form(3, i, j, b));
        lemma_form_curl(x, y, z, i, j, a, b);
        lemma_by_diff(3, x, y, z, i, j, c);
        lemma_sum_value(x, y, z, t, by_diff(3, i, j, c));
    } else {
        lemma_face_curl(x, y, z, dof - 12, d);
    }
}

/// Component `d` of the curl of edge element function `dof`, from the coefficients.
pub open spec fn tet_curl_component(dof: int, d: int) -> Cubic {
    tet_nedelec_cubic(dof, last_axis(d)).slope(next_axis(d)).minus(
        tet_nedelec_cubic(dof, next_axis(d)).slope(last_axis(d)),
    )
}

#[verifier::spinoff_prover]
proof fn lemma_tet_curl_coefficients(dof: int, d: int)
    requires
        0 <= dof < 20,
        0 <= d < 3,
    ensures
        tet_nedelec_curl_cubic(dof, d) == tet_curl_component(dof, d),
{
    let n = if dof < 6 {
        dof
    } else if dof < 12 {
        dof - 6
    } else {
        dof - 12
    };
    if d == 0 {
        if n == 0 {
        } else if n == 1 {
        } else if n == 2 {
        } else if n == 3 {
        } else if n == 4 {
        } else if n == 5 {
        }
    } else if d == 1 {
        if n == 0 {
        } else if n == 1 {
        } else if n == 2 {
        } else if n == 3 {
        } else if n == 4 {
        } else if n == 5 {
        }
    } else {
        if n == 0 {
        } else if n == 1 {
        } else if n == 2 {
        } else if n == 3 {
        } else if n == 4 {
        } else if n == 5 {
        }
    }
}

/// The tabulated curl on the tetrahedron is the curl of the function: component `d` is the
/// derivative of the component before `d` along the axis after it, less the derivative of the
/// component after `d` along the axis before it, in cyclic order.
pub proof fn law_tet_curl_is_the_curl<R: Real>(x: R, y: R, z: R, dof: int, d: int)
    requires
        exact_ring::<R>(),
        exact_integers::<R>(),
        0 <= dof < 20,
        0 <= d < 3,
    ensures
        tet_nedelec_curl(x, y, z, dof, d) == tet_curl_component(dof, d).at(x, y, z),
{
    lemma_tet_curl_value(x, y, z, dof, d);
    lemma_tet_curl_coefficients(dof, d);
}

// ── face elements on the tetrahedron ────────────────────────────────────────

/// Component `d` of face element function `dof` on the tetrahedron.
pub open spec fn tet_rt_cubic(dof: int, d: int) -> Cubic {
    if dof < 4 {
        twice(offset(dof, d))
    } else if dof < 12 {
        by_lam(3, moment_factor(dof - 4), twice(offset(moment_vertex(dof - 4), d)))
    } else {
        face_curl(dof - 12, d)
    }
}

/// The functions on the tetrahedron are values of polynomials.
pub proof fn law_tet_face_functions_are_cubics<R: Real>(x: R, y: R, z: R, dof: int, d: int)
    requires
        exact_ring::<R>(),
        exact_integers::<R>(),
        0 <= dof < 20,
        0 <= d < 3,
    ensures
        tet_rt_value(x, y, z, dof, d) == tet_rt_cubic(dof, d).at(x, y, z),
{
    if dof < 4 {
        lemma_offset(x, y, z, dof, d);
    } else if dof < 12 {
        let (i, k) = (moment_factor(dof - 4), moment_vertex(dof - 4));
        lemma_offset(x, y, z, k, d);
        lemma_by_lam(3, x, y, z, i, twice(offset(k, d)));
    } else {
        lemma_face_curl(x, y, z, dof - 12, d);
    }
}

/// The divergence of face element function `dof`, from the coefficients.
pub open spec fn tet_divergence(dof: int) -> Cubic {
    tet_rt_cubic(dof, 0).slope(0).plus(tet_rt_cubic(dof, 1).slope(1)).plus(
        tet_rt_cubic(dof, 2).slope(2),
    )
}

/// The tabulated divergence of face element function `dof` on the tetrahedron.
pub open spec fn tet_rt_div_cubic(dof: int) -> Cubic {
    if dof < 4 {
        Cubic::number(6)
    } else if dof < 12 {
        twice(twice(twice(lam(3, moment_factor(dof - 4)))))
    } else {
        Cubic::number(0)
    }
}

#[verifier::spinoff_prover]
proof fn lemma_tet_div_coefficients(dof: int)
    requires
        0 <= dof < 20,
    ensures
        tet_rt_div_cubic(dof) == tet_divergence(dof),
{
    if dof < 4 {
    } else if dof < 12 {
        let n = dof - 4;
        if n == 0 {
        } else if n == 1 {
        } else if n == 2 {
        } else if n == 3 {
        } else if n == 4 {
        } else if n == 5 {
        } else if n == 6 {
        }
    } else {
        let n = dof - 12;
        if n == 0 {
        } else if n == 1 {
        } else if n == 2 {
        } else if n == 3 {
        } else if n == 4 {
        } else if n == 5 {
        } else if n == 6 {
        }
    }
}

/// The tabulated divergence on the tetrahedron is the divergence of the function: the sum of the
/// derivatives of its components along their own axes.
pub proof fn law_tet_divergence_is_the_divergence<R: Real>(x: R, y: R, z: R, dof: int)
    requires
        exact_ring::<R>(),
        exact_integers::<R>(),
        0 <= dof < 20,
    ensures
        tet_rt_div(x, y, z, dof) == tet_divergence(dof).at(x, y, z),
{
    lemma_tet_div_coefficients(dof);
    if dof < 4 {
        lemma_number(x, y, z, 6);
    } else if dof < 12 {
        let i = moment_factor(dof - 4);
        lemma_lam(3, x, y, z, i);
        lemma_twice(x, y, z, lam(3, i));
    } else {
        lemma_number(x, y, z, 0);
        lemma_int_units::<R>();
    }
}

} // verus!
