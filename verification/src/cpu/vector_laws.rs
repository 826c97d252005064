//! Laws of the edge and face elements in exact arithmetic.

use vstd::prelude::*;

#[allow(unused_imports)]
use crate::cpu::vector_shapes::{
    face_first, face_second, face_third, tet_dlam, tet_edge_end, tet_edge_form, tet_edge_start,
    tet_lam, tet_nedelec_value, tet_rt_value, tri_bubble, tri_dlam, tri_edge_end, tri_edge_form,
    tri_edge_start, tri_lam, tri_nedelec_curl, tri_nedelec_value, tri_rt_value,
};
#[allow(unused_imports)]
use crate::exact::{
    exact_integers, lemma_int_negated, lemma_int_units, lemma_minus_flip, lemma_minus_plus,
    lemma_minus_self, lemma_negated_twice,
};
use crate::scalar::Real;
#[allow(unused_imports)]
use crate::scalar::{
    exact_ring, lemma_distribute, lemma_minus, lemma_negated, lemma_negated_unique,
    lemma_plus_assoc, lemma_plus_comm, lemma_plus_cross, lemma_plus_zero, lemma_times_negated,
    lemma_times_one, lemma_times_zero,
};

verus! {

/// Minus one.
pub proof fn lemma_minus_one<R: Real>(a: R)
    requires
        exact_ring::<R>(),
        exact_integers::<R>(),
    ensures
        R::int_val(-1) == R::one_val().negated(),
        a.times(R::int_val(-1)) == a.negated(),
        R::int_val(-1).times(a) == a.negated(),
{
    lemma_int_negated::<R>(1);
    lemma_int_units::<R>();
    lemma_times_negated(a, R::one_val());
    lemma_times_negated(R::one_val(), a);
    lemma_times_one(a);
}

/// The negation of zero.
proof fn lemma_zero_negated<R: Real>()
    requires
        exact_ring::<R>(),
    ensures
        R::zero_val().negated() == R::zero_val(),
{
    lemma_plus_zero(R::zero_val());
    lemma_negated_unique(R::zero_val(), R::zero_val());
}

// ── edge elements ───────────────────────────────────────────────────────────

/// The higher functions of an edge vanish where the coordinates of its ends agree, in particular
/// at its midpoint: on the triangle those of second and third order, on the tetrahedron those of
/// second order.
pub proof fn law_edge_functions_vanish_at_midpoints<R: Real>(x: R, y: R, z: R, e: int, d: int)
    requires
        exact_ring::<R>(),
    ensures
        0 <= e < 3 && tri_lam(x, y, tri_edge_start(e)) == tri_lam(x, y, tri_edge_end(e)) ==> {
            &&& tri_nedelec_value(x, y, 3 + e, d) == R::zero_val()
            &&& tri_nedelec_value(x, y, 8 + e, d) == R::zero_val()
        },
        0 <= e < 6 && tet_lam(x, y, z, tet_edge_start(e)) == tet_lam(x, y, z, tet_edge_end(e))
            ==> tet_nedelec_value(x, y, z, 6 + e, d) == R::zero_val(),
{
    if 0 <= e < 3 {
        let (i, j) = (tri_edge_start(e), tri_edge_end(e));
        lemma_minus_self(tri_lam(x, y, i));
        lemma_times_zero(tri_edge_form(x, y, i, j, d));
        lemma_times_zero(R::zero_val());
    }
    if 0 <= e < 6 {
        let (i, j) = (tet_edge_start(e), tet_edge_end(e));
        lemma_minus_self(tet_lam(x, y, z, i));
        lemma_times_zero(tet_edge_form(x, y, z, i, j, d));
    }
}

/// Component `d` of the vector from the start to the end of edge `e` of the triangle.
pub open spec fn tri_tangent<R: Real>(e: int, d: int) -> R {
    let (i, j) = (tri_edge_start(e), tri_edge_end(e));
    if j == d + 1 {
        R::one_val()
    } else if i == d + 1 {
        R::int_val(-1)
    } else {
        R::zero_val()
    }
}

/// The vertex of the triangle that is not on edge `e`.
pub open spec fn tri_opposite(e: int) -> int {
    if e == 0 {
        2
    } else {
        e - 1
    }
}

/// Functions of the triangle that belong to its interior.
pub open spec fn tri_interior(dof: int) -> bool {
    dof == 6 || dof == 7 || 11 <= dof < 15
}

/// The interior functions of the triangle have no component along an edge, on that edge.
pub proof fn law_face_functions_vanish_along_edges<R: Real>(x: R, y: R, dof: int, e: int)
    requires
        exact_ring::<R>(),
        exact_integers::<R>(),
        tri_interior(dof),
        0 <= e < 3,
        tri_lam(x, y, tri_opposite(e)) == R::zero_val(),
    ensures
        tri_nedelec_value(x, y, dof, 0).times(tri_tangent(e, 0)).plus(
            tri_nedelec_value(x, y, dof, 1).times(tri_tangent(e, 1)),
        ) == R::zero_val(),
{
    let zero = R::zero_val();
    let (l0, l1, l2) = (tri_lam(x, y, 0), tri_lam(x, y, 1), tri_lam(x, y, 2));
    lemma_times_zero(l0);
    lemma_times_zero(l1);
    lemma_times_zero(l2);
    lemma_times_zero(l0.times(l0));
    lemma_times_zero(l0.times(l1));
    lemma_times_zero(zero);
    lemma_plus_zero(zero);
    let (v0, v1) = (tri_nedelec_value(x, y, dof, 0), tri_nedelec_value(x, y, dof, 1));
    lemma_times_zero(R::int_val(-1));
    lemma_times_zero(R::one_val());
    lemma_times_zero(v0);
    lemma_times_zero(v1);
    if dof == 6 || dof >= 13 {
        // along the edge the factor of the gradient is not differentiated
        lemma_times_zero(l0.times(l0).times(l1));
        lemma_times_zero(l0.times(l1).times(l1));
    } else if dof == 7 {
        lemma_times_zero(l0.times(l2));
    }
}

/// Component `d` of the vector from vertex `i` to vertex `j` of the tetrahedron.
pub open spec fn tet_tangent<R: Real>(i: int, j: int, d: int) -> R {
    if j == d + 1 {
        R::one_val()
    } else if i == d + 1 {
        R::int_val(-1)
    } else {
        R::zero_val()
    }
}

/// The face functions of the tetrahedron have no component along an edge, on that edge.
pub proof fn law_tet_face_functions_vanish_along_edges<R: Real>(
    x: R,
    y: R,
    z: R,
    dof: int,
    e: int,
)
    requires
        exact_ring::<R>(),
        exact_integers::<R>(),
        12 <= dof < 20,
        0 <= e < 6,
        forall|k: int|
            0 <= k < 4 && k != tet_edge_start(e) && k != tet_edge_end(e) ==> #[trigger] tet_lam(
                x,
                y,
                z,
                k,
            ) == R::zero_val(),
    ensures
        tet_nedelec_value(x, y, z, dof, 0).times(tet_tangent(tet_edge_start(e), tet_edge_end(e), 0)).plus(
            tet_nedelec_value(x, y, z, dof, 1).times(
                tet_tangent(tet_edge_start(e), tet_edge_end(e), 1),
            ),
        ).plus(
            tet_nedelec_value(x, y, z, dof, 2).times(
                tet_tangent(tet_edge_start(e), tet_edge_end(e), 2),
            ),
        ) == R::zero_val(),
{
    let zero = R::zero_val();
    let (i, j) = (tet_edge_start(e), tet_edge_end(e));
    let n = dof - 12;
    let (a, b, c) = (face_first(n), face_second(n), face_third(n));
    let (la, lb) = (tet_lam(x, y, z, a), tet_lam(x, y, z, b));
    let s = la.times(lb);
    lemma_times_zero(la);
    lemma_times_zero(lb);
    lemma_times_zero(s);
    lemma_times_zero(zero);
    lemma_times_zero(R::one_val());
    lemma_times_zero(R::int_val(-1));
    lemma_plus_zero(zero);
    if (a == i || a == j) && (b == i || b == j) {
        // the gradient is that of a vertex off the edge
        assert(c != i && c != j);
        assert(tet_tangent::<R>(i, j, c - 1) == zero);
        lemma_times_zero(s.times(R::one_val()));
    } else {
        assert(s == zero);
        lemma_times_zero(R::zero_val());
    }
}

/// The curl of a lowest-order function on the triangle is two everywhere.
pub proof fn law_lowest_curl_is_two<R: Real>(x: R, y: R, dof: int)
    requires
        exact_ring::<R>(),
        exact_integers::<R>(),
        0 <= dof < 3,
    ensures
        tri_nedelec_curl(x, y, dof) == R::int_val(2),
{
    let (zero, one, m) = (R::zero_val(), R::one_val(), R::int_val(-1));
    lemma_minus_one(one);
    lemma_minus_one(m);
    lemma_times_zero(m);
    lemma_times_zero(one);
    lemma_times_zero(zero);
    lemma_times_one(one);
    lemma_times_one(m);
    lemma_negated_twice(one);
    lemma_zero_negated::<R>();
    lemma_minus(zero, m);
    lemma_minus(one, zero);
    lemma_minus(zero, zero);
    lemma_minus(m, zero);
    lemma_plus_zero(one);
    lemma_plus_zero(zero);
    lemma_times_one(R::int_val(2));
}

// ── face elements ───────────────────────────────────────────────────────────

/// One where `m` is vertex `k`.
pub open spec fn at_vertex<R: Real>(k: int, m: int) -> R {
    if k == m {
        R::one_val()
    } else {
        R::zero_val()
    }
}

/// The flux of a lowest-order face function across the lines on which coordinate `m` is constant.
/// On the edge opposite to vertex `m`, where the coordinate is zero, it vanishes for the other
/// two functions and is of unit size for function `m`.
pub proof fn law_lowest_flux<R: Real>(x: R, y: R, k: int, m: int)
    requires
        exact_ring::<R>(),
        exact_integers::<R>(),
        0 <= k < 3,
        0 <= m < 3,
    ensures
        tri_rt_value(x, y, k, 0).times(tri_dlam(m, 0)).plus(
            tri_rt_value(x, y, k, 1).times(tri_dlam(m, 1)),
        ) == tri_lam(x, y, m).minus(at_vertex(k, m)),
{
    let (zero, one) = (R::zero_val(), R::one_val());
    let (a, b) = (at_vertex::<R>(k, 1), at_vertex::<R>(k, 2));
    let (u, v) = (x.minus(a), y.minus(b));
    lemma_minus_one(u);
    lemma_minus_one(v);
    lemma_times_one(u);
    lemma_times_one(v);
    lemma_times_zero(u);
    lemma_times_zero(v);
    lemma_plus_zero(u);
    lemma_plus_zero(v);
    if m == 0 {
        // (a - x) + (b - y) == (1 - x - y) - (1 - a - b)
        lemma_minus_flip(a, x);
        lemma_minus_flip(b, y);
        let (nx, ny) = (x.negated(), y.negated());
        lemma_minus(a, x);
        lemma_minus(b, y);
        lemma_plus_cross(a, nx, b, ny);
        let l = tri_lam(x, y, 0);
        lemma_minus(one, x);
        lemma_minus(one.minus(x), y);
        lemma_plus_assoc(one, nx, ny);
        lemma_plus_zero(zero);
        lemma_plus_zero(one);
        lemma_zero_negated::<R>();
        lemma_minus(l, one);
        lemma_minus(l, zero);
        lemma_plus_zero(l);
        lemma_plus_comm(one, nx.plus(ny));
        lemma_minus_plus(nx.plus(ny), one);
        lemma_minus(nx.plus(ny).plus(one), one);
        lemma_plus_zero(nx.plus(ny));
    }
}

/// The flux of a lowest-order face function on the tetrahedron across the planes on which
/// coordinate `m` is constant. On the face opposite to vertex `m` it vanishes for the other
/// functions and is constant for function `m`.
pub proof fn law_tet_lowest_flux<R: Real>(x: R, y: R, z: R, k: int, m: int)
    requires
        exact_ring::<R>(),
        exact_integers::<R>(),
        0 <= k < 4,
        0 <= m < 4,
    ensures
        tet_rt_value(x, y, z, k, 0).times(tet_dlam(m, 0)).plus(
            tet_rt_value(x, y, z, k, 1).times(tet_dlam(m, 1)),
        ).plus(tet_rt_value(x, y, z, k, 2).times(tet_dlam(m, 2))) == R::int_val(2).times(
            tet_lam(x, y, z, m).minus(at_vertex(k, m)),
        ),
{
    let (zero, one, two) = (R::zero_val(), R::one_val(), R::int_val(2));
    let (a, b, c) = (at_vertex::<R>(k, 1), at_vertex::<R>(k, 2), at_vertex::<R>(k, 3));
    let (u, v, w) = (x.minus(a), y.minus(b), z.minus(c));
    let (tu, tv, tw) = (two.times(u), two.times(v), two.times(w));
    lemma_times_one(tu);
    lemma_times_one(tv);
    lemma_times_one(tw);
    lemma_times_zero(tu);
    lemma_times_zero(tv);
    lemma_times_zero(tw);
    lemma_plus_zero(tu);
    lemma_plus_zero(tv);
    lemma_plus_zero(tw);
    lemma_plus_zero(zero);
    if m == 0 {
        lemma_minus_one(tu);
        lemma_minus_one(tv);
        lemma_minus_one(tw);
        lemma_times_negated(two, u);
        lemma_times_negated(two, v);
        lemma_times_negated(two, w);
        let (nu, nv, nw) = (u.negated(), v.negated(), w.negated());
        lemma_distribute(two, nu, nv);
        lemma_distribute(two, nu.plus(nv), nw);
        // (a - x) + (b - y) + (c - z) == (1 - x - y - z) - (1 - a - b - c)
        lemma_minus_flip(a, x);
        lemma_minus_flip(b, y);
        lemma_minus_flip(c, z);
        let (nx, ny, nz) = (x.negated(), y.negated(), z.negated());
        lemma_minus(a, x);
        lemma_minus(b, y);
        lemma_minus(c, z);
        lemma_plus_cross(a, nx, b, ny);
        lemma_plus_cross(a.plus(b), nx.plus(ny), c, nz);
        let s = nx.plus(ny).plus(nz);
        let l = tet_lam(x, y, z, 0);
        lemma_minus(one, x);
        lemma_minus(one.minus(x), y);
        lemma_minus(one.minus(x).minus(y), z);
        lemma_plus_assoc(one, nx, ny);
        lemma_plus_assoc(one, nx.plus(ny), nz);
        assert(l == one.plus(s));
        lemma_plus_zero(one);
        lemma_zero_negated::<R>();
        lemma_minus(l, zero);
        lemma_plus_zero(l);
        lemma_plus_comm(one, s);
        lemma_minus_plus(s, one);
        lemma_plus_zero(s);
    }
}

/// The interior face functions of the triangle are the interior edge functions turned by a right
/// angle.
pub proof fn law_interior_is_rotated<R: Real>(x: R, y: R, dof: int)
    requires
        exact_ring::<R>(),
        exact_integers::<R>(),
        tri_interior(dof),
    ensures
        tri_rt_value(x, y, dof, 0) == tri_nedelec_value(x, y, dof, 1).negated(),
        tri_rt_value(x, y, dof, 1) == tri_nedelec_value(x, y, dof, 0),
{
    let (l0, l1, l2) = (tri_lam(x, y, 0), tri_lam(x, y, 1), tri_lam(x, y, 2));
    let b = tri_bubble(x, y);
    lemma_times_negated(l0, l1);
    lemma_times_one(l0.times(l1));
    lemma_times_zero(l0.times(l1));
    lemma_times_one(l0.times(l2));
    lemma_times_zero(l0.times(l2));
    lemma_zero_negated::<R>();
    lemma_minus_one(b);
    lemma_negated_twice(b);
    lemma_times_one(b);
    lemma_times_zero(b);
    lemma_times_one(l0.times(l0).times(l1));
    lemma_times_zero(l0.times(l0).times(l1));
    lemma_times_one(l0.times(l1).times(l1));
    lemma_times_zero(l0.times(l1).times(l1));
}

/// The interior face functions of the triangle have no flux through an edge.
pub proof fn law_interior_flux_vanishes<R: Real>(x: R, y: R, dof: int, m: int)
    requires
        exact_ring::<R>(),
        exact_integers::<R>(),
        tri_interior(dof),
        0 <= m < 3,
        tri_lam(x, y, m) == R::zero_val(),
    ensures
        tri_rt_value(x, y, dof, 0).times(tri_dlam(m, 0)).plus(
            tri_rt_value(x, y, dof, 1).times(tri_dlam(m, 1)),
        ) == R::zero_val(),
{
    let zero = R::zero_val();
    let (l0, l1, l2) = (tri_lam(x, y, 0), tri_lam(x, y, 1), tri_lam(x, y, 2));
    lemma_times_zero(l0);
    lemma_times_zero(l1);
    lemma_times_zero(l2);
    lemma_times_zero(l0.negated());
    lemma_times_zero(l0.times(l0));
    lemma_times_zero(l0.times(l1));
    lemma_zero_negated::<R>();
    lemma_times_zero(R::int_val(-1));
    lemma_times_zero(R::one_val());
    lemma_times_zero(zero);
    lemma_plus_zero(zero);
    let (v0, v1) = (tri_rt_value(x, y, dof, 0), tri_rt_value(x, y, dof, 1));
    lemma_times_zero(v0);
    lemma_times_zero(v1);
}

/// The vertex opposite to the face of the interior function `n` of the tetrahedron.
pub open spec fn tet_own_face(n: int) -> int {
    6 - face_first(n) - face_second(n) - face_third(n)
}

/// The interior functions of the tetrahedron, curls of face functions, have no flux through the
/// faces other than their own.
pub proof fn law_tet_interior_flux_vanishes<R: Real>(x: R, y: R, z: R, dof: int, m: int)
    requires
        exact_ring::<R>(),
        exact_integers::<R>(),
        12 <= dof < 20,
        0 <= m < 4,
        m != tet_own_face(dof - 12),
        tet_lam(x, y, z, m) == R::zero_val(),
    ensures
        tet_rt_value(x, y, z, dof, 0).times(tet_dlam(m, 0)).plus(
            tet_rt_value(x, y, z, dof, 1).times(tet_dlam(m, 1)),
        ).plus(tet_rt_value(x, y, z, dof, 2).times(tet_dlam(m, 2))) == R::zero_val(),
{
    let zero = R::zero_val();
    let n = dof - 12;
    let (v0, v1, v2) = (
        tet_rt_value(x, y, z, dof, 0),
        tet_rt_value(x, y, z, dof, 1),
        tet_rt_value(x, y, z, dof, 2),
    );
    lemma_times_zero(v0);
    lemma_times_zero(v1);
    lemma_times_zero(v2);
    lemma_times_one(v0);
    lemma_times_one(v1);
    lemma_times_one(v2);
    lemma_zero_negated::<R>();
    lemma_plus_zero(zero);
    lemma_plus_zero(v0);
    lemma_plus_zero(v1);
    lemma_plus_zero(v2);
    if m == 0 {
        let l = tet_lam(x, y, z, 0);
        lemma_minus_one(v0);
        lemma_minus_one(v1);
        lemma_minus_one(v2);
        assert(n >= 2);
        let (lb, lc) = (tet_lam(x, y, z, 1), tet_lam(x, y, z, 2));
        let ld = tet_lam(x, y, z, 3);
        lemma_pair_cancels(l, lb);
        lemma_pair_cancels(l, lc);
        lemma_pair_cancels(l, ld);
        lemma_plus_zero(v0.negated());
        lemma_plus_zero(v1.negated());
        lemma_plus_zero(v2.negated());
    }
}

/// With `l` zero, a coordinate cancels its difference from `l`.
proof fn lemma_pair_cancels<R: Real>(l: R, a: R)
    requires
        exact_ring::<R>(),
        l == R::zero_val(),
    ensures
        l.minus(a).negated().plus(a.negated()) == R::zero_val(),
        a.negated().plus(l.minus(a).negated()) == R::zero_val(),
        a.minus(l).negated().plus(a.negated().negated()) == R::zero_val(),
        a.negated().negated().plus(a.minus(l).negated()) == R::zero_val(),
{
    lemma_minus(l, a);
    lemma_minus(a, l);
    lemma_plus_zero(a.negated());
    lemma_zero_negated::<R>();
    lemma_plus_zero(a);
    lemma_negated_twice(a);
    lemma_negated(a);
}

} // verus!
