//! Tangential components of the edge elements along edges, normal components of the face elements
//! on faces.

use vstd::prelude::*;

#[allow(unused_imports)]
use crate::cpu::vector_laws::{at_vertex, law_lowest_flux, law_tet_lowest_flux};
#[allow(unused_imports)]
use crate::cpu::vector_shapes::{
    tet_dlam, tet_edge_form, tet_lam, tet_nedelec_value, tet_rt_value, tri_dlam, tri_edge_form,
    tri_lam, tri_nedelec_value, tri_rt_value,
};
#[allow(unused_imports)]
use crate::exact::{
    exact_integers, lemma_distribute_minus, lemma_int_negated, lemma_int_plus, lemma_int_times,
    lemma_int_units, lemma_minus_flip, lemma_minus_plus, lemma_minus_zero, lemma_negated_sum,
    lemma_negated_twice,
};
use crate::scalar::Real;
#[allow(unused_imports)]
use crate::scalar::{
    exact_ring, lemma_distribute, lemma_minus, lemma_plus_comm, lemma_plus_cross, lemma_plus_zero,
    lemma_times_assoc, lemma_times_negated, lemma_times_one, lemma_times_zero,
};

verus! {

/// One if the two numbers are equal, else zero.
pub open spec fn equal_to(i: int, j: int) -> int {
    if i == j {
        1
    } else {
        0
    }
}

/// Component `d` of the vector from vertex `a` to vertex `b`; vertex `k > 0` lies at distance one
/// along axis `k − 1`.
pub open spec fn step(a: int, b: int, d: int) -> int {
    equal_to(b, d + 1) - equal_to(a, d + 1)
}

/// A vector paired with a vector of two integers.
pub open spec fn along2<R: Real>(v0: R, v1: R, t0: int, t1: int) -> R {
    v0.times(R::int_val(t0)).plus(v1.times(R::int_val(t1)))
}

/// A vector paired with a vector of three integers.
pub open spec fn along3<R: Real>(v0: R, v1: R, v2: R, t0: int, t1: int, t2: int) -> R {
    along2(v0, v1, t0, t1).plus(v2.times(R::int_val(t2)))
}

/// The vertices of edge `e` of the triangle.
pub open spec fn tri_edge(e: int) -> (int, int) {
    if e == 0 {
        (0, 1)
    } else if e == 1 {
        (1, 2)
    } else {
        (2, 0)
    }
}

/// The vertices of edge `e` of the tetrahedron.
pub open spec fn tet_edge(e: int) -> (int, int) {
    if e == 0 {
        (0, 1)
    } else if e == 1 {
        (0, 2)
    } else if e == 2 {
        (0, 3)
    } else if e == 3 {
        (1, 2)
    } else if e == 4 {
        (1, 3)
    } else {
        (2, 3)
    }
}

/// Derivative of barycentric coordinate `k` along axis `d`.
spec fn slope(k: int, d: int) -> int {
    if k == 0 {
        -1
    } else {
        equal_to(k, d + 1)
    }
}

/// `(a g − b h) t == a (g t) − b (h t)` for integers.
proof fn lemma_one_term<R: Real>(a: R, b: R, g: int, h: int, t: int)
    requires
        exact_ring::<R>(),
        exact_integers::<R>(),
    ensures
        a.times(R::int_val(g)).minus(b.times(R::int_val(h))).times(R::int_val(t)) == a.times(
            R::int_val(g * t),
        ).minus(b.times(R::int_val(h * t))),
{
    let (gr, hr, tr) = (R::int_val(g), R::int_val(h), R::int_val(t));
    lemma_distribute_minus(tr, a.times(gr), b.times(hr));
    lemma_times_assoc(a, gr, tr);
    lemma_times_assoc(b, hr, tr);
    lemma_int_times::<R>(g, t);
    lemma_int_times::<R>(h, t);
}

/// Sums of such differences.
proof fn lemma_two_terms<R: Real>(a: R, b: R, g: int, h: int, k: int, l: int)
    requires
        exact_ring::<R>(),
        exact_integers::<R>(),
    ensures
        a.times(R::int_val(g)).minus(b.times(R::int_val(h))).plus(
            a.times(R::int_val(k)).minus(b.times(R::int_val(l))),
        ) == a.times(R::int_val(g + k)).minus(b.times(R::int_val(h + l))),
{
    let (ag, bh, ak, bl) = (
        a.times(R::int_val(g)),
        b.times(R::int_val(h)),
        a.times(R::int_val(k)),
        b.times(R::int_val(l)),
    );
    lemma_minus(ag, bh);
    lemma_minus(ak, bl);
    lemma_plus_cross(ag, bh.negated(), ak, bl.negated());
    lemma_negated_sum(bh, bl);
    lemma_distribute(a, R::int_val(g), R::int_val(k));
    lemma_distribute(b, R::int_val(h), R::int_val(l));
    lemma_int_plus::<R>(g, k);
    lemma_int_plus::<R>(h, l);
    lemma_minus(ag.plus(ak), bh.plus(bl));
}

/// A slope times an integer.
proof fn lemma_slope_times(k: int, d: int, t: int)
    ensures
        slope(k, d) * t == if k == 0 {
            -t
        } else if k == d + 1 {
            t
        } else {
            0
        },
{
    let s = slope(k, d);
    assert(s == -1 ==> s * t == -t) by (nonlinear_arith);
    assert(s == 0 ==> s * t == 0) by (nonlinear_arith);
    assert(s == 1 ==> s * t == t) by (nonlinear_arith);
}

/// The edge form of vertices `i` and `j` along the edge from `a` to `b`, from the barycentric
/// coordinates of `i` and `j`.
proof fn lemma_form_along<R: Real>(u: R, v: R, i: int, j: int, a: int, b: int, dim: int)
    requires
        exact_ring::<R>(),
        exact_integers::<R>(),
        dim == 2 || dim == 3,
        0 <= i <= dim,
        0 <= j <= dim,
        0 <= a <= dim,
        0 <= b <= dim,
        i != j,
        a != b,
    ensures
        ({
            let w = |d: int|
                u.times(R::int_val(slope(j, d))).minus(v.times(R::int_val(slope(i, d))));
            let (g, h) = (equal_to(j, b) - equal_to(j, a), equal_to(i, b) - equal_to(i, a));
            let r = u.times(R::int_val(g)).minus(v.times(R::int_val(h)));
            &&& dim == 2 ==> along2(w(0), w(1), step(a, b, 0), step(a, b, 1)) == r
            &&& dim == 3 ==> along3(
                w(0),
                w(1),
                w(2),
                step(a, b, 0),
                step(a, b, 1),
                step(a, b, 2),
            ) == r
        }),
{
    let (t0, t1, t2) = (step(a, b, 0), step(a, b, 1), step(a, b, 2));
    let (g0, g1, g2) = (slope(j, 0), slope(j, 1), slope(j, 2));
    let (h0, h1, h2) = (slope(i, 0), slope(i, 1), slope(i, 2));
    lemma_slope_times(i, 0, t0);
    lemma_slope_times(i, 1, t1);
    lemma_slope_times(i, 2, t2);
    lemma_slope_times(j, 0, t0);
    lemma_slope_times(j, 1, t1);
    lemma_slope_times(j, 2, t2);
    lemma_one_term(u, v, g0, h0, t0);
    lemma_one_term(u, v, g1, h1, t1);
    lemma_two_terms(u, v, g0 * t0, h0 * t0, g1 * t1, h1 * t1);
    if dim == 2 {
        assert(g0 * t0 + g1 * t1 == equal_to(j, b) - equal_to(j, a));
        assert(h0 * t0 + h1 * t1 == equal_to(i, b) - equal_to(i, a));
    } else {
        lemma_one_term(u, v, g2, h2, t2);
        lemma_two_terms(u, v, g0 * t0 + g1 * t1, h0 * t0 + h1 * t1, g2 * t2, h2 * t2);
        assert(g0 * t0 + g1 * t1 + g2 * t2 == equal_to(j, b) - equal_to(j, a));
        assert(h0 * t0 + h1 * t1 + h2 * t2 == equal_to(i, b) - equal_to(i, a));
    }
}

/// Slopes of the barycentric coordinates are integers.
proof fn lemma_slopes<R: Real>(k: int, d: int)
    requires
        exact_integers::<R>(),
    ensures
        tri_dlam::<R>(k, d) == R::int_val(slope(k, d)),
        tet_dlam::<R>(k, d) == R::int_val(slope(k, d)),
{
    lemma_int_units::<R>();
}

/// `(1 − x) + x`.
proof fn lemma_rest<R: Real>(x: R, y: R)
    requires
        exact_ring::<R>(),
    ensures
        x.minus(y).plus(y) == x,
        y.plus(x.minus(y)) == x,
{
    lemma_minus_plus(x, y);
    lemma_plus_comm(y, x.minus(y));
}

/// An edge form along its own edge and along another one.
proof fn lemma_own_or_other<R: Real>(u: R, v: R, own: bool, g: int, h: int)
    requires
        exact_ring::<R>(),
        exact_integers::<R>(),
        own ==> g == 1 && h == -1 && u.plus(v) == R::one_val(),
        !own ==> (g == 0 || u == R::zero_val()) && (h == 0 || v == R::zero_val()),
    ensures
        u.times(R::int_val(g)).minus(v.times(R::int_val(h))) == if own {
            R::one_val()
        } else {
            R::zero_val()
        },
{
    lemma_int_units::<R>();
    let zero = R::zero_val();
    if own {
        lemma_int_negated::<R>(1);
        lemma_times_one(u);
        lemma_times_negated(v, R::one_val());
        lemma_times_one(v);
        lemma_minus(u, v.negated());
        lemma_negated_twice(v);
    } else {
        lemma_times_zero(u);
        lemma_times_zero(v);
        lemma_times_zero(R::int_val(g));
        lemma_times_zero(R::int_val(h));
        lemma_minus_zero(zero, zero);
    }
}

/// A common factor leaves a pairing.
proof fn lemma_common_factor<R: Real>(c: R, v0: R, v1: R, v2: R, t0: int, t1: int, t2: int)
    requires
        exact_ring::<R>(),
    ensures
        along2(c.times(v0), c.times(v1), t0, t1) == c.times(along2(v0, v1, t0, t1)),
        along3(c.times(v0), c.times(v1), c.times(v2), t0, t1, t2) == c.times(
            along3(v0, v1, v2, t0, t1, t2),
        ),
{
    let (a, b, d) = (R::int_val(t0), R::int_val(t1), R::int_val(t2));
    lemma_times_assoc(c, v0, a);
    lemma_times_assoc(c, v1, b);
    lemma_times_assoc(c, v2, d);
    lemma_distribute(c, v0.times(a), v1.times(b));
    lemma_distribute(c, along2(v0, v1, t0, t1), v2.times(d));
}

/// Along an edge of the triangle, on which the barycentric coordinate of the third vertex is zero,
/// the lowest edge function of that edge has the tangential component one and the others zero; the
/// functions of second and third order have the product of that with `λ_a − λ_b` and with its
/// square. The edges run from vertex 0 to 1, 1 to 2 and 2 to 0.
pub proof fn law_tri_edge_functions_along_edges<R: Real>(x: R, y: R, f: int, e: int)
    requires
        exact_ring::<R>(),
        exact_integers::<R>(),
        0 <= f < 3,
        0 <= e < 3,
        tri_lam(x, y, 3 - tri_edge(e).0 - tri_edge(e).1) == R::zero_val(),
    ensures
        ({
            let (a, b) = tri_edge(e);
            let (t0, t1) = (step(a, b, 0), step(a, b, 1));
            let at = |k: int|
                along2(tri_nedelec_value(x, y, k, 0), tri_nedelec_value(x, y, k, 1), t0, t1);
            let s = tri_lam(x, y, a).minus(tri_lam(x, y, b));
            &&& f == e ==> at(f) == R::one_val() && at(3 + f) == s && at(8 + f) == s.times(s)
            &&& f != e ==> at(f) == R::zero_val() && at(3 + f) == R::zero_val() && at(8 + f)
                == R::zero_val()
        }),
{
    let (a, b) = tri_edge(e);
    let (i, j) = tri_edge(f);
    let (u, v) = (tri_lam(x, y, i), tri_lam(x, y, j));
    let (t0, t1) = (step(a, b, 0), step(a, b, 1));
    lemma_slopes::<R>(i, 0);
    lemma_slopes::<R>(i, 1);
    lemma_slopes::<R>(j, 0);
    lemma_slopes::<R>(j, 1);
    lemma_form_along(u, v, i, j, a, b, 2);
    lemma_tri_total(x, y, e);
    let (g, h) = (equal_to(j, b) - equal_to(j, a), equal_to(i, b) - equal_to(i, a));
    lemma_own_or_other(u, v, f == e, g, h);
    let (w0, w1) = (tri_edge_form(x, y, i, j, 0), tri_edge_form(x, y, i, j, 1));
    let s = u.minus(v);
    lemma_common_factor(s, w0, w1, w0, t0, t1, 0);
    lemma_common_factor(s.times(s), w0, w1, w0, t0, t1, 0);
    lemma_times_one(s);
    lemma_times_one(s.times(s));
    lemma_times_zero(s);
    lemma_times_zero(s.times(s));
}

/// Along an edge the barycentric coordinates of its ends add up to one.
proof fn lemma_tri_total<R: Real>(x: R, y: R, e: int)
    requires
        exact_ring::<R>(),
        0 <= e < 3,
        tri_lam(x, y, 3 - tri_edge(e).0 - tri_edge(e).1) == R::zero_val(),
    ensures
        tri_lam(x, y, tri_edge(e).0).plus(tri_lam(x, y, tri_edge(e).1)) == R::one_val(),
{
    let one = R::one_val();
    let l = one.minus(x).minus(y);
    lemma_rest(one, x);
    lemma_rest(one.minus(x), y);
    lemma_plus_zero(l);
    lemma_plus_zero(x);
    lemma_plus_zero(y);
    lemma_plus_zero(one.minus(x));
    lemma_plus_comm(x, one.minus(x));
    // l + y == 1 − x and (1 − x) + x == 1
    if e == 0 {
        assert(l.plus(y) == l);
    } else if e == 1 {
        assert(one.minus(x) == y);
    } else {
        lemma_minus_plus(one, R::zero_val());
        lemma_plus_zero(one.minus(x));
        assert(one.minus(x) == one);
    }
}

/// Along an edge of the tetrahedron, on which the barycentric coordinates of the other two vertices
/// are zero, the lowest edge function of that edge has the tangential component one and the others
/// zero; the functions of second order have the product of that with `λ_a − λ_b`. The edges run from
/// vertex 0 to 1, 2 and 3, from 1 to 2 and 3, and from 2 to 3.
pub proof fn law_tet_edge_functions_along_edges<R: Real>(x: R, y: R, z: R, f: int, e: int)
    requires
        exact_ring::<R>(),
        exact_integers::<R>(),
        0 <= f < 6,
        0 <= e < 6,
        forall|k: int|
            0 <= k < 4 && k != tet_edge(e).0 && k != tet_edge(e).1 ==> #[trigger] tet_lam(
                x,
                y,
                z,
                k,
            ) == R::zero_val(),
    ensures
        ({
            let (a, b) = tet_edge(e);
            let (t0, t1, t2) = (step(a, b, 0), step(a, b, 1), step(a, b, 2));
            let at = |k: int|
                along3(
                    tet_nedelec_value(x, y, z, k, 0),
                    tet_nedelec_value(x, y, z, k, 1),
                    tet_nedelec_value(x, y, z, k, 2),
                    t0,
                    t1,
                    t2,
                );
            let s = tet_lam(x, y, z, a).minus(tet_lam(x, y, z, b));
            &&& f == e ==> at(f) == R::one_val() && at(6 + f) == s
            &&& f != e ==> at(f) == R::zero_val() && at(6 + f) == R::zero_val()
        }),
{
    let (a, b) = tet_edge(e);
    let (i, j) = tet_edge(f);
    let (u, v) = (tet_lam(x, y, z, i), tet_lam(x, y, z, j));
    let (t0, t1, t2) = (step(a, b, 0), step(a, b, 1), step(a, b, 2));
    lemma_slopes::<R>(i, 0);
    lemma_slopes::<R>(i, 1);
    lemma_slopes::<R>(i, 2);
    lemma_slopes::<R>(j, 0);
    lemma_slopes::<R>(j, 1);
    lemma_slopes::<R>(j, 2);
    lemma_form_along(u, v, i, j, a, b, 3);
    lemma_tet_total(x, y, z, e);
    let (g, h) = (equal_to(j, b) - equal_to(j, a), equal_to(i, b) - equal_to(i, a));
    lemma_own_or_other(u, v, f == e, g, h);
    let (w0, w1, w2) = (
        tet_edge_form(x, y, z, i, j, 0),
        tet_edge_form(x, y, z, i, j, 1),
        tet_edge_form(x, y, z, i, j, 2),
    );
    let s = u.minus(v);
    lemma_common_factor(s, w0, w1, w2, t0, t1, t2);
    lemma_times_one(s);
    lemma_times_zero(s);
}

/// Along an edge the barycentric coordinates of its ends add up to one.
proof fn lemma_tet_total<R: Real>(x: R, y: R, z: R, e: int)
    requires
        exact_ring::<R>(),
        0 <= e < 6,
        forall|k: int|
            0 <= k < 4 && k != tet_edge(e).0 && k != tet_edge(e).1 ==> #[trigger] tet_lam(
                x,
                y,
                z,
                k,
            ) == R::zero_val(),
    ensures
        tet_lam(x, y, z, tet_edge(e).0).plus(tet_lam(x, y, z, tet_edge(e).1)) == R::one_val(),
{
    let (one, zero) = (R::one_val(), R::zero_val());
    let (p, q) = (one.minus(x), one.minus(x).minus(y));
    let l = q.minus(z);
    assert(e >= 3 ==> tet_lam(x, y, z, 0) == zero);
    assert(e != 0 && e != 3 && e != 4 ==> tet_lam(x, y, z, 1) == zero);
    assert(e != 1 && e != 3 && e != 5 ==> tet_lam(x, y, z, 2) == zero);
    assert(e != 2 && e != 4 && e != 5 ==> tet_lam(x, y, z, 3) == zero);
    lemma_rest(one, x);
    lemma_rest(p, y);
    lemma_rest(q, z);
    lemma_plus_zero(l);
    lemma_plus_zero(q);
    lemma_plus_zero(p);
    lemma_plus_zero(x);
    lemma_plus_zero(y);
    lemma_plus_zero(z);
    lemma_plus_zero(one);
    lemma_minus_plus(one, zero);
    lemma_minus_plus(p, zero);
    lemma_minus_plus(q, zero);
    lemma_plus_zero(one.minus(zero));
    lemma_plus_zero(p.minus(zero));
    lemma_plus_zero(q.minus(zero));
    lemma_plus_comm(x, y);
    lemma_plus_comm(x, z);
    lemma_plus_comm(y, z);
}

// ── face elements ───────────────────────────────────────────────────────────

/// A vector paired with the gradient of barycentric coordinate `m` of the triangle, a normal of
/// the edge on which that coordinate is zero.
pub open spec fn tri_flux<R: Real>(x: R, y: R, dof: int, m: int) -> R {
    tri_rt_value(x, y, dof, 0).times(tri_dlam(m, 0)).plus(
        tri_rt_value(x, y, dof, 1).times(tri_dlam(m, 1)),
    )
}

/// A vector paired with the gradient of barycentric coordinate `m` of the tetrahedron, a normal of
/// the face on which that coordinate is zero.
pub open spec fn tet_flux<R: Real>(x: R, y: R, z: R, dof: int, m: int) -> R {
    tet_rt_value(x, y, z, dof, 0).times(tet_dlam(m, 0)).plus(
        tet_rt_value(x, y, z, dof, 1).times(tet_dlam(m, 1)),
    ).plus(tet_rt_value(x, y, z, dof, 2).times(tet_dlam(m, 2)))
}

/// The face functions of second and third order on the triangle that belong to the edge opposite
/// vertex `k` have the flux of the lowest one, `λ_m − δ_km`, times the difference of the barycentric
/// coordinates of the ends of that edge, and times its square: no flux through the other edges.
pub proof fn law_tri_higher_flux<R: Real>(x: R, y: R, k: int, m: int)
    requires
        exact_ring::<R>(),
        exact_integers::<R>(),
        0 <= k < 3,
        0 <= m < 3,
    ensures
        ({
            let lam = |i: int| tri_lam(x, y, i);
            let s = if k == 0 {
                lam(1).minus(lam(2))
            } else if k == 1 {
                lam(2).minus(lam(0))
            } else {
                lam(0).minus(lam(1))
            };
            let low = lam(m).minus(at_vertex(k, m));
            &&& tri_flux(x, y, k, m) == low
            &&& tri_flux(x, y, 3 + k, m) == s.times(low)
            &&& tri_flux(x, y, 8 + k, m) == s.times(s).times(low)
        }),
{
    law_lowest_flux(x, y, k, m);
    let lam = |i: int| tri_lam(x, y, i);
    let s = if k == 0 {
        lam(1).minus(lam(2))
    } else if k == 1 {
        lam(2).minus(lam(0))
    } else {
        lam(0).minus(lam(1))
    };
    let (v0, v1) = (tri_rt_value(x, y, k, 0), tri_rt_value(x, y, k, 1));
    lemma_factor_out(s, v0, v1, v0, tri_dlam(m, 0), tri_dlam(m, 1), tri_dlam(m, 0));
    lemma_factor_out(s.times(s), v0, v1, v0, tri_dlam(m, 0), tri_dlam(m, 1), tri_dlam(m, 0));
    // (λ_2 − λ_0)² == (λ_0 − λ_2)²
    lemma_minus_flip(lam(2), lam(0));
    let t = lam(0).minus(lam(2));
    lemma_times_negated(t, t.negated());
    lemma_times_negated(t, t);
    lemma_negated_twice(t.times(t));
}

/// A common factor leaves a flux.
proof fn lemma_factor_out<R: Real>(c: R, v0: R, v1: R, v2: R, a: R, b: R, d: R)
    requires
        exact_ring::<R>(),
    ensures
        c.times(v0).times(a).plus(c.times(v1).times(b)) == c.times(
            v0.times(a).plus(v1.times(b)),
        ),
        c.times(v0).times(a).plus(c.times(v1).times(b)).plus(c.times(v2).times(d)) == c.times(
            v0.times(a).plus(v1.times(b)).plus(v2.times(d)),
        ),
{
    lemma_times_assoc(c, v0, a);
    lemma_times_assoc(c, v1, b);
    lemma_times_assoc(c, v2, d);
    lemma_distribute(c, v0.times(a), v1.times(b));
    lemma_distribute(c, v0.times(a).plus(v1.times(b)), v2.times(d));
}

/// The vertex opposite the face of a second-order face function of the tetrahedron, and the vertex
/// of that face whose barycentric coordinate the function carries.
pub open spec fn tet_moment(n: int) -> (int, int) {
    if n == 0 {
        (0, 1)
    } else if n == 1 {
        (0, 2)
    } else if n == 2 {
        (1, 0)
    } else if n == 3 {
        (1, 2)
    } else if n == 4 {
        (2, 0)
    } else if n == 5 {
        (2, 1)
    } else if n == 6 {
        (3, 0)
    } else {
        (3, 1)
    }
}

/// The second-order face functions of the tetrahedron come in pairs, one pair for each face: their
/// flux is that of the lowest function of the face, `2 (λ_m − δ_km)`, times the barycentric
/// coordinate of one of its vertices.
pub proof fn law_tet_higher_flux<R: Real>(x: R, y: R, z: R, n: int, m: int)
    requires
        exact_ring::<R>(),
        exact_integers::<R>(),
        0 <= n < 8,
        0 <= m < 4,
    ensures
        ({
            let (k, i) = tet_moment(n);
            tet_flux(x, y, z, 4 + n, m) == tet_lam(x, y, z, i).times(
                R::int_val(2).times(tet_lam(x, y, z, m).minus(at_vertex(k, m))),
            )
        }),
{
    let (k, i) = tet_moment(n);
    law_tet_lowest_flux(x, y, z, k, m);
    let s = tet_lam(x, y, z, i);
    lemma_factor_out(
        s,
        tet_rt_value(x, y, z, k, 0),
        tet_rt_value(x, y, z, k, 1),
        tet_rt_value(x, y, z, k, 2),
        tet_dlam(m, 0),
        tet_dlam(m, 1),
        tet_dlam(m, 2),
    );
}

} // verus!
