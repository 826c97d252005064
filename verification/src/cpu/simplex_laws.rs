//! Laws of the shape functions on segments, triangles and tetrahedra in exact arithmetic.

use vstd::prelude::*;

#[allow(unused_imports)]
use crate::cpu::lagrange_laws::{
    distinct, law_lagrange_partition, law_line_slopes_sum_to_zero, line_products, line_slopes,
};
#[allow(unused_imports)]
use crate::cpu::simplex_shapes::{
    line_p1_slopes, line_p1_values, line_p2_slopes, line_p2_values, line_p3_nodes, line_p3_slopes,
    line_p3_values, tet_p1_slopes, tet_p1_values, tet_p2_slopes, tet_p2_values, tri_p1_slopes,
    tri_p1_values, tri_p2_slopes, tri_p2_values,
};
#[allow(unused_imports)]
use crate::exact::{
    exact_integers, lemma_distribute_minus, lemma_int_minus, lemma_int_negated, lemma_int_nonzero,
    lemma_int_plus, lemma_int_times, lemma_int_units, lemma_minus_chain, lemma_minus_flip,
    lemma_minus_plus, lemma_minus_self, lemma_negated_sum, lemma_negated_twice, lemma_plus_swap,
    lemma_quotient, lemma_times_swap,
};
use crate::scalar::Real;
#[allow(unused_imports)]
use crate::scalar::{
    exact_field, exact_ring, lemma_distribute, lemma_minus, lemma_negated, lemma_over,
    lemma_plus_assoc, lemma_plus_comm, lemma_plus_cross, lemma_plus_zero, lemma_sum_ext,
    lemma_times_assoc, lemma_times_comm, lemma_times_negated, lemma_times_one, lemma_times_zero,
    ratio_val, sum,
};

verus! {

/// The entries of a list.
pub open spec fn entries<R>(s: Seq<R>) -> spec_fn(int) -> R {
    |i: int| s[i]
}

/// The entries of direction `d` in a list with `dim` entries per function.
pub open spec fn along<R>(s: Seq<R>, dim: int, d: int) -> spec_fn(int) -> R {
    |i: int| s[i * dim + d]
}

/// What is left after one, two or three coordinates are taken from one.
proof fn lemma_barycentric<R: Real>(x: R, y: R, z: R)
    requires
        exact_ring::<R>(),
    ensures
        R::one_val().minus(x).plus(x) == R::one_val(),
        R::one_val().minus(x).minus(y).plus(x).plus(y) == R::one_val(),
        R::one_val().minus(x).minus(y).minus(z).plus(x).plus(y).plus(z) == R::one_val(),
{
    let one = R::one_val();
    lemma_minus_plus(one, x);
    let a = one.minus(x).minus(y);
    lemma_plus_swap(a, x, y);
    lemma_minus_plus(one.minus(x), y);
    let b = a.minus(z);
    lemma_plus_swap(b.plus(x), y, z);
    lemma_plus_swap(b, x, z);
    lemma_minus_plus(a, z);
}

/// The linear shape functions add up to one.
pub proof fn law_linear_partition<R: Real>(x: R, y: R, z: R)
    requires
        exact_ring::<R>(),
    ensures
        sum(2, entries(line_p1_values(x))) == R::one_val(),
        sum(3, entries(tri_p1_values(x, y))) == R::one_val(),
        sum(4, entries(tet_p1_values(x, y, z))) == R::one_val(),
{
    reveal_with_fuel(sum, 5);
    let one = R::one_val();
    lemma_barycentric(x, y, z);
    lemma_plus_zero(one.minus(x));
    lemma_plus_zero(one.minus(x).minus(y));
    lemma_plus_zero(one.minus(x).minus(y).minus(z));
}

/// The gradients of the linear shape functions add up to zero.
pub proof fn law_linear_slopes<R: Real>(x: R, y: R, z: R, d: int)
    requires
        exact_ring::<R>(),
        exact_integers::<R>(),
    ensures
        sum(2, entries(line_p1_slopes(x))) == R::zero_val(),
        0 <= d < 2 ==> sum(3, along(tri_p1_slopes(x, y), 2, d)) == R::zero_val(),
        0 <= d < 3 ==> sum(4, along(tet_p1_slopes(x, y, z), 3, d)) == R::zero_val(),
{
    reveal_with_fuel(sum, 5);
    let (zero, one) = (R::zero_val(), R::one_val());
    let m = R::int_val(-1);
    lemma_int_negated::<R>(1);
    lemma_int_units::<R>();
    lemma_negated(one);
    lemma_plus_zero(m);
    lemma_plus_zero(zero);
    lemma_plus_zero(one);
}

// ── quadratic shape functions ───────────────────────────────────────────────

/// The quadratic shape function of a vertex, by its barycentric coordinate.
pub open spec fn vertex_quadratic<R: Real>(a: R) -> R {
    a.times(R::int_val(2).times(a).minus(R::one_val()))
}

/// The quadratic shape function of an edge, by the coordinates of its ends.
pub open spec fn edge_quadratic<R: Real>(a: R, b: R) -> R {
    R::int_val(4).times(a).times(b)
}

/// Two vertices and the edge between them act as one vertex.
proof fn lemma_join<R: Real>(a: R, b: R)
    requires
        exact_ring::<R>(),
        exact_integers::<R>(),
    ensures
        vertex_quadratic(a).plus(vertex_quadratic(b)).plus(edge_quadratic(a, b))
            == vertex_quadratic(a.plus(b)),
{
    let (one, two, four) = (R::one_val(), R::int_val(2), R::int_val(4));
    let (ta, tb) = (two.times(a), two.times(b));
    let c = a.plus(b);
    // c (2c - 1) == c 2a + c 2b - c
    lemma_distribute(two, a, b);
    lemma_distribute_minus(c, ta.plus(tb), one);
    lemma_times_one(c);
    lemma_distribute(c, ta, tb);
    lemma_distribute(ta, a, b);
    lemma_distribute(tb, a, b);
    let (aa, ba, ab, bb) = (a.times(ta), b.times(ta), a.times(tb), b.times(tb));
    assert(c.times(two.times(c).minus(one)) == aa.plus(ba).plus(ab.plus(bb)).minus(c));
    // the vertices
    lemma_distribute_minus(a, ta, one);
    lemma_distribute_minus(b, tb, one);
    lemma_times_one(a);
    lemma_times_one(b);
    assert(vertex_quadratic(a) == aa.minus(a));
    assert(vertex_quadratic(b) == bb.minus(b));
    // the edge: 4 a b == b 2a + a 2b
    lemma_int_plus::<R>(2, 2);
    lemma_distribute(a, two, two);
    lemma_distribute(b, ta, ta);
    lemma_times_comm(ta, b);
    lemma_times_swap(two, a, b);
    lemma_times_comm(tb, a);
    assert(edge_quadratic(a, b) == ba.plus(ab));
    // ((aa - a) + (bb - b)) + (ba + ab) == ((aa + ba) + (ab + bb)) - (a + b)
    let (na, nb) = (a.negated(), b.negated());
    lemma_minus(aa, a);
    lemma_minus(bb, b);
    lemma_minus(aa.plus(ba).plus(ab.plus(bb)), c);
    lemma_negated_sum(a, b);
    lemma_shuffle(aa, na, bb, nb, ba, ab);
}

/// One reordering of six terms.
proof fn lemma_shuffle<R: Real>(a: R, b: R, c: R, d: R, e: R, f: R)
    requires
        exact_ring::<R>(),
    ensures
        a.plus(b).plus(c.plus(d)).plus(e.plus(f)) == a.plus(e).plus(f.plus(c)).plus(b.plus(d)),
{
    // left: (a + c) + (b + d) + (e + f)
    lemma_plus_cross(a, b, c, d);
    lemma_plus_swap(a.plus(c), b.plus(d), e.plus(f));
    lemma_plus_cross(a, c, e, f);
    lemma_plus_comm(c, f);
}

/// A vertex at one.
proof fn lemma_vertex_one<R: Real>()
    requires
        exact_ring::<R>(),
        exact_integers::<R>(),
    ensures
        vertex_quadratic(R::one_val()) == R::one_val(),
{
    let (one, two) = (R::one_val(), R::int_val(2));
    lemma_int_plus::<R>(1, 1);
    lemma_int_units::<R>();
    lemma_times_one(two);
    lemma_minus_plus(one, one);
    lemma_times_one(one);
}

/// Edges to a common vertex act as one edge.
proof fn lemma_join_edges<R: Real>(a: R, b: R, c: R)
    requires
        exact_ring::<R>(),
    ensures
        edge_quadratic(a, c).plus(edge_quadratic(b, c)) == edge_quadratic(a.plus(b), c),
{
    let four = R::int_val(4);
    lemma_distribute(four, a, b);
    lemma_distribute(c, four.times(a), four.times(b));
}

/// The vertices and edges of a triangle act as one vertex.
proof fn lemma_join_triangle<R: Real>(a: R, b: R, c: R)
    requires
        exact_ring::<R>(),
        exact_integers::<R>(),
    ensures
        vertex_quadratic(a).plus(vertex_quadratic(b)).plus(vertex_quadratic(c)).plus(
            edge_quadratic(a, b),
        ).plus(edge_quadratic(b, c)).plus(edge_quadratic(a, c)) == vertex_quadratic(
            a.plus(b).plus(c),
        ),
{
    let (va, vb, vc) = (vertex_quadratic(a), vertex_quadratic(b), vertex_quadratic(c));
    let (ab, bc, ac) = (edge_quadratic(a, b), edge_quadratic(b, c), edge_quadratic(a, c));
    lemma_plus_swap(va.plus(vb), vc, ab);
    lemma_join(a, b);
    let v = vertex_quadratic(a.plus(b));
    lemma_plus_assoc(v.plus(vc), bc, ac);
    lemma_plus_comm(bc, ac);
    lemma_join_edges(a, b, c);
    lemma_join(a.plus(b), c);
}

/// The quadratic shape functions on triangles and tetrahedra add up to one.
pub proof fn law_quadratic_partition<R: Real>(x: R, y: R, z: R)
    requires
        exact_ring::<R>(),
        exact_integers::<R>(),
    ensures
        sum(6, entries(tri_p2_values(x, y))) == R::one_val(),
        sum(10, entries(tet_p2_values(x, y, z))) == R::one_val(),
{
    reveal_with_fuel(sum, 11);
    lemma_barycentric(x, y, z);
    lemma_vertex_one::<R>();
    let l = R::one_val().minus(x).minus(y);
    lemma_plus_zero(vertex_quadratic(l));
    lemma_join_triangle(l, x, y);
    let k = l.minus(z);
    let (vk, vx, vy, vz) = (
        vertex_quadratic(k),
        vertex_quadratic(x),
        vertex_quadratic(y),
        vertex_quadratic(z),
    );
    let (kx, xy, ky) = (edge_quadratic(k, x), edge_quadratic(x, y), edge_quadratic(k, y));
    let (kz, xz, yz) = (edge_quadratic(k, z), edge_quadratic(x, z), edge_quadratic(y, z));
    lemma_plus_zero(vk);
    let f = vk.plus(vx).plus(vy);
    lemma_plus_swap(f, vz, kx);
    lemma_plus_swap(f.plus(kx), vz, xy);
    lemma_plus_swap(f.plus(kx).plus(xy), vz, ky);
    lemma_join_triangle(k, x, y);
    let v = vertex_quadratic(k.plus(x).plus(y));
    lemma_plus_assoc(v.plus(vz), kz, xz);
    lemma_plus_assoc(v.plus(vz), kz.plus(xz), yz);
    lemma_join_edges(k, x, z);
    lemma_join_edges(k.plus(x), y, z);
    lemma_join(k.plus(x).plus(y), z);
}

/// Adding a number and its negation, one after the other.
proof fn lemma_cancel<R: Real>(s: R, a: R)
    requires
        exact_ring::<R>(),
    ensures
        s.plus(a).plus(a.negated()) == s,
        s.plus(a.negated()).plus(a) == s,
{
    lemma_plus_assoc(s, a, a.negated());
    lemma_plus_assoc(s, a.negated(), a);
    lemma_negated(a);
    lemma_plus_zero(s);
}

/// Slopes of two vertices and of the edge between them.
proof fn lemma_slope_terms<R: Real>(a: R, b: R)
    requires
        exact_ring::<R>(),
        exact_integers::<R>(),
    ensures
        ({
            let four = R::int_val(4);
            let (fa, fb) = (four.times(a), four.times(b));
            &&& fa.minus(R::one_val()).negated().plus(fb.minus(R::one_val())) == fb.minus(fa)
            &&& fb.minus(fa).plus(four.times(a.minus(b))) == R::zero_val()
            &&& R::int_val(-4).times(b) == fb.negated()
        }),
{
    let (one, four) = (R::one_val(), R::int_val(4));
    let (fa, fb) = (four.times(a), four.times(b));
    lemma_minus_flip(fa, one);
    lemma_negated_twice(one.minus(fa));
    lemma_plus_comm(one.minus(fa), fb.minus(one));
    lemma_minus_chain(fb, one, fa);
    lemma_distribute_minus(four, a, b);
    lemma_minus_chain(fb, fa, fb);
    lemma_minus_self(fb);
    lemma_int_negated::<R>(4);
    lemma_times_negated(four, b);
}

/// The gradients of the quadratic shape functions on triangles and tetrahedra add up to zero.
pub proof fn law_quadratic_slopes<R: Real>(x: R, y: R, z: R, d: int)
    requires
        exact_ring::<R>(),
        exact_integers::<R>(),
    ensures
        0 <= d < 2 ==> sum(6, along(tri_p2_slopes(x, y), 2, d)) == R::zero_val(),
        0 <= d < 3 ==> sum(10, along(tet_p2_slopes(x, y, z), 3, d)) == R::zero_val(),
{
    lemma_tri_quadratic_slopes(x, y, d);
    lemma_tet_quadratic_slopes(x, y, z, d);
}

proof fn lemma_tri_quadratic_slopes<R: Real>(x: R, y: R, d: int)
    requires
        exact_ring::<R>(),
        exact_integers::<R>(),
    ensures
        0 <= d < 2 ==> sum(6, along(tri_p2_slopes(x, y), 2, d)) == R::zero_val(),
{
    reveal_with_fuel(sum, 7);
    let (four, l) = (R::int_val(4), R::one_val().minus(x).minus(y));
    let (fl, fx, fy) = (four.times(l), four.times(x), four.times(y));
    let n = fl.minus(R::one_val()).negated();
    lemma_plus_zero(n);
    lemma_slope_terms(l, x);
    lemma_slope_terms(l, y);
    lemma_plus_zero(fx.minus(fl));
    lemma_cancel(fx.minus(fl).plus(four.times(l.minus(x))), fy);
    lemma_cancel(fy.minus(fl), fx);
}

proof fn lemma_tet_quadratic_slopes<R: Real>(x: R, y: R, z: R, d: int)
    requires
        exact_ring::<R>(),
        exact_integers::<R>(),
    ensures
        0 <= d < 3 ==> sum(10, along(tet_p2_slopes(x, y, z), 3, d)) == R::zero_val(),
{
    reveal_with_fuel(sum, 11);
    let zero = R::zero_val();
    let (four, l) = (R::int_val(4), R::one_val().minus(x).minus(y).minus(z));
    let (fl, fx, fy, fz) = (four.times(l), four.times(x), four.times(y), four.times(z));
    let n = fl.minus(R::one_val()).negated();
    lemma_plus_zero(n);
    lemma_plus_zero(zero);
    lemma_slope_terms(l, x);
    lemma_slope_terms(l, y);
    lemma_slope_terms(l, z);
    if d == 0 {
        let s = fx.minus(fl);
        lemma_plus_zero(s);
        lemma_cancel(zero, fy);
        lemma_cancel(zero, fz);
    } else if d == 1 {
        let s = fy.minus(fl);
        lemma_plus_zero(s);
        lemma_cancel(s, fx);
        let nz = fz.negated();
        lemma_plus_zero(zero.plus(nz));
        lemma_cancel(zero, fz);
    } else if d == 2 {
        let s = fz.minus(fl);
        let q = four.times(l.minus(z));
        let (nx, ny) = (fx.negated(), fy.negated());
        lemma_plus_zero(s.plus(nx));
        lemma_plus_swap(s.plus(nx).plus(ny), q, fx);
        lemma_plus_swap(s.plus(nx), ny, fx);
        lemma_cancel(s, fx);
        lemma_plus_swap(s.plus(ny), q, fy);
        lemma_cancel(s, fy);
    }
}

// ── segments ────────────────────────────────────────────────────────────────

/// The quadratic and cubic shape functions on the segment add up to one.
pub proof fn law_segment_partition<R: Real>(t: R)
    requires
        exact_field::<R>(),
        exact_integers::<R>(),
    ensures
        sum(3, entries(line_p2_values(t))) == R::one_val(),
        sum(4, entries(line_p3_values(t))) == R::one_val(),
{
    lemma_over(R::one_val(), R::one_val());
    lemma_segment_quadratic(t);
    lemma_segment_nodes::<R>();
    law_lagrange_partition(line_p3_nodes::<R>(), t, 4);
    lemma_sum_ext(4, entries(line_p3_values(t)), line_products(line_p3_nodes::<R>(), t, 4));
}

/// The slopes of the quadratic shape functions on the segment add up to zero, and so do those of
/// the cubic ones away from the nodes.
pub proof fn law_segment_slopes<R: Real>(t: R)
    requires
        exact_field::<R>(),
        exact_integers::<R>(),
    ensures
        sum(3, entries(line_p2_slopes(t))) == R::zero_val(),
        (forall|j: int| 0 <= j < 4 ==> t != #[trigger] line_p3_nodes::<R>()[j]) ==> sum(
            4,
            entries(line_p3_slopes(t)),
        ) == R::zero_val(),
{
    reveal_with_fuel(sum, 4);
    lemma_over(R::one_val(), R::one_val());
    lemma_int_units::<R>();
    let (two, four, eight) = (R::int_val(2), R::int_val(4), R::int_val(8));
    let (e, h) = (four.times(t), ratio_val::<R>(3, 2));
    // 2 (2 t - 3/2) == 4 t - 3
    lemma_int_nonzero::<R>(2);
    lemma_quotient(R::int_val(3), two);
    lemma_distribute_minus(two, two.times(t), h);
    lemma_times_assoc(two, two, t);
    lemma_int_times::<R>(2, 2);
    lemma_times_comm(h, two);
    let three = R::int_val(3);
    assert(line_p2_slopes(t)[0] == e.minus(three));
    // - 8 t == - 4 t - 4 t
    lemma_int_plus::<R>(-4, -4);
    lemma_int_negated::<R>(4);
    lemma_times_comm(four.negated().plus(four.negated()), t);
    lemma_distribute(t, four.negated(), four.negated());
    lemma_times_comm(t, four);
    lemma_times_negated(t, four);
    let m = e.negated();
    assert(line_p2_slopes(t)[1] == m.plus(m).plus(four));
    // ((4 t - 3) + ((-4 t - 4 t) + 4)) + (4 t - 1)
    let (a, b) = (three.negated(), R::one_val().negated());
    lemma_minus(e, three);
    lemma_minus(e, R::one_val());
    lemma_segment_cancel(e, a, four, b);
    lemma_int_negated::<R>(3);
    lemma_int_negated::<R>(1);
    lemma_int_plus::<R>(-3, 4);
    lemma_int_plus::<R>(1, -1);
    lemma_plus_comm(R::zero_val(), line_p2_slopes(t)[0]);
    lemma_plus_zero(line_p2_slopes(t)[0]);
    if forall|j: int| 0 <= j < 4 ==> t != #[trigger] line_p3_nodes::<R>()[j] {
        lemma_segment_nodes::<R>();
        law_line_slopes_sum_to_zero(line_p3_nodes::<R>(), t, 4);
        lemma_sum_ext(4, entries(line_p3_slopes(t)), line_slopes(line_p3_nodes::<R>(), t, 4));
    }
}

/// What is left when a number is taken twice from its double.
proof fn lemma_segment_cancel<R: Real>(e: R, a: R, c: R, b: R)
    requires
        exact_ring::<R>(),
    ensures
        e.plus(a).plus(e.negated().plus(e.negated()).plus(c)).plus(e.plus(b)) == a.plus(c).plus(b),
{
    let m = e.negated();
    lemma_negated(e);
    // (e + a) + ((m + m) + c) == ((a + c) + m)
    lemma_plus_comm(e, a);
    lemma_plus_assoc(a.plus(e), m.plus(m), c);
    lemma_plus_assoc(a.plus(e), m, m);
    lemma_plus_assoc(a, e, m);
    lemma_plus_zero(a);
    lemma_plus_swap(a, m, c);
    // ((a + c) + m) + (e + b)
    lemma_plus_assoc(a.plus(c).plus(m), e, b);
    lemma_plus_assoc(a.plus(c), m, e);
    lemma_plus_comm(m, e);
    lemma_plus_zero(a.plus(c));
}

/// The quadratic shape functions on the segment, by vertices and edge.
pub proof fn lemma_segment_quadratic<R: Real>(t: R)
    requires
        exact_field::<R>(),
        exact_integers::<R>(),
    ensures
        line_p2_values(t)[1] == edge_quadratic(R::one_val().minus(t), t),
        line_p2_values(t)[2] == vertex_quadratic(t),
        sum(3, entries(line_p2_values(t))) == R::one_val(),
{
    reveal_with_fuel(sum, 4);
    lemma_over(R::one_val(), R::one_val());
    let (one, two, four) = (R::one_val(), R::int_val(2), R::int_val(4));
    let h = ratio_val::<R>(1, 2);
    let b = one.minus(t);
    lemma_int_units::<R>();
    lemma_int_nonzero::<R>(2);
    lemma_quotient(one, two);
    lemma_times_comm(h, two);
    // u == 2 (t - 1/2) == 2 t - 1
    let u = two.times(t).minus(one);
    lemma_distribute_minus(two, t, h);
    // the second vertex
    lemma_times_swap(two, t, t.minus(h));
    lemma_times_comm(u, t);
    assert(line_p2_values(t)[2] == vertex_quadratic(t));
    // the first vertex
    lemma_minus_flip(t, one);
    let bb = two.times(b).minus(one);
    lemma_distribute_minus(two, one, t);
    lemma_times_one(two);
    lemma_int_plus::<R>(1, 1);
    let tt = two.times(t);
    lemma_minus(two, tt);
    lemma_minus(two.plus(tt.negated()), one);
    lemma_plus_swap(two, tt.negated(), one.negated());
    lemma_minus_plus(one, one);
    lemma_minus(two, one);
    lemma_minus(one, tt);
    assert(bb == one.minus(tt));
    lemma_minus_flip(one, tt);
    assert(bb == u.negated());
    lemma_times_negated(u, b.negated());
    lemma_times_negated(u, b);
    lemma_times_negated(b, u);
    lemma_times_comm(u, b);
    assert(t.minus(one) == b.negated());
    assert(line_p2_values(t)[0] == u.times(b.negated()));
    assert(line_p2_values(t)[0] == vertex_quadratic(b));
    // the edge
    lemma_int_negated::<R>(4);
    lemma_times_negated(four, t);
    lemma_times_negated(four.times(t), b.negated());
    lemma_times_negated(four.times(t), b);
    lemma_negated_twice(four.times(t).times(b));
    lemma_times_swap(four, t, b);
    assert(line_p2_values(t)[1] == edge_quadratic(b, t));
    let (v0, v1, v2) = (vertex_quadratic(b), edge_quadratic(b, t), vertex_quadratic(t));
    lemma_plus_zero(v0);
    lemma_plus_swap(v0, v1, v2);
    lemma_join(b, t);
    lemma_minus_plus(one, t);
    lemma_vertex_one::<R>();
}

/// The nodes of the cubic segment are distinct.
pub proof fn lemma_segment_nodes<R: Real>()
    requires
        exact_field::<R>(),
        exact_integers::<R>(),
    ensures
        distinct(line_p3_nodes::<R>(), 4),
{
    let nodes = line_p3_nodes::<R>();
    let three = R::int_val(3);
    lemma_over(R::one_val(), R::one_val());
    lemma_int_units::<R>();
    lemma_int_nonzero::<R>(3);
    lemma_times_zero(three);
    lemma_times_one(three);
    assert forall|i: int| 0 <= i < 4 implies (#[trigger] nodes[i]).times(three) == R::int_val(
        i,
    ) by {
        lemma_quotient(R::int_val(i), three);
    }
    assert forall|i: int, j: int| 0 <= i < 4 && 0 <= j < 4 && i != j implies #[trigger] nodes[i]
        != #[trigger] nodes[j] by {
        if nodes[i] == nodes[j] {
            assert(R::int_val(i) == R::int_val(j));
            lemma_int_minus::<R>(i, j);
            lemma_minus_self(R::int_val(i));
            lemma_int_nonzero::<R>(i - j);
        }
    }
}

} // verus!
