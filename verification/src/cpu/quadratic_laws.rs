//! The linear and quadratic shape functions reproduce polynomials, in exact arithmetic.

use vstd::prelude::*;

#[allow(unused_imports)]
use crate::cpu::simplex_laws::{edge_quadratic, law_quadratic_partition, vertex_quadratic};
#[allow(unused_imports)]
use crate::cpu::simplex_shapes::{
    tet_p1_values, tet_p2_values, tri_monomials, tri_p1_values, tri_p2_values,
};
#[allow(unused_imports)]
use crate::exact::{
    exact_integers, lemma_distribute_minus, lemma_int_nonzero, lemma_int_plus, lemma_int_times,
    lemma_int_units, lemma_minus_plus, lemma_plus_swap, lemma_quotient, lemma_times_swap,
};
use crate::scalar::Real;
#[allow(unused_imports)]
use crate::scalar::{
    exact_field, exact_ring, lemma_distribute, lemma_minus, lemma_over, lemma_plus_assoc,
    lemma_plus_comm, lemma_plus_zero, lemma_times_assoc, lemma_times_comm, lemma_times_one,
    lemma_times_zero, ratio_val, sum,
};

verus! {

/// One half.
pub open spec fn half<R: Real>() -> R {
    ratio_val::<R>(1, 2)
}

/// Two halves, and four quarters.
pub proof fn lemma_half<R: Real>()
    requires
        exact_field::<R>(),
        exact_integers::<R>(),
    ensures
        R::int_val(2).times(half::<R>()) == R::one_val(),
        R::int_val(4).times(half::<R>()) == R::int_val(2),
        R::int_val(4).times(half::<R>().times(half::<R>())) == R::one_val(),
{
    let (h, two, four) = (half::<R>(), R::int_val(2), R::int_val(4));
    lemma_over(R::one_val(), R::one_val());
    lemma_int_units::<R>();
    lemma_int_nonzero::<R>(2);
    lemma_quotient(R::one_val(), two);
    lemma_times_comm(h, two);
    lemma_int_times::<R>(2, 2);
    lemma_times_assoc(two, two, h);
    lemma_times_one(two);
    lemma_times_assoc(four, h, h);
}

/// The function of an edge at half and at a quarter of its height.
pub proof fn lemma_edge<R: Real>(a: R, b: R)
    requires
        exact_field::<R>(),
        exact_integers::<R>(),
    ensures
        edge_quadratic(a, b).times(half::<R>()) == R::int_val(2).times(a.times(b)),
        edge_quadratic(a, b).times(half::<R>().times(half::<R>())) == a.times(b),
{
    let (h, four) = (half::<R>(), R::int_val(4));
    let ab = a.times(b);
    lemma_over(R::one_val(), R::one_val());
    lemma_half::<R>();
    lemma_times_assoc(four, a, b);
    lemma_times_swap(four, ab, h);
    lemma_times_swap(four, ab, h.times(h));
    lemma_times_one(ab);
}

/// The functions around a vertex with coordinate `a`; the other coordinates add up to `r`.
pub proof fn lemma_vertex<R: Real>(a: R, r: R)
    requires
        exact_ring::<R>(),
        exact_integers::<R>(),
        a.plus(r) == R::one_val(),
    ensures
        vertex_quadratic(a).plus(R::int_val(2).times(a.times(r))) == a,
        vertex_quadratic(a).plus(a.times(r)) == a.times(a),
{
    let (one, two) = (R::one_val(), R::int_val(2));
    let (aa, ar) = (a.times(a), a.times(r));
    // a == a a + a r
    lemma_distribute(a, a, r);
    lemma_times_one(a);
    // the vertex is 2 a a - a
    lemma_distribute_minus(a, two.times(a), one);
    lemma_times_assoc(a, two, a);
    lemma_times_comm(a, two);
    lemma_times_assoc(two, a, a);
    let v = vertex_quadratic(a);
    assert(v == two.times(aa).minus(a));
    // (2 a a - a) + 2 a r == 2 (a a + a r) - a
    lemma_minus(two.times(aa), a);
    lemma_plus_swap(two.times(aa), a.negated(), two.times(ar));
    lemma_distribute(two, aa, ar);
    lemma_int_plus::<R>(1, 1);
    lemma_int_units::<R>();
    lemma_distribute(a, one, one);
    lemma_times_comm(two, a);
    lemma_minus(a.plus(a), a);
    lemma_minus_plus(a, a);
    // (2 a a - a) + a r == a a + ((a a + a r) - a)
    lemma_distribute(aa, one, one);
    lemma_times_one(aa);
    lemma_times_comm(two, aa);
    lemma_plus_swap(aa.plus(aa), a.negated(), ar);
    lemma_plus_assoc(aa, aa, ar);
    lemma_minus(aa.plus(a), a);
    lemma_minus_plus(aa, a);
}

// ── linear shape functions ──────────────────────────────────────────────────

/// The polynomial `a + b x + c y + d z`.
pub open spec fn linear<R: Real>(a: R, b: R, c: R, d: R, x: R, y: R, z: R) -> R {
    a.plus(b.times(x)).plus(c.times(y)).plus(d.times(z))
}

/// The value of that polynomial at vertex `k` of the tetrahedron.
pub open spec fn linear_at<R: Real>(a: R, b: R, c: R, d: R, k: int) -> R {
    let (zero, one) = (R::zero_val(), R::one_val());
    if k == 0 {
        linear(a, b, c, d, zero, zero, zero)
    } else if k == 1 {
        linear(a, b, c, d, one, zero, zero)
    } else if k == 2 {
        linear(a, b, c, d, zero, one, zero)
    } else {
        linear(a, b, c, d, zero, zero, one)
    }
}

/// The linear shape functions on the tetrahedron reproduce linear polynomials from their values
/// at the vertices.
pub proof fn law_linear_reproduces<R: Real>(a: R, b: R, c: R, d: R, x: R, y: R, z: R)
    requires
        exact_ring::<R>(),
    ensures
        sum(4, |k: int| tet_p1_values(x, y, z)[k].times(linear_at(a, b, c, d, k))) == linear(
            a,
            b,
            c,
            d,
            x,
            y,
            z,
        ),
        sum(3, |k: int| tri_p1_values(x, y)[k].times(linear_at(a, b, c, R::zero_val(), k)))
            == linear(a, b, c, R::zero_val(), x, y, R::zero_val()),
{
    reveal_with_fuel(sum, 5);
    lemma_linear_values(a, b, c, d);
    lemma_linear_values(a, b, c, R::zero_val());
    let one = R::one_val();
    // the triangle
    let l = one.minus(x).minus(y);
    lemma_linear_step(l, x, a, b);
    lemma_linear_step(l.plus(x), y, a, c);
    let s = l.times(a);
    lemma_plus_zero(s);
    lemma_plus_swap(l.plus(x).times(a), b.times(x), y.times(a.plus(c)));
    lemma_plus_swap(l.plus(x).plus(y).times(a), c.times(y), b.times(x));
    lemma_plus_swap(l, x, y);
    lemma_minus_plus(one.minus(x), y);
    lemma_minus_plus(one, x);
    lemma_times_one(a);
    let t = a.plus(b.times(x)).plus(c.times(y));
    lemma_plus_zero(t);
    lemma_times_zero(R::zero_val());
    // the tetrahedron
    let k = l.minus(z);
    lemma_linear_step(k, x, a, b);
    lemma_linear_step(k.plus(x), y, a, c);
    lemma_linear_step(k.plus(x).plus(y), z, a, d);
    lemma_plus_zero(k.times(a));
    let (bx, cy, dz) = (b.times(x), c.times(y), d.times(z));
    let (m, n) = (k.plus(x).times(a), k.plus(x).plus(y).times(a));
    lemma_plus_swap(m, bx, y.times(a.plus(c)));
    lemma_plus_swap(n, cy, bx);
    lemma_plus_swap(n.plus(bx), cy, z.times(a.plus(d)));
    lemma_plus_swap(n, bx, z.times(a.plus(d)));
    let w = k.plus(x).plus(y).plus(z).times(a);
    lemma_plus_swap(w, dz, bx);
    lemma_plus_swap(w.plus(bx), dz, cy);
    lemma_plus_swap(k.plus(x), y, z);
    lemma_plus_swap(k, x, z);
    lemma_minus_plus(l, z);
}

/// Values at the vertices.
proof fn lemma_linear_values<R: Real>(a: R, b: R, c: R, d: R)
    requires
        exact_ring::<R>(),
    ensures
        linear_at(a, b, c, d, 0) == a,
        linear_at(a, b, c, d, 1) == a.plus(b),
        linear_at(a, b, c, d, 2) == a.plus(c),
        linear_at(a, b, c, d, 3) == a.plus(d),
{
    lemma_times_zero(b);
    lemma_times_zero(c);
    lemma_times_zero(d);
    lemma_times_one(b);
    lemma_times_one(c);
    lemma_times_one(d);
    lemma_plus_zero(a);
    lemma_plus_zero(a.plus(b));
    lemma_plus_zero(a.plus(c));
}

/// One more vertex.
proof fn lemma_linear_step<R: Real>(l: R, x: R, a: R, b: R)
    requires
        exact_ring::<R>(),
    ensures
        l.times(a).plus(x.times(a.plus(b))) == l.plus(x).times(a).plus(b.times(x)),
{
    lemma_distribute(x, a, b);
    lemma_plus_assoc(l.times(a), x.times(a), x.times(b));
    lemma_distribute(a, l, x);
    lemma_times_comm(x, b);
}

// ── quadratic shape functions on the triangle ───────────────────────────────

/// First coordinate of node `k` of the quadratic triangle.
pub open spec fn tri_quadratic_x<R: Real>(k: int) -> R {
    if k == 1 {
        R::one_val()
    } else if k == 3 || k == 4 {
        half()
    } else {
        R::zero_val()
    }
}

/// Second coordinate of node `k` of the quadratic triangle.
pub open spec fn tri_quadratic_y<R: Real>(k: int) -> R {
    if k == 2 {
        R::one_val()
    } else if k == 4 || k == 5 {
        half()
    } else {
        R::zero_val()
    }
}

/// The quadratic shape functions on the triangle reproduce every monomial up to degree two from
/// its values at the nodes.
pub proof fn law_quadratic_triangle_reproduces<R: Real>(x: R, y: R, t: int)
    requires
        exact_field::<R>(),
        exact_integers::<R>(),
        0 <= t < 6,
    ensures
        sum(
            6,
            |k: int|
                tri_p2_values(x, y)[k].times(
                    tri_monomials(tri_quadratic_x(k), tri_quadratic_y(k))[t],
                ),
        ) == tri_monomials(x, y)[t],
{
    lemma_over(R::one_val(), R::one_val());
    let (zero, one, two, h) = (R::zero_val(), R::one_val(), R::int_val(2), half::<R>());
    let l = one.minus(x).minus(y);
    let (vl, vx, vy) = (vertex_quadratic(l), vertex_quadratic(x), vertex_quadratic(y));
    let (lx, xy, ly) = (edge_quadratic(l, x), edge_quadratic(x, y), edge_quadratic(l, y));
    lemma_edge(l, x);
    lemma_edge(x, y);
    lemma_edge(l, y);
    // the coordinates other than x, and other than y
    lemma_plus_swap(l, x, y);
    lemma_minus_plus(one.minus(x), y);
    lemma_minus_plus(one, x);
    let (rx, ry) = (l.plus(y), x.plus(l));
    lemma_plus_comm(x, rx);
    lemma_plus_swap(l, y, x);
    lemma_plus_comm(l, x);
    lemma_plus_comm(y, ry);
    lemma_vertex(x, rx);
    lemma_vertex(y, ry);
    // products with zero and one
    lemma_times_zero(zero);
    lemma_times_zero(h);
    lemma_times_one(one);
    lemma_times_zero(one);
    lemma_times_zero(vl);
    lemma_times_zero(vx);
    lemma_times_zero(vy);
    lemma_times_zero(lx);
    lemma_times_zero(xy);
    lemma_times_zero(ly);
    lemma_times_one(vx);
    lemma_times_one(vy);
    lemma_plus_zero(zero);
    lemma_plus_zero(vx);
    lemma_plus_zero(vy);
    reveal_with_fuel(sum, 7);
    let (px, py, pl) = (x.times(y), l.times(y), l.times(x));
    lemma_times_comm(l, x);
    lemma_times_comm(x, y);
    lemma_distribute(x, l, y);
    lemma_distribute(y, x, l);
    lemma_times_comm(l, y);
    if t == 0 {
        law_quadratic_partition(x, y, zero);
        lemma_times_one(vl);
        lemma_times_one(lx);
        lemma_times_one(xy);
        lemma_times_one(ly);
    } else if t == 1 {
        let (a, b) = (two.times(pl), two.times(px));
        lemma_distribute(two, pl, px);
        lemma_plus_assoc(vx, a, b);
        lemma_plus_zero(x);
    } else if t == 2 {
        let (a, b) = (two.times(px), two.times(py));
        lemma_distribute(two, px, py);
        lemma_plus_assoc(vy, a, b);
        lemma_plus_zero(y);
    } else if t == 3 {
        lemma_plus_assoc(vx, pl, px);
        lemma_plus_zero(x.times(x));
    } else if t == 4 {
        lemma_plus_zero(px);
    } else {
        lemma_plus_assoc(vy, px, py);
        lemma_plus_zero(y.times(y));
    }
}

// ── quadratic shape functions on the tetrahedron ────────────────────────────

/// First coordinate of node `k` of the quadratic tetrahedron.
pub open spec fn tet_quadratic_x<R: Real>(k: int) -> R {
    if k == 1 {
        R::one_val()
    } else if k == 4 || k == 5 || k == 8 {
        half()
    } else {
        R::zero_val()
    }
}

/// Second coordinate of node `k` of the quadratic tetrahedron.
pub open spec fn tet_quadratic_y<R: Real>(k: int) -> R {
    if k == 2 {
        R::one_val()
    } else if k == 5 || k == 6 || k == 9 {
        half()
    } else {
        R::zero_val()
    }
}

/// Third coordinate of node `k` of the quadratic tetrahedron.
pub open spec fn tet_quadratic_z<R: Real>(k: int) -> R {
    if k == 3 {
        R::one_val()
    } else if k == 7 || k == 8 || k == 9 {
        half()
    } else {
        R::zero_val()
    }
}

/// The functions around a vertex, edge by edge.
proof fn lemma_vertex_edges<R: Real>(a: R, p: R, q: R, r: R)
    requires
        exact_ring::<R>(),
        exact_integers::<R>(),
        a.plus(p.plus(q).plus(r)) == R::one_val(),
    ensures
        ({
            let two = R::int_val(2);
            let (ap, aq, ar) = (a.times(p), a.times(q), a.times(r));
            let v = vertex_quadratic(a);
            &&& v.plus(two.times(ap)).plus(two.times(aq)).plus(two.times(ar)) == a
            &&& v.plus(ap).plus(aq).plus(ar) == a.times(a)
        }),
{
    let two = R::int_val(2);
    let (ap, aq, ar) = (a.times(p), a.times(q), a.times(r));
    let v = vertex_quadratic(a);
    lemma_vertex(a, p.plus(q).plus(r));
    lemma_distribute(a, p.plus(q), r);
    lemma_distribute(a, p, q);
    lemma_plus_assoc(v, ap, aq);
    lemma_plus_assoc(v, ap.plus(aq), ar);
    lemma_distribute(two, ap.plus(aq), ar);
    lemma_distribute(two, ap, aq);
    lemma_plus_assoc(v, two.times(ap), two.times(aq));
    lemma_plus_assoc(v, two.times(ap).plus(two.times(aq)), two.times(ar));
}

/// The monomials up to degree two.
pub open spec fn tet_quadratic_monomial<R: Real>(x: R, y: R, z: R, t: int) -> R {
    if t == 0 {
        R::one_val()
    } else if t == 1 {
        x
    } else if t == 2 {
        y
    } else if t == 3 {
        z
    } else if t == 4 {
        x.times(x)
    } else if t == 5 {
        x.times(y)
    } else if t == 6 {
        x.times(z)
    } else if t == 7 {
        y.times(y)
    } else if t == 8 {
        y.times(z)
    } else {
        z.times(z)
    }
}

/// The four coordinates of a point of the tetrahedron around each vertex.
proof fn lemma_tet_rests<R: Real>(l: R, x: R, y: R, z: R)
    requires
        exact_ring::<R>(),
        l.plus(x).plus(y).plus(z) == R::one_val(),
    ensures
        x.plus(l.plus(y).plus(z)) == R::one_val(),
        y.plus(x.plus(l).plus(z)) == R::one_val(),
        z.plus(l.plus(x).plus(y)) == R::one_val(),
{
    lemma_plus_comm(x, l.plus(y).plus(z));
    lemma_plus_swap(l.plus(y), z, x);
    lemma_plus_swap(l, y, x);
    lemma_plus_comm(y, x.plus(l).plus(z));
    lemma_plus_swap(x.plus(l), z, y);
    lemma_plus_comm(x, l);
    lemma_plus_comm(z, l.plus(x).plus(y));
}

/// The quadratic shape functions on the tetrahedron reproduce every monomial up to degree two
/// from its values at the nodes.
#[verifier::rlimit(40)]
pub proof fn law_quadratic_tetrahedron_reproduces<R: Real>(x: R, y: R, z: R, t: int)
    requires
        exact_field::<R>(),
        exact_integers::<R>(),
        0 <= t < 10,
    ensures
        sum(
            10,
            |k: int|
                tet_p2_values(x, y, z)[k].times(
                    tet_quadratic_monomial(
                        tet_quadratic_x(k),
                        tet_quadratic_y(k),
                        tet_quadratic_z(k),
                        t,
                    ),
                ),
        ) == tet_quadratic_monomial(x, y, z, t),
{
    lemma_over(R::one_val(), R::one_val());
    let (zero, one, two, h) = (R::zero_val(), R::one_val(), R::int_val(2), half::<R>());
    let l = one.minus(x).minus(y).minus(z);
    let (vl, vx, vy, vz) = (
        vertex_quadratic(l),
        vertex_quadratic(x),
        vertex_quadratic(y),
        vertex_quadratic(z),
    );
    let (lx, xy, ly) = (edge_quadratic(l, x), edge_quadratic(x, y), edge_quadratic(l, y));
    let (lz, xz, yz) = (edge_quadratic(l, z), edge_quadratic(x, z), edge_quadratic(y, z));
    lemma_edge(l, x);
    lemma_edge(x, y);
    lemma_edge(l, y);
    lemma_edge(l, z);
    lemma_edge(x, z);
    lemma_edge(y, z);
    lemma_plus_swap(l.plus(x), y, z);
    lemma_plus_swap(l, x, z);
    lemma_minus_plus(one.minus(x).minus(y), z);
    lemma_plus_swap(one.minus(x).minus(y), x, y);
    lemma_minus_plus(one.minus(x), y);
    lemma_minus_plus(one, x);
    lemma_tet_rests(l, x, y, z);
    lemma_vertex_edges(x, l, y, z);
    lemma_vertex_edges(y, x, l, z);
    lemma_vertex_edges(z, l, x, y);
    lemma_times_comm(l, x);
    lemma_times_comm(l, y);
    lemma_times_comm(l, z);
    lemma_times_comm(x, y);
    lemma_times_comm(x, z);
    lemma_times_comm(y, z);
    lemma_times_zero(zero);
    lemma_times_zero(h);
    lemma_times_one(one);
    lemma_times_zero(one);
    lemma_times_zero(vl);
    lemma_times_zero(vx);
    lemma_times_zero(vy);
    lemma_times_zero(vz);
    lemma_times_zero(lx);
    lemma_times_zero(xy);
    lemma_times_zero(ly);
    lemma_times_zero(lz);
    lemma_times_zero(xz);
    lemma_times_zero(yz);
    lemma_times_one(vx);
    lemma_times_one(vy);
    lemma_times_one(vz);
    lemma_plus_zero(zero);
    lemma_plus_zero(vx);
    lemma_plus_zero(vy);
    lemma_plus_zero(vz);
    reveal_with_fuel(sum, 11);
    if t == 0 {
        law_quadratic_partition(x, y, z);
        lemma_times_one(vl);
        lemma_times_one(lx);
        lemma_times_one(xy);
        lemma_times_one(ly);
        lemma_times_one(lz);
        lemma_times_one(xz);
        lemma_times_one(yz);
    } else if t == 1 {
        let s = vx.plus(two.times(l.times(x))).plus(two.times(x.times(y)));
        lemma_plus_zero(s);
        lemma_plus_zero(x);
    } else if t == 2 {
        let s = vy.plus(two.times(x.times(y))).plus(two.times(l.times(y)));
        lemma_plus_zero(s);
    } else if t == 3 {
    } else if t == 4 {
        let s = vx.plus(l.times(x)).plus(x.times(y));
        lemma_plus_zero(s);
        lemma_plus_zero(x.times(x));
    } else if t == 5 {
        lemma_plus_zero(x.times(y));
    } else if t == 6 {
        lemma_plus_zero(x.times(z));
    } else if t == 7 {
        let s = vy.plus(x.times(y)).plus(l.times(y));
        lemma_plus_zero(s);
    } else if t == 8 {
        lemma_plus_zero(y.times(z));
    }
}

} // verus!
