//! Laws of the bases that are products of others, in exact arithmetic.

use vstd::prelude::*;

#[allow(unused_imports)]
use crate::cpu::basis_lagrange::{lagrange_view, LagrangeView};
#[allow(unused_imports)]
use crate::cpu::basis_prism::{prism_line_slopes, prism_line_values, prism_nodes, prism_view};
#[allow(unused_imports)]
use crate::cpu::basis_pyramid::{hex_shape, point_value, pyramid_view};
#[allow(unused_imports)]
use crate::cpu::basis_simplex::simplex_view;
#[allow(unused_imports)]
use crate::cpu::convert::stored;
#[allow(unused_imports)]
use crate::cpu::lagrange_laws::{rows_sum_to, table_row};
#[allow(unused_imports)]
use crate::cpu::reproduction_laws::{row_values, rows_take};
#[allow(unused_imports)]
use crate::enums::{ElemTopology, QuadMode};
#[allow(unused_imports)]
use crate::exact::lemma_times_cross;
#[allow(unused_imports)]
use crate::index::{lemma_flat, lemma_flat3, lemma_mul_le, lemma_split, lemma_split3};
#[allow(unused_imports)]
use crate::linear::lemma_sum_product;
use crate::scalar::{Real, Scalar};
#[allow(unused_imports)]
use crate::scalar::{
    exact_ring, lemma_distribute, lemma_sum_plus, lemma_sum_scale, lemma_times_assoc,
    lemma_times_comm, lemma_times_one, sum,
};

verus! {

/// Where the shape functions of the triangle and of the segment add up to one at every point, so
/// do those of the prism.
pub proof fn law_prism_partition<T: Scalar>(
    tri_poly: usize,
    line_p: usize,
    tri_q: usize,
    line_q: usize,
    ncomp: usize,
)
    requires
        exact_ring::<T>(),
        ({
            let tri = simplex_view::<T>(ElemTopology::Triangle, tri_poly, 1, tri_q);
            let values = stored::<T>(prism_line_values(line_p as int, line_q as int));
            let ld = prism_nodes::<T::Work>(line_p as int).len() as int;
            &&& 1 <= tri.shape.num_dof
            &&& 1 <= ld
            &&& rows_sum_to(tri.interp, tri_q as int, tri.shape.num_dof as int, T::one_val())
            &&& rows_sum_to(values, line_q as int, ld, T::one_val())
        }),
    ensures
        ({
            let tri = simplex_view::<T>(ElemTopology::Triangle, tri_poly, 1, tri_q);
            let ld = prism_nodes::<T::Work>(line_p as int).len() as int;
            rows_sum_to(
                prism_view::<T>(tri_poly, line_p, tri_q, line_q, ncomp).interp,
                tri_q * line_q,
                tri.shape.num_dof * ld,
                T::one_val(),
            )
        }),
{
    let tri = simplex_view::<T>(ElemTopology::Triangle, tri_poly, 1, tri_q);
    let values = stored::<T>(prism_line_values(line_p as int, line_q as int));
    let (td, tq) = (tri.shape.num_dof as int, tri_q as int);
    let (ld, lq) = (prism_nodes::<T::Work>(line_p as int).len() as int, line_q as int);
    let (nd, nq) = (td * ld, tq * lq);
    let b = prism_view::<T>(tri_poly, line_p, tri_q, line_q, ncomp).interp;
    assert forall|qpt: int| 0 <= qpt < nq implies #[trigger] sum(nd, table_row(b, nd, qpt))
        == T::one_val() by {
        lemma_split(qpt, tq, lq);
        let (h, f, g) = (
            table_row(b, nd, qpt),
            table_row(tri.interp, td, qpt / lq),
            table_row(values, ld, qpt % lq),
        );
        assert forall|t: int| 0 <= t < nd implies #[trigger] h(t) == f(t / ld).times(
            g(t % ld),
        ) by {
            lemma_flat(qpt, nq, t, nd);
        }
        lemma_sum_product(td, ld, f, g, h);
        assert(sum(td, f) == T::one_val());
        assert(sum(ld, g) == T::one_val());
        lemma_times_one(T::one_val());
    }
}

/// Where the one-dimensional shape functions add up to one at every point, so do those of the
/// pyramid.
pub proof fn law_pyramid_partition<T: Scalar>(p: usize, q: usize, qmode: QuadMode, ncomp: usize)
    requires
        exact_ring::<T>(),
        1 <= p,
        1 <= q,
        rows_sum_to(
            lagrange_view::<T>(3, 1, p, q, qmode).interp,
            q as int,
            p as int,
            T::one_val(),
        ),
    ensures
        rows_sum_to(
            pyramid_view::<T>(p, q, qmode, ncomp).interp,
            q * q * q,
            p * p * p,
            T::one_val(),
        ),
{
    let hex = lagrange_view::<T>(3, 1, p, q, qmode);
    let (m, n) = (p as int, q as int);
    let (nd, nq) = (m * m * m, n * n * n);
    let b = pyramid_view::<T>(p, q, qmode, ncomp).interp;
    lemma_mul_le(0, m, 0, m);
    assert forall|qpt: int| 0 <= qpt < nq implies #[trigger] sum(nd, table_row(b, nd, qpt))
        == T::one_val() by {
        lemma_split(qpt, n * n, n);
        lemma_split(qpt / n, n, n);
        let h = table_row(b, nd, qpt);
        let (x, y, z) = (
            table_row(hex.interp, m, qpt % n),
            table_row(hex.interp, m, qpt / n % n),
            table_row(hex.interp, m, qpt / n / n),
        );
        let zy = |t: int| z(t / m).times(y(t % m));
        lemma_sum_product(m, m, z, y, zy);
        assert forall|t: int| 0 <= t < nd implies #[trigger] h(t) == zy(t / m).times(x(t % m)) by {
            lemma_flat(qpt, nq, t, nd);
            let (dx, dy, dz) = (x(t % m), y(t / m % m), z(t / m / m));
            lemma_times_comm(dx, dy);
            lemma_times_comm(dy.times(dx), dz);
            lemma_times_assoc(dz, dy, dx);
        }
        lemma_sum_product(m * m, m, zy, x, h);
        assert(sum(m, x) == T::one_val());
        assert(sum(m, y) == T::one_val());
        assert(sum(m, z) == T::one_val());
        lemma_times_one(T::one_val());
    }
}

// ── products of polynomials ─────────────────────────────────────────────────

/// Products of the derivatives along axis `d` at point `i` with `f`.
pub open spec fn slope_row<T: Real>(
    b: Seq<T>,
    n: int,
    dim: int,
    i: int,
    d: int,
    f: spec_fn(int) -> T,
) -> spec_fn(int) -> T {
    |k: int| b[(i * n + k) * dim + d].times(f(k))
}

/// A table of gradients of `n` functions in `dim` directions at `q` points takes `f` to `g`.
pub open spec fn slopes_take<T: Real>(
    b: Seq<T>,
    q: int,
    n: int,
    dim: int,
    f: spec_fn(int) -> T,
    g: spec_fn(int, int) -> T,
) -> bool {
    forall|i: int, d: int|
        0 <= i < q && 0 <= d < dim ==> sum(n, #[trigger] slope_row(b, n, dim, i, d, f)) == g(i, d)
}

/// Products of a function of the first and of the second index.
pub open spec fn pairwise<T: Real>(m: int, f: spec_fn(int) -> T, g: spec_fn(int) -> T) -> spec_fn(
    int,
) -> T {
    |t: int| f(t / m).times(g(t % m))
}

/// Gradients of products of a function on the triangle and one on the segment.
pub open spec fn prism_gradients<T: Real>(
    lq: int,
    gt: spec_fn(int) -> T,
    gl: spec_fn(int) -> T,
    ht: spec_fn(int, int) -> T,
    hl: spec_fn(int) -> T,
) -> spec_fn(int, int) -> T {
    |i: int, d: int|
        if d < 2 {
            ht(i / lq, d).times(gl(i % lq))
        } else {
            gt(i / lq).times(hl(i % lq))
        }
}

/// Where the tables of the triangle and of the segment take nodal values to the values and
/// derivatives of a function at the points, the prism takes the products of the nodal values to
/// the values and the gradients of the products. With polynomials this says that the prism is
/// exact on the products of those on which its factors are exact.
pub proof fn law_prism_products_are_mapped<T: Scalar>(
    tri_poly: usize,
    line_p: usize,
    tri_q: usize,
    line_q: usize,
    ncomp: usize,
    ft: spec_fn(int) -> T,
    fl: spec_fn(int) -> T,
    gt: spec_fn(int) -> T,
    gl: spec_fn(int) -> T,
    ht: spec_fn(int, int) -> T,
    hl: spec_fn(int) -> T,
)
    requires
        exact_ring::<T>(),
        ({
            let tri = simplex_view::<T>(ElemTopology::Triangle, tri_poly, 1, tri_q);
            let values = stored::<T>(prism_line_values(line_p as int, line_q as int));
            let slopes = stored::<T>(prism_line_slopes::<T>(line_p as int, line_q as int));
            let (td, tq) = (tri.shape.num_dof as int, tri_q as int);
            let (ld, lq) = (prism_nodes::<T::Work>(line_p as int).len() as int, line_q as int);
            &&& 1 <= td
            &&& 1 <= ld
            &&& rows_take(tri.interp, tq, td, ft, gt)
            &&& slopes_take(tri.grad, tq, td, 2, ft, ht)
            &&& rows_take(values, lq, ld, fl, gl)
            &&& rows_take(slopes, lq, ld, fl, hl)
        }),
    ensures
        ({
            let prism = prism_view::<T>(tri_poly, line_p, tri_q, line_q, ncomp);
            let td = simplex_view::<T>(
                ElemTopology::Triangle,
                tri_poly,
                1,
                tri_q,
            ).shape.num_dof as int;
            let (ld, lq) = (prism_nodes::<T::Work>(line_p as int).len() as int, line_q as int);
            let f = pairwise(ld, ft, fl);
            &&& rows_take(prism.interp, tri_q * lq, td * ld, f, pairwise(lq, gt, gl))
            &&& slopes_take(
                prism.grad,
                tri_q * lq,
                td * ld,
                3,
                f,
                prism_gradients(lq, gt, gl, ht, hl),
            )
        }),
{
    let tri = simplex_view::<T>(ElemTopology::Triangle, tri_poly, 1, tri_q);
    let values = stored::<T>(prism_line_values(line_p as int, line_q as int));
    let slopes = stored::<T>(prism_line_slopes::<T>(line_p as int, line_q as int));
    let (td, tq) = (tri.shape.num_dof as int, tri_q as int);
    let (ld, lq) = (prism_nodes::<T::Work>(line_p as int).len() as int, line_q as int);
    let (nd, nq) = (td * ld, tq * lq);
    let f = pairwise(ld, ft, fl);
    let prism = prism_view::<T>(tri_poly, line_p, tri_q, line_q, ncomp);
    assert forall|i: int| 0 <= i < nq implies sum(
        nd,
        #[trigger] row_values(prism.interp, nd, i, f),
    ) == pairwise(lq, gt, gl)(i) by {
        lemma_split(i, tq, lq);
        let h = row_values(prism.interp, nd, i, f);
        let (a, b) = (
            row_values(tri.interp, td, i / lq, ft),
            row_values(values, ld, i % lq, fl),
        );
        assert forall|t: int| 0 <= t < nd implies #[trigger] h(t) == a(t / ld).times(b(t % ld)) by {
            lemma_flat(i, nq, t, nd);
            lemma_split(t, td, ld);
            lemma_times_cross(
                tri.interp[i / lq * td + t / ld],
                values[i % lq * ld + t % ld],
                ft(t / ld),
                fl(t % ld),
            );
        }
        lemma_sum_product(td, ld, a, b, h);
    }
    assert forall|i: int, d: int| 0 <= i < nq && 0 <= d < 3 implies sum(
        nd,
        #[trigger] slope_row(prism.grad, nd, 3, i, d, f),
    ) == prism_gradients(lq, gt, gl, ht, hl)(i, d) by {
        lemma_split(i, tq, lq);
        let h = slope_row(prism.grad, nd, 3, i, d, f);
        let a = if d < 2 {
            slope_row(tri.grad, td, 2, i / lq, d, ft)
        } else {
            row_values(tri.interp, td, i / lq, ft)
        };
        let b = if d < 2 {
            row_values(values, ld, i % lq, fl)
        } else {
            row_values(slopes, ld, i % lq, fl)
        };
        assert forall|t: int| 0 <= t < nd implies #[trigger] h(t) == a(t / ld).times(b(t % ld)) by {
            lemma_flat3(i, nq, t, nd, d, 3);
            lemma_split(t, td, ld);
            let (x, y) = (i / lq * td + t / ld, i % lq * ld + t % ld);
            if d < 2 {
                lemma_times_cross(tri.grad[x * 2 + d], values[y], ft(t / ld), fl(t % ld));
            } else {
                lemma_times_cross(tri.interp[x], slopes[y], ft(t / ld), fl(t % ld));
            }
        }
        lemma_sum_product(td, ld, a, b, h);
    }
}

/// Products of a function along each axis, the first axis running fastest.
pub open spec fn triplewise<T: Real>(
    m: int,
    fx: spec_fn(int) -> T,
    fy: spec_fn(int) -> T,
    fz: spec_fn(int) -> T,
) -> spec_fn(int) -> T {
    |t: int| fz(t / m / m).times(fy(t / m % m)).times(fx(t % m))
}

/// A sum of such products is the product of the sums.
proof fn lemma_triple_sum<T: Real>(
    m: int,
    x: spec_fn(int) -> T,
    y: spec_fn(int) -> T,
    z: spec_fn(int) -> T,
    h: spec_fn(int) -> T,
)
    requires
        exact_ring::<T>(),
        1 <= m,
        forall|t: int|
            0 <= t < m * m * m ==> #[trigger] h(t) == z(t / m / m).times(y(t / m % m)).times(
                x(t % m),
            ),
    ensures
        sum(m * m * m, h) == sum(m, z).times(sum(m, y)).times(sum(m, x)),
{
    lemma_mul_le(0, m, 0, m);
    let zy = |t: int| z(t / m).times(y(t % m));
    lemma_sum_product(m, m, z, y, zy);
    lemma_sum_product(m * m, m, zy, x, h);
}

/// A product over the axes, times another one.
proof fn lemma_axes_cross<T: Real>(x: T, y: T, z: T, fx: T, fy: T, fz: T)
    requires
        exact_ring::<T>(),
    ensures
        x.times(y).times(z).times(fz.times(fy).times(fx)) == z.times(fz).times(y.times(fy)).times(
            x.times(fx),
        ),
{
    lemma_times_comm(x, y);
    lemma_times_comm(y.times(x), z);
    lemma_times_assoc(z, y, x);
    lemma_times_cross(z.times(y), x, fz.times(fy), fx);
    lemma_times_cross(z, y, fz, fy);
}

/// A row of the hexahedron, differentiated in direction `dir`, on products.
proof fn lemma_hex_row<T: Real>(
    hex: LagrangeView<T>,
    qpt: int,
    dir: int,
    fx: spec_fn(int) -> T,
    fy: spec_fn(int) -> T,
    fz: spec_fn(int) -> T,
    gx: spec_fn(int) -> T,
    gy: spec_fn(int) -> T,
    gz: spec_fn(int) -> T,
    h: spec_fn(int) -> T,
)
    requires
        exact_ring::<T>(),
        1 <= hex.p,
        1 <= hex.q,
        0 <= qpt < hex.q * hex.q * hex.q,
        rows_take(hex.table(0, dir), hex.q as int, hex.p as int, fx, gx),
        rows_take(hex.table(1, dir), hex.q as int, hex.p as int, fy, gy),
        rows_take(hex.table(2, dir), hex.q as int, hex.p as int, fz, gz),
        forall|t: int|
            0 <= t < hex.p * hex.p * hex.p ==> #[trigger] h(t) == hex_shape(hex, qpt, t, dir).times(
                triplewise(hex.p as int, fx, fy, fz)(t),
            ),
    ensures
        sum(hex.p * hex.p * hex.p, h) == triplewise(hex.q as int, gx, gy, gz)(qpt),
{
    let (m, n) = (hex.p as int, hex.q as int);
    lemma_split3(qpt, n, n, n);
    let (x, y, z) = (
        row_values(hex.table(0, dir), m, qpt % n, fx),
        row_values(hex.table(1, dir), m, qpt / n % n, fy),
        row_values(hex.table(2, dir), m, qpt / n / n, fz),
    );
    assert forall|t: int| 0 <= t < m * m * m implies #[trigger] h(t) == z(t / m / m).times(
        y(t / m % m),
    ).times(x(t % m)) by {
        let (dx, dy, dz) = (t % m, t / m % m, t / m / m);
        lemma_axes_cross(
            hex.table(0, dir)[qpt % n * m + dx],
            hex.table(1, dir)[qpt / n % n * m + dy],
            hex.table(2, dir)[qpt / n / n * m + dz],
            fx(dx),
            fy(dy),
            fz(dz),
        );
    }
    lemma_triple_sum(m, x, y, z, h);
    assert(sum(m, x) == gx(qpt % n));
    assert(sum(m, y) == gy(qpt / n % n));
    assert(sum(m, z) == gz(qpt / n / n));
}

/// Gradients on the pyramid of products of functions on the hexahedron: the derivatives there,
/// through the inverse of the map to the pyramid.
pub open spec fn pyramid_gradients<T: Scalar>(
    hex: LagrangeView<T>,
    gx: spec_fn(int) -> T,
    gy: spec_fn(int) -> T,
    gz: spec_fn(int) -> T,
    hx: spec_fn(int) -> T,
    hy: spec_fn(int) -> T,
    hz: spec_fn(int) -> T,
) -> spec_fn(int, int) -> T {
    let q = hex.q as int;
    |i: int, d: int|
        {
            let (dx, dy, dz) = (
                triplewise(q, hx, gy, gz)(i),
                triplewise(q, gx, hy, gz)(i),
                triplewise(q, gx, gy, hz)(i),
            );
            if d == 0 {
                point_value(hex, i, 4).times(dx)
            } else if d == 1 {
                point_value(hex, i, 5).times(dy)
            } else {
                point_value(hex, i, 6).times(dx).plus(point_value(hex, i, 7).times(dy)).plus(dz)
            }
        }
}

/// Where the one-dimensional tables take nodal values to the values and slopes of a function at
/// the points, the pyramid takes the products of the nodal values to the values of the products,
/// and to their gradients mapped from the hexahedron.
pub proof fn law_pyramid_products_are_mapped<T: Scalar>(
    p: usize,
    q: usize,
    qmode: QuadMode,
    ncomp: usize,
    fx: spec_fn(int) -> T,
    fy: spec_fn(int) -> T,
    fz: spec_fn(int) -> T,
    gx: spec_fn(int) -> T,
    gy: spec_fn(int) -> T,
    gz: spec_fn(int) -> T,
    hx: spec_fn(int) -> T,
    hy: spec_fn(int) -> T,
    hz: spec_fn(int) -> T,
)
    requires
        exact_ring::<T>(),
        1 <= p,
        1 <= q,
        ({
            let hex = lagrange_view::<T>(3, 1, p, q, qmode);
            &&& rows_take(hex.interp, q as int, p as int, fx, gx)
            &&& rows_take(hex.interp, q as int, p as int, fy, gy)
            &&& rows_take(hex.interp, q as int, p as int, fz, gz)
            &&& rows_take(hex.grad, q as int, p as int, fx, hx)
            &&& rows_take(hex.grad, q as int, p as int, fy, hy)
            &&& rows_take(hex.grad, q as int, p as int, fz, hz)
        }),
    ensures
        ({
            let hex = lagrange_view::<T>(3, 1, p, q, qmode);
            let pyramid = pyramid_view::<T>(p, q, qmode, ncomp);
            let f = triplewise(p as int, fx, fy, fz);
            &&& rows_take(
                pyramid.interp,
                q * q * q,
                p * p * p,
                f,
                triplewise(q as int, gx, gy, gz),
            )
            &&& slopes_take(
                pyramid.grad,
                q * q * q,
                p * p * p,
                3,
                f,
                pyramid_gradients(hex, gx, gy, gz, hx, hy, hz),
            )
        }),
{
    let hex = lagrange_view::<T>(3, 1, p, q, qmode);
    let pyramid = pyramid_view::<T>(p, q, qmode, ncomp);
    let (m, n) = (p as int, q as int);
    let (nd, nq) = (m * m * m, n * n * n);
    let f = triplewise(m, fx, fy, fz);
    assert forall|i: int| 0 <= i < nq implies sum(
        nd,
        #[trigger] row_values(pyramid.interp, nd, i, f),
    ) == triplewise(n, gx, gy, gz)(i) by {
        let h = row_values(pyramid.interp, nd, i, f);
        assert forall|t: int| 0 <= t < nd implies #[trigger] h(t) == hex_shape(
            hex,
            i,
            t,
            3,
        ).times(f(t)) by {
            lemma_flat(i, nq, t, nd);
        }
        lemma_hex_row(hex, i, 3, fx, fy, fz, gx, gy, gz, h);
    }
    assert forall|i: int, d: int| 0 <= i < nq && 0 <= d < 3 implies sum(
        nd,
        #[trigger] slope_row(pyramid.grad, nd, 3, i, d, f),
    ) == pyramid_gradients(hex, gx, gy, gz, hx, hy, hz)(i, d) by {
        let h = slope_row(pyramid.grad, nd, 3, i, d, f);
        let (a, b, c) = (
            |t: int| hex_shape(hex, i, t, 0).times(f(t)),
            |t: int| hex_shape(hex, i, t, 1).times(f(t)),
            |t: int| hex_shape(hex, i, t, 2).times(f(t)),
        );
        lemma_hex_row(hex, i, 0, fx, fy, fz, hx, gy, gz, a);
        lemma_hex_row(hex, i, 1, fx, fy, fz, gx, hy, gz, b);
        lemma_hex_row(hex, i, 2, fx, fy, fz, gx, gy, hz, c);
        let (k4, k5, k6, k7) = (
            point_value(hex, i, 4),
            point_value(hex, i, 5),
            point_value(hex, i, 6),
            point_value(hex, i, 7),
        );
        if d < 2 {
            let (k, e) = if d == 0 {
                (k4, a)
            } else {
                (k5, b)
            };
            assert forall|t: int| 0 <= t < nd implies #[trigger] h(t) == k.times(e(t)) by {
                lemma_flat3(i, nq, t, nd, d, 3);
                lemma_times_assoc(k, hex_shape(hex, i, t, d), f(t));
            }
            lemma_sum_scale(nd, k, e, h);
        } else {
            let (u, v) = (|t: int| k6.times(a(t)), |t: int| k7.times(b(t)));
            let w = |t: int| u(t).plus(v(t));
            assert forall|t: int| 0 <= t < nd implies #[trigger] h(t) == w(t).plus(c(t)) by {
                lemma_flat3(i, nq, t, nd, d, 3);
                let (x, y, z) = (
                    hex_shape(hex, i, t, 0),
                    hex_shape(hex, i, t, 1),
                    hex_shape(hex, i, t, 2),
                );
                let s = k6.times(x).plus(k7.times(y));
                lemma_times_comm(s.plus(z), f(t));
                lemma_distribute(f(t), s, z);
                lemma_distribute(f(t), k6.times(x), k7.times(y));
                lemma_times_comm(f(t), z);
                lemma_times_comm(f(t), k6.times(x));
                lemma_times_comm(f(t), k7.times(y));
                lemma_times_assoc(k6, x, f(t));
                lemma_times_assoc(k7, y, f(t));
            }
            lemma_sum_plus(nd, w, c, h);
            lemma_sum_plus(nd, u, v, w);
            lemma_sum_scale(nd, k6, a, u);
            lemma_sum_scale(nd, k7, b, v);
        }
    }
}

} // verus!
