//! Polynomials on which the bases of the prism and of the pyramid are exact.

use vstd::prelude::*;

#[allow(unused_imports)]
use crate::cpu::basis_lagrange::{lagrange_view, rule_points};
#[allow(unused_imports)]
use crate::cpu::basis_prism::{prism_nodes, prism_view};
#[allow(unused_imports)]
use crate::cpu::basis_pyramid::pyramid_view;
#[allow(unused_imports)]
use crate::cpu::basis_simplex::{
    simplex_dofs, simplex_grad, simplex_interp, simplex_points, simplex_rule, simplex_supported,
    simplex_view,
};
#[allow(unused_imports)]
use crate::cpu::batch::{block, lemma_whole_block};
#[allow(unused_imports)]
use crate::cpu::convert::{exact_storage, kept, lemma_kept_sum};
#[allow(unused_imports)]
use crate::cpu::dense::DenseView;
#[allow(unused_imports)]
use crate::cpu::gradient_laws::sampled;
#[allow(unused_imports)]
use crate::cpu::lagrange_laws::distinct;
#[allow(unused_imports)]
use crate::cpu::nodal::nodal_refusal;
#[allow(unused_imports)]
use crate::cpu::product_laws::{
    law_prism_products_are_mapped, law_pyramid_products_are_mapped, pairwise, prism_gradients,
    pyramid_gradients, slope_row, slopes_take, triplewise,
};
#[allow(unused_imports)]
use crate::cpu::quadrature::{gauss_points, lobatto_points, tolerance};
#[allow(unused_imports)]
use crate::cpu::reproduction_laws::{
    kept_values, law_stored_tables_reproduce, on_or_away, power_slopes, powers, row_values,
    rows_take,
};
#[allow(unused_imports)]
use crate::cpu::simplex_reproduction::{
    law_simplex_reproduces, simplex_functions, simplex_monomial, simplex_point, simplex_samples,
};
#[allow(unused_imports)]
use crate::enums::{ElemTopology, EvalMode, QuadMode};
#[allow(unused_imports)]
use crate::exact::exact_integers;
#[allow(unused_imports)]
use crate::index::lemma_flat;
use crate::scalar::{Real, Scalar};
#[allow(unused_imports)]
use crate::scalar::{exact_field, exact_ring, lemma_sum_ext, sum};

verus! {

// ── prism ───────────────────────────────────────────────────────────────────

/// Monomial `t` at the quadrature points of the triangle.
pub open spec fn tri_point_values<T: Scalar>(q: int, t: int) -> spec_fn(int) -> T {
    let pts = simplex_points::<T::Work>(ElemTopology::Triangle, q);
    |i: int|
        kept::<T>(
            simplex_monomial(
                ElemTopology::Triangle,
                simplex_point(ElemTopology::Triangle, pts, i),
                t,
                3,
            ),
        )
}

/// Derivatives of monomial `t` at the quadrature points of the triangle.
pub open spec fn tri_point_slopes<T: Scalar>(q: int, t: int) -> spec_fn(int, int) -> T {
    let pts = simplex_points::<T::Work>(ElemTopology::Triangle, q);
    |i: int, d: int|
        kept::<T>(
            simplex_monomial(
                ElemTopology::Triangle,
                simplex_point(ElemTopology::Triangle, pts, i),
                t,
                d,
            ),
        )
}

/// The tables of the triangle take a monomial from its values at the nodes to its values and
/// derivatives at the points.
proof fn lemma_triangle_tables<T: Scalar>(poly: usize, q: usize, t: int)
    requires
        exact_field::<T::Work>(),
        exact_integers::<T::Work>(),
        exact_storage::<T>(),
        simplex_supported(ElemTopology::Triangle, poly as int),
        0 <= t < simplex_dofs(ElemTopology::Triangle, poly as int),
    ensures
        ({
            let tri = simplex_view::<T>(ElemTopology::Triangle, poly, 1, q);
            let n = simplex_dofs(ElemTopology::Triangle, poly as int);
            let f = kept_values::<T>(simplex_samples(ElemTopology::Triangle, poly as int, t));
            &&& rows_take(tri.interp, q as int, n, f, tri_point_values::<T>(q as int, t))
            &&& slopes_take(tri.grad, q as int, n, 2, f, tri_point_slopes::<T>(q as int, t))
        }),
{
    let topo = ElemTopology::Triangle;
    let (p, nq, n) = (poly as int, q as int, simplex_dofs(topo, poly as int));
    let tri = simplex_view::<T>(topo, poly, 1, q);
    let pts = simplex_points::<T::Work>(topo, nq);
    let s = simplex_samples::<T::Work>(topo, p, t);
    let f = kept_values::<T>(s);
    let values = simplex_interp::<T::Work>(topo, p, nq);
    let slopes = simplex_grad::<T::Work>(topo, p, nq);
    assert forall|i: int| 0 <= i < nq implies sum(n, #[trigger] row_values(tri.interp, n, i, f))
        == tri_point_values::<T>(nq, t)(i) by {
        let a = simplex_functions(topo, p, pts, i, 3);
        let h = row_values(tri.interp, n, i, f);
        law_simplex_reproduces(topo, p, pts, i, t, 3);
        assert forall|k: int| 0 <= k < n implies #[trigger] h(k) == kept::<T>(a(k)).times(
            kept::<T>(s(k)),
        ) by {
            lemma_flat(i, nq, k, n);
            assert(tri.interp[i * n + k] == kept::<T>(values[i * n + k]));
        }
        lemma_kept_sum::<T>(n, a, s, sampled(a, s), h);
    }
    assert forall|i: int, d: int| 0 <= i < nq && 0 <= d < 2 implies sum(
        n,
        #[trigger] slope_row(tri.grad, n, 2, i, d, f),
    ) == tri_point_slopes::<T>(nq, t)(i, d) by {
        let a = simplex_functions(topo, p, pts, i, d);
        let h = slope_row(tri.grad, n, 2, i, d, f);
        law_simplex_reproduces(topo, p, pts, i, t, d);
        assert forall|k: int| 0 <= k < n implies #[trigger] h(k) == kept::<T>(a(k)).times(
            kept::<T>(s(k)),
        ) by {
            lemma_flat(k, n, d, 2);
            lemma_flat(i, nq, k * 2 + d, n * 2);
            assert((i * n + k) * 2 + d == i * (n * 2) + (k * 2 + d)) by (nonlinear_arith);
            assert(tri.grad[(i * n + k) * 2 + d] == kept::<T>(slopes[i * (n * 2) + (k * 2 + d)]));
        }
        lemma_kept_sum::<T>(n, a, s, sampled(a, s), h);
    }
}

/// The prism takes the product of monomial `t` on the triangle, up to the order of the triangle,
/// and power `m` on the segment, below the number of its nodes, from its values at the nodes to
/// its values and its gradient at the points.
pub proof fn law_prism_basis_is_exact<T: Scalar>(
    tri_poly: usize,
    line_p: usize,
    tri_q: usize,
    line_q: usize,
    ncomp: usize,
    t: int,
    m: int,
)
    requires
        exact_ring::<T>(),
        exact_field::<T::Work>(),
        exact_integers::<T::Work>(),
        exact_storage::<T>(),
        <T::Work as Real>::zero_val().magnitude().less(tolerance::<T::Work>()),
        simplex_supported(ElemTopology::Triangle, tri_poly as int),
        simplex_rule(ElemTopology::Triangle, tri_q as int),
        distinct(
            prism_nodes::<T::Work>(line_p as int),
            prism_nodes::<T::Work>(line_p as int).len() as int,
        ),
        forall|j: int|
            0 <= j < line_q ==> on_or_away(
                prism_nodes::<T::Work>(line_p as int),
                #[trigger] gauss_points::<T::Work>(line_q as int)[j],
            ),
        0 <= t < simplex_dofs(ElemTopology::Triangle, tri_poly as int),
        0 <= m < prism_nodes::<T::Work>(line_p as int).len(),
    ensures
        ({
            let prism = prism_view::<T>(tri_poly, line_p, tri_q, line_q, ncomp);
            let nodes = prism_nodes::<T::Work>(line_p as int);
            let points = gauss_points::<T::Work>(line_q as int);
            let td = simplex_dofs(ElemTopology::Triangle, tri_poly as int);
            let (ld, lq) = (nodes.len() as int, line_q as int);
            let gt = tri_point_values::<T>(tri_q as int, t);
            let gl = kept_values::<T>(powers(points, m));
            let f = pairwise(
                ld,
                kept_values::<T>(simplex_samples(ElemTopology::Triangle, tri_poly as int, t)),
                kept_values::<T>(powers(nodes, m)),
            );
            &&& rows_take(prism.interp, tri_q * lq, td * ld, f, pairwise(lq, gt, gl))
            &&& slopes_take(
                prism.grad,
                tri_q * lq,
                td * ld,
                3,
                f,
                prism_gradients(
                    lq,
                    gt,
                    gl,
                    tri_point_slopes::<T>(tri_q as int, t),
                    kept_values::<T>(power_slopes(points, m)),
                ),
            )
        }),
{
    let nodes = prism_nodes::<T::Work>(line_p as int);
    let points = gauss_points::<T::Work>(line_q as int);
    lemma_triangle_tables::<T>(tri_poly, tri_q, t);
    law_stored_tables_reproduce::<T>(nodes, points, m);
    law_prism_products_are_mapped(
        tri_poly,
        line_p,
        tri_q,
        line_q,
        ncomp,
        kept_values::<T>(simplex_samples(ElemTopology::Triangle, tri_poly as int, t)),
        kept_values::<T>(powers(nodes, m)),
        tri_point_values::<T>(tri_q as int, t),
        kept_values::<T>(powers(points, m)),
        tri_point_slopes::<T>(tri_q as int, t),
        kept_values::<T>(power_slopes(points, m)),
    );
}

// ── pyramid ─────────────────────────────────────────────────────────────────

/// The pyramid takes the monomial with exponents `a`, `b`, `c` in the coordinates of the cube that
/// it is the image of, each below the number of nodes per direction, from its values at the nodes
/// to its values at the points and to its gradient in the coordinates of the pyramid.
pub proof fn law_pyramid_basis_is_exact<T: Scalar>(
    p: usize,
    q: usize,
    qmode: QuadMode,
    ncomp: usize,
    a: int,
    b: int,
    c: int,
)
    requires
        exact_ring::<T>(),
        exact_field::<T::Work>(),
        exact_integers::<T::Work>(),
        exact_storage::<T>(),
        <T::Work as Real>::zero_val().magnitude().less(tolerance::<T::Work>()),
        q >= 1,
        distinct(lobatto_points::<T::Work>(p as int), p as int),
        forall|j: int|
            0 <= j < q ==> on_or_away(
                lobatto_points::<T::Work>(p as int),
                #[trigger] rule_points::<T::Work>(qmode, q as int)[j],
            ),
        0 <= a < p,
        0 <= b < p,
        0 <= c < p,
    ensures
        ({
            let nodes = lobatto_points::<T::Work>(p as int);
            let points = rule_points::<T::Work>(qmode, q as int);
            let pyramid = pyramid_view::<T>(p, q, qmode, ncomp);
            let gx = kept_values::<T>(powers(points, a));
            let gy = kept_values::<T>(powers(points, b));
            let gz = kept_values::<T>(powers(points, c));
            let f = triplewise(
                p as int,
                kept_values::<T>(powers(nodes, a)),
                kept_values::<T>(powers(nodes, b)),
                kept_values::<T>(powers(nodes, c)),
            );
            &&& rows_take(
                pyramid.interp,
                q * q * q,
                p * p * p,
                f,
                triplewise(q as int, gx, gy, gz),
            )
            &&& slopes_take(
                pyramid.grad,
                q * q * q,
                p * p * p,
                3,
                f,
                pyramid_gradients(
                    lagrange_view::<T>(3, 1, p, q, qmode),
                    gx,
                    gy,
                    gz,
                    kept_values::<T>(power_slopes(points, a)),
                    kept_values::<T>(power_slopes(points, b)),
                    kept_values::<T>(power_slopes(points, c)),
                ),
            )
        }),
{
    let nodes = lobatto_points::<T::Work>(p as int);
    let points = rule_points::<T::Work>(qmode, q as int);
    law_stored_tables_reproduce::<T>(nodes, points, a);
    law_stored_tables_reproduce::<T>(nodes, points, b);
    law_stored_tables_reproduce::<T>(nodes, points, c);
    law_pyramid_products_are_mapped(
        p,
        q,
        qmode,
        ncomp,
        kept_values::<T>(powers(nodes, a)),
        kept_values::<T>(powers(nodes, b)),
        kept_values::<T>(powers(nodes, c)),
        kept_values::<T>(powers(points, a)),
        kept_values::<T>(powers(points, b)),
        kept_values::<T>(powers(points, c)),
        kept_values::<T>(power_slopes(points, a)),
        kept_values::<T>(power_slopes(points, b)),
        kept_values::<T>(power_slopes(points, c)),
    );
}

// ── application ─────────────────────────────────────────────────────────────

/// Where the interpolation table takes `f` to `g`, and a component of an element holds `f` at the
/// nodes, interpolation gives `g` at the points of that element. This holds of the bases of
/// simplices, prisms and pyramids, whose application is that of their tables.
pub proof fn law_table_values_are_applied<T: Real>(
    view: DenseView<T>,
    num_elem: int,
    u: Seq<T>,
    v: Seq<T>,
    e: int,
    comp: int,
    i: int,
    f: spec_fn(int) -> T,
    g: spec_fn(int) -> T,
)
    requires
        rows_take(
            view.interp,
            view.shape.num_qpoints as int,
            view.shape.num_dof as int,
            f,
            g,
        ),
        nodal_refusal(
            view.family,
            view.shape,
            num_elem,
            false,
            EvalMode::Interp,
            u.len(),
            v.len(),
        ) is None,
        0 <= e < num_elem,
        0 <= comp < view.shape.ncomp,
        0 <= i < view.shape.num_qpoints,
        forall|k: int|
            0 <= k < view.shape.num_dof ==> #[trigger] block(u, e, view.shape.nodal_len())[comp
                * view.shape.num_dof + k] == f(k),
    ensures
        block(
            view.applied(num_elem, false, EvalMode::Interp, u, v),
            e,
            view.shape.num_qpoints * view.shape.ncomp,
        )[i * view.shape.ncomp + comp] == g(i),
{
    let s = view.shape;
    let (nd, nc, nq) = (s.num_dof as int, s.ncomp as int, s.num_qpoints as int);
    let w = block(u, e, nd * nc);
    let h = view.interp_terms(w, i, comp);
    lemma_flat(i, nq, comp, nc);
    lemma_flat(e, num_elem, i * nc + comp, nq * nc);
    lemma_sum_ext(nd, h, row_values(view.interp, nd, i, f));
    lemma_whole_block(e, num_elem, nq * nc);
    let out = view.applied(num_elem, false, EvalMode::Interp, u, v);
    assert(out[e * (nq * nc) + (i * nc + comp)] == sum(nd, h));
}

/// Where the table of gradients takes `f` to `g`, and a component of an element holds `f` at the
/// nodes, differentiation gives `g` at the points of that element.
pub proof fn law_table_gradients_are_applied<T: Real>(
    view: DenseView<T>,
    num_elem: int,
    u: Seq<T>,
    v: Seq<T>,
    e: int,
    comp: int,
    i: int,
    d: int,
    f: spec_fn(int) -> T,
    g: spec_fn(int, int) -> T,
)
    requires
        slopes_take(
            view.grad,
            view.shape.num_qpoints as int,
            view.shape.num_dof as int,
            view.shape.dim as int,
            f,
            g,
        ),
        nodal_refusal(
            view.family,
            view.shape,
            num_elem,
            false,
            EvalMode::Grad,
            u.len(),
            v.len(),
        ) is None,
        0 <= e < num_elem,
        0 <= comp < view.shape.ncomp,
        0 <= i < view.shape.num_qpoints,
        0 <= d < view.shape.dim,
        forall|k: int|
            0 <= k < view.shape.num_dof ==> #[trigger] block(u, e, view.shape.nodal_len())[comp
                * view.shape.num_dof + k] == f(k),
    ensures
        block(
            view.applied(num_elem, false, EvalMode::Grad, u, v),
            e,
            view.shape.num_qpoints * view.shape.qcomp(),
        )[i * view.shape.qcomp() + (comp * view.shape.dim + d)] == g(i, d),
{
    let s = view.shape;
    let (nd, nc, nq, dim) = (
        s.num_dof as int,
        s.ncomp as int,
        s.num_qpoints as int,
        s.dim as int,
    );
    let qc = nc * dim;
    let w = block(u, e, nd * nc);
    let h = view.grad_terms(w, i, comp, d);
    lemma_flat(comp, nc, d, dim);
    lemma_flat(i, nq, comp * dim + d, qc);
    lemma_flat(e, num_elem, i * qc + (comp * dim + d), nq * qc);
    lemma_sum_ext(nd, h, slope_row(view.grad, nd, dim, i, d, f));
    lemma_whole_block(e, num_elem, nq * qc);
    let out = view.applied(num_elem, false, EvalMode::Grad, u, v);
    assert(out[e * (nq * qc) + (i * qc + (comp * dim + d))] == sum(nd, h));
}

} // verus!
