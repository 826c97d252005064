//! What the tensor-product basis makes of the values of a monomial at its nodes.

use vstd::prelude::*;

use crate::basis::BasisTrait;
#[allow(unused_imports)]
use crate::cpu::basis_lagrange::{lagrange_view, power, rule_points, LagrangeBasis};
#[allow(unused_imports)]
use crate::cpu::batch::{block, lemma_whole_block};
#[allow(unused_imports)]
use crate::cpu::convert::{exact_storage, kept, stored};
#[allow(unused_imports)]
use crate::cpu::lagrange_laws::distinct;
#[allow(unused_imports)]
use crate::cpu::lagrange_tables::tensor_points;
#[allow(unused_imports)]
use crate::cpu::quadrature::{lobatto_points, tolerance};
#[allow(unused_imports)]
use crate::cpu::reproduction_laws::{
    along_axis, kept_values, law_lagrange_basis_is_exact, on_or_away, power_slope, powers,
    product_grid, to_power,
};
#[allow(unused_imports)]
use crate::enums::{EvalMode, QuadMode};
#[allow(unused_imports)]
use crate::exact::exact_integers;
#[allow(unused_imports)]
use crate::index::{lemma_flat, lemma_mul_le, lemma_split};
use crate::scalar::{Real, Scalar};
#[allow(unused_imports)]
use crate::scalar::{exact_field, exact_ring};

verus! {

/// Exact arithmetic, distinct nodes, and quadrature points that are nodes or clear of them.
pub open spec fn exact_setting<T: Scalar>(p: usize, q: usize, qmode: QuadMode) -> bool {
    &&& exact_ring::<T>()
    &&& exact_field::<T::Work>()
    &&& exact_integers::<T::Work>()
    &&& exact_storage::<T>()
    &&& <T::Work as Real>::zero_val().magnitude().less(tolerance::<T::Work>())
    &&& distinct(lobatto_points::<T::Work>(p as int), p as int)
    &&& forall|j: int|
        0 <= j < q ==> on_or_away(
            lobatto_points::<T::Work>(p as int),
            #[trigger] rule_points::<T::Work>(qmode, q as int)[j],
        )
}

/// The monomial with exponents `a`, `b`, `c` at the nodes.
pub open spec fn nodal_monomial<T: Scalar>(p: usize, dim: usize, a: int, b: int, c: int) -> Seq<T> {
    let nodes = lobatto_points::<T::Work>(p as int);
    product_grid(
        p as int,
        dim as int,
        kept_values::<T>(powers(nodes, a)),
        kept_values::<T>(powers(nodes, b)),
        kept_values::<T>(powers(nodes, c)),
    )
}

/// The monomial with exponents `a`, `b`, `c` at the quadrature points for `d == 3`, else its
/// derivative along axis `d`.
pub open spec fn point_monomial<T: Scalar>(
    q: usize,
    qmode: QuadMode,
    dim: usize,
    a: int,
    b: int,
    c: int,
    d: int,
) -> Seq<T> {
    let points = rule_points::<T::Work>(qmode, q as int);
    product_grid(
        q as int,
        dim as int,
        along_axis::<T>(points, a, 0, d),
        along_axis::<T>(points, b, 1, d),
        along_axis::<T>(points, c, 2, d),
    )
}

/// Power `m` of coordinate `t` of a point, or its slope if that is the axis of differentiation.
pub open spec fn factor_at<T: Scalar>(pts: Seq<T>, dim: int, i: int, t: int, m: int, d: int) -> T {
    let x = pts[i * dim + t].widened();
    kept::<T>(
        if t == d {
            power_slope(x, m)
        } else {
            to_power(x, m)
        },
    )
}

/// The monomial with exponents `a`, `b`, `c` at point `i` of a list of stored coordinates for
/// `d == 3`, else its derivative along axis `d`.
pub open spec fn monomial_at<T: Scalar>(
    pts: Seq<T>,
    dim: int,
    i: int,
    a: int,
    b: int,
    c: int,
    d: int,
) -> T {
    let fx = factor_at(pts, dim, i, 0, a, d);
    if dim <= 1 {
        fx
    } else if dim == 2 {
        factor_at(pts, dim, i, 1, b, d).times(fx)
    } else {
        factor_at(pts, dim, i, 2, c, d).times(factor_at(pts, dim, i, 1, b, d)).times(fx)
    }
}

/// The monomial at the points of the rule is the monomial at the reported coordinates.
proof fn lemma_reported_points<T: Scalar>(
    q: usize,
    qmode: QuadMode,
    dim: usize,
    x: Seq<T>,
    i: int,
    a: int,
    b: int,
    c: int,
    d: int,
)
    requires
        exact_storage::<T>(),
        1 <= q,
        1 <= dim <= 3,
        x == stored::<T>(
            tensor_points(
                rule_points::<T::Work>(qmode, q as int),
                power(q as int, dim as int),
                dim as int,
            ),
        ),
        0 <= i < power(q as int, dim as int),
    ensures
        point_monomial::<T>(q, qmode, dim, a, b, c, d)[i] == monomial_at(
            x,
            dim as int,
            i,
            a,
            b,
            c,
            d,
        ),
{
    let n = q as int;
    lemma_mul_le(0, n, 0, n);
    lemma_mul_le(0, n * n, 0, n);
    if dim == 1 {
        lemma_line_points(q, qmode, x, i, a, d);
    } else if dim == 2 {
        lemma_plane_points(q, qmode, x, i, a, b, d);
    } else {
        lemma_space_points(q, qmode, x, i, a, b, c, d);
    }
}

/// Coordinates along one axis.
proof fn lemma_line_points<T: Scalar>(
    q: usize,
    qmode: QuadMode,
    x: Seq<T>,
    i: int,
    a: int,
    d: int,
)
    requires
        exact_storage::<T>(),
        x == stored::<T>(tensor_points(rule_points::<T::Work>(qmode, q as int), q as int, 1)),
        0 <= i < q,
    ensures
        factor_at(x, 1, i, 0, a, d) == along_axis::<T>(
            rule_points::<T::Work>(qmode, q as int),
            a,
            0,
            d,
        )(i),
{
    let n = q as int;
    let t = tensor_points(rule_points::<T::Work>(qmode, n), n, 1);
    assert(i % n == i) by (nonlinear_arith)
        requires
            0 <= i < n,
    ;
    assert(t.len() == n);
    lemma_reported::<T>(t, i);
}

/// Coordinates along two axes.
proof fn lemma_plane_points<T: Scalar>(
    q: usize,
    qmode: QuadMode,
    x: Seq<T>,
    i: int,
    a: int,
    b: int,
    d: int,
)
    requires
        exact_storage::<T>(),
        x == stored::<T>(tensor_points(rule_points::<T::Work>(qmode, q as int), q * q, 2)),
        0 <= i < q * q,
    ensures
        ({
            let points = rule_points::<T::Work>(qmode, q as int);
            &&& factor_at(x, 2, i, 0, a, d) == along_axis::<T>(points, a, 0, d)(i % (q as int))
            &&& factor_at(x, 2, i, 1, b, d) == along_axis::<T>(points, b, 1, d)(i / (q as int))
        }),
{
    let n = q as int;
    let t = tensor_points(rule_points::<T::Work>(qmode, n), n * n, 2);
    lemma_split(i, n, n);
    let j = i / n;
    assert(j % n == j) by (nonlinear_arith)
        requires
            0 <= j < n,
    ;
    lemma_reported::<T>(t, 2 * i);
    lemma_reported::<T>(t, 2 * i + 1);
}

/// Coordinates along three axes.
proof fn lemma_space_points<T: Scalar>(
    q: usize,
    qmode: QuadMode,
    x: Seq<T>,
    i: int,
    a: int,
    b: int,
    c: int,
    d: int,
)
    requires
        exact_storage::<T>(),
        x == stored::<T>(tensor_points(rule_points::<T::Work>(qmode, q as int), q * q * q, 3)),
        0 <= i < q * q * q,
    ensures
        ({
            let points = rule_points::<T::Work>(qmode, q as int);
            let n = q as int;
            &&& factor_at(x, 3, i, 0, a, d) == along_axis::<T>(points, a, 0, d)(i % n)
            &&& factor_at(x, 3, i, 1, b, d) == along_axis::<T>(points, b, 1, d)(i / n % n)
            &&& factor_at(x, 3, i, 2, c, d) == along_axis::<T>(points, c, 2, d)(i / n / n)
        }),
{
    let n = q as int;
    let t = tensor_points(rule_points::<T::Work>(qmode, n), n * n * n, 3);
    lemma_split(i, n * n, n);
    lemma_split(i / n, n, n);
    lemma_reported::<T>(t, 3 * i);
    lemma_reported::<T>(t, 3 * i + 1);
    lemma_reported::<T>(t, 3 * i + 2);
}

/// A stored coordinate is read back.
proof fn lemma_reported<T: Scalar>(t: Seq<T::Work>, k: int)
    requires
        exact_storage::<T>(),
        0 <= k < t.len(),
    ensures
        stored::<T>(t)[k].widened() == t[k],
{
    reveal(exact_storage);
    assert(stored::<T>(t)[k] == kept::<T>(t[k]));
}

/// Where a component of an element holds a monomial at the nodes, with exponents below their
/// number per direction, interpolation gives the monomial at the quadrature points, that is, at
/// the coordinates that the basis reports.
pub proof fn law_lagrange_interpolation_is_exact<T: Scalar>(
    basis: LagrangeBasis<T>,
    dim: usize,
    ncomp: usize,
    p: usize,
    q: usize,
    qmode: QuadMode,
    num_elem: int,
    u: Seq<T>,
    v: Seq<T>,
    e: int,
    comp: int,
    i: int,
    a: int,
    b: int,
    c: int,
)
    requires
        exact_setting::<T>(p, q, qmode),
        basis.wf(),
        basis@ == lagrange_view::<T>(dim, ncomp, p, q, qmode),
        basis.refusal(num_elem, false, EvalMode::Interp, u.len(), v.len()) is None,
        0 <= e < num_elem,
        0 <= comp < ncomp,
        0 <= i < basis.qpoints(),
        0 <= a < p,
        0 <= b < p,
        0 <= c < p,
        block(block(u, e, basis.dofs() * ncomp), comp, basis.dofs()) == nodal_monomial::<T>(
            p,
            dim,
            a,
            b,
            c,
        ),
    ensures
        block(
            basis.applied(num_elem, false, EvalMode::Interp, u, v),
            e,
            basis.qpoints() * ncomp,
        )[i * ncomp + comp] == point_monomial::<T>(q, qmode, dim, a, b, c, 3)[i],
        point_monomial::<T>(q, qmode, dim, a, b, c, 3)[i] == monomial_at(
            basis.point_values(),
            dim as int,
            i,
            a,
            b,
            c,
            3,
        ),
{
    lemma_reported_points(q, qmode, dim, basis.point_values(), i, a, b, c, 3);
    let (nd, nc, nq) = (basis.dofs(), ncomp as int, basis.qpoints());
    law_lagrange_basis_is_exact::<T>(dim, ncomp, p, q, qmode, a, b, c, 3);
    lemma_flat(i, nq, comp, nc);
    lemma_flat(e, num_elem, i * nc + comp, nq * nc);
    lemma_whole_block(e, num_elem, nq * nc);
    let out = basis.applied(num_elem, false, EvalMode::Interp, u, v);
    let w = block(u, e, nd * nc);
    assert(out[e * (nq * nc) + (i * nc + comp)] == basis@.forward(3, block(w, comp, nd))[i]);
}

/// Where a component of an element holds a monomial at the nodes, with exponents below their
/// number per direction, differentiation gives its derivatives at the quadrature points, that is,
/// at the coordinates that the basis reports.
pub proof fn law_lagrange_gradient_is_exact<T: Scalar>(
    basis: LagrangeBasis<T>,
    dim: usize,
    ncomp: usize,
    p: usize,
    q: usize,
    qmode: QuadMode,
    num_elem: int,
    u: Seq<T>,
    v: Seq<T>,
    e: int,
    comp: int,
    i: int,
    d: int,
    a: int,
    b: int,
    c: int,
)
    requires
        exact_setting::<T>(p, q, qmode),
        basis.wf(),
        basis@ == lagrange_view::<T>(dim, ncomp, p, q, qmode),
        basis.refusal(num_elem, false, EvalMode::Grad, u.len(), v.len()) is None,
        0 <= e < num_elem,
        0 <= comp < ncomp,
        0 <= i < basis.qpoints(),
        0 <= d < dim,
        0 <= a < p,
        0 <= b < p,
        0 <= c < p,
        block(block(u, e, basis.dofs() * ncomp), comp, basis.dofs()) == nodal_monomial::<T>(
            p,
            dim,
            a,
            b,
            c,
        ),
    ensures
        block(
            basis.applied(num_elem, false, EvalMode::Grad, u, v),
            e,
            basis.qpoints() * (ncomp * dim),
        )[i * (ncomp * dim) + (comp * dim + d)] == point_monomial::<T>(
            q,
            qmode,
            dim,
            a,
            b,
            c,
            d,
        )[i],
        point_monomial::<T>(q, qmode, dim, a, b, c, d)[i] == monomial_at(
            basis.point_values(),
            dim as int,
            i,
            a,
            b,
            c,
            d,
        ),
{
    lemma_reported_points(q, qmode, dim, basis.point_values(), i, a, b, c, d);
    let (nd, nc, nq, nx) = (basis.dofs(), ncomp as int, basis.qpoints(), dim as int);
    let qc = nc * nx;
    law_lagrange_basis_is_exact::<T>(dim, ncomp, p, q, qmode, a, b, c, d);
    lemma_flat(comp, nc, d, nx);
    lemma_flat(i, nq, comp * nx + d, qc);
    lemma_flat(e, num_elem, i * qc + (comp * nx + d), nq * qc);
    lemma_whole_block(e, num_elem, nq * qc);
    let out = basis.applied(num_elem, false, EvalMode::Grad, u, v);
    let w = block(u, e, nd * nc);
    assert(out[e * (nq * qc) + (i * qc + (comp * nx + d))] == basis@.forward(
        d,
        block(w, comp, nd),
    )[i]);
}

} // verus!
