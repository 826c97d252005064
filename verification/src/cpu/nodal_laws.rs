//! Divergence and curl of the nodal bases, in terms of the derivatives of the components.

use vstd::prelude::*;

use crate::basis::BasisTrait;
#[allow(unused_imports)]
use crate::cpu::basis_lagrange::{lagrange_view, LagrangeBasis};
#[allow(unused_imports)]
use crate::cpu::basis_simplex::{
    simplex_points, simplex_rule, simplex_supported, simplex_view, SimplexBasis,
};
#[allow(unused_imports)]
use crate::cpu::batch::{block, lemma_whole_block};
#[allow(unused_imports)]
use crate::cpu::convert::{exact_storage, lemma_read_back, widened_all};
#[allow(unused_imports)]
use crate::cpu::dense::DenseView;
#[allow(unused_imports)]
use crate::cpu::lagrange_reproduction::{
    exact_setting, law_lagrange_gradient_is_exact, monomial_at, nodal_monomial,
};
#[allow(unused_imports)]
use crate::cpu::nodal::{
    diagonal, nodal_applied_of, nodal_image_of, nodal_refusal, Family, NodalShape,
};
#[allow(unused_imports)]
use crate::cpu::product_laws::slopes_take;
#[allow(unused_imports)]
use crate::cpu::product_reproduction::law_table_gradients_are_applied;
#[allow(unused_imports)]
use crate::cpu::simplex_reproduction::{
    differentiable, law_simplex_gradient_is_exact, polynomial, simplex_node, simplex_point,
};
#[allow(unused_imports)]
use crate::enums::{ElemTopology, EvalMode, QuadMode};
#[allow(unused_imports)]
use crate::exact::exact_integers;
#[allow(unused_imports)]
use crate::index::{lemma_flat, lemma_mul_le};
use crate::scalar::{Real, Scalar};
#[allow(unused_imports)]
use crate::scalar::{exact_field, exact_ring, lemma_sum_ext, sum};

verus! {

// ── from the gradient ───────────────────────────────────────────────────────

/// The derivative of component `c` along axis `d` at point `i` of element `e`, as differentiation
/// returns it.
pub open spec fn partial<T>(s: NodalShape, out: Seq<T>, e: int, i: int, c: int, d: int) -> T {
    block(out, e, s.num_qpoints * s.qcomp())[i * s.qcomp() + (c * s.dim + d)]
}

/// The derivatives of the components along their own axes.
pub open spec fn own_partials<T>(s: NodalShape, out: Seq<T>, e: int, i: int) -> spec_fn(int) -> T {
    |d: int| partial(s, out, e, i, d, d)
}

/// An output of differentiation, before it is written.
pub open spec fn blank<T: Real>(s: NodalShape, num_elem: int) -> Seq<T> {
    Seq::new((num_elem * (s.num_qpoints * s.qcomp())) as nat, |k: int| T::zero_val())
}

/// Where an element map is applied, the output holds the images block by block.
proof fn lemma_applied<T: Real>(
    family: Family,
    s: NodalShape,
    weights: Seq<T>,
    image: spec_fn(Seq<T>) -> Seq<T>,
    num_elem: int,
    mode: EvalMode,
    u: Seq<T>,
    v: Seq<T>,
    e: int,
    k: int,
)
    requires
        nodal_refusal(family, s, num_elem, false, mode, u.len(), v.len()) is None,
        mode == EvalMode::Grad || mode == EvalMode::Div || mode == EvalMode::Curl,
        0 <= e < num_elem,
        0 <= k < s.point_len(mode),
    ensures
        block(
            nodal_applied_of(family, s, weights, image, num_elem, false, mode, u, v),
            e,
            s.point_len(mode),
        )[k] == image(block(u, e, s.nodal_len()))[k],
{
    let n = s.point_len(mode);
    lemma_flat(e, num_elem, k, n);
    lemma_whole_block(e, num_elem, n);
    let out = nodal_applied_of(family, s, weights, image, num_elem, false, mode, u, v);
    assert(out[e * n + k] == image(block(u, e, s.nodal_len()))[k]);
}

/// Divergence is the sum of the derivatives of the components along their own axes, and the parts
/// of a curl are differences of mixed derivatives: in the plane `∂v_1/∂x_0 − ∂v_0/∂x_1`, in space
/// `∂v_2/∂x_1 − ∂v_1/∂x_2`, `∂v_0/∂x_2 − ∂v_2/∂x_0` and `∂v_1/∂x_0 − ∂v_0/∂x_1`. The derivatives
/// are those that differentiation of the same values returns.
pub proof fn law_divergence_and_curl_combine_partials<T: Real>(
    family: Family,
    s: NodalShape,
    weights: Seq<T>,
    interp: spec_fn(Seq<T>) -> Seq<T>,
    grad: spec_fn(Seq<T>) -> Seq<T>,
    num_elem: int,
    u: Seq<T>,
    v: Seq<T>,
    w: Seq<T>,
    mode: EvalMode,
    e: int,
    i: int,
)
    requires
        nodal_refusal(family, s, num_elem, false, EvalMode::Grad, u.len(), v.len()) is None,
        nodal_refusal(family, s, num_elem, false, mode, u.len(), w.len()) is None,
        mode == EvalMode::Div || mode == EvalMode::Curl,
        0 <= e < num_elem,
        0 <= i < s.num_qpoints,
    ensures
        ({
            let out = nodal_applied_of(
                family,
                s,
                weights,
                nodal_image_of(s, interp, grad, EvalMode::Grad, false),
                num_elem,
                false,
                EvalMode::Grad,
                u,
                v,
            );
            let got = block(
                nodal_applied_of(
                    family,
                    s,
                    weights,
                    nodal_image_of(s, interp, grad, mode, false),
                    num_elem,
                    false,
                    mode,
                    u,
                    w,
                ),
                e,
                s.point_len(mode),
            );
            &&& mode == EvalMode::Div ==> got[i] == sum(s.dim as int, own_partials(s, out, e, i))
            &&& mode == EvalMode::Curl && s.dim == 2 ==> got[i] == partial(
                s,
                out,
                e,
                i,
                1,
                0,
            ).minus(partial(s, out, e, i, 0, 1))
            &&& mode == EvalMode::Curl && s.dim == 3 ==> {
                &&& got[i * 3] == partial(s, out, e, i, 2, 1).minus(partial(s, out, e, i, 1, 2))
                &&& got[i * 3 + 1] == partial(s, out, e, i, 0, 2).minus(partial(s, out, e, i, 2, 0))
                &&& got[i * 3 + 2] == partial(s, out, e, i, 1, 0).minus(partial(s, out, e, i, 0, 1))
            }
        }),
{
    let (dim, nq, qc) = (s.dim as int, s.num_qpoints as int, s.qcomp());
    let g = nodal_image_of(s, interp, grad, EvalMode::Grad, false);
    let h = nodal_image_of(s, interp, grad, mode, false);
    let out = nodal_applied_of(family, s, weights, g, num_elem, false, EvalMode::Grad, u, v);
    let x = block(u, e, s.nodal_len());
    assert(qc == dim * dim);
    assert forall|c: int, d: int| 0 <= c < dim && 0 <= d < dim implies #[trigger] partial(
        s,
        out,
        e,
        i,
        c,
        d,
    ) == grad(x)[i * (dim * dim) + (c * dim + d)] by {
        lemma_flat(c, dim, d, dim);
        lemma_flat(i, nq, c * dim + d, qc);
        lemma_applied(
            family,
            s,
            weights,
            g,
            num_elem,
            EvalMode::Grad,
            u,
            v,
            e,
            i * qc + (c * dim + d),
        );
    }
    if mode == EvalMode::Div {
        lemma_applied(family, s, weights, h, num_elem, mode, u, w, e, i);
        let (a, b) = (diagonal(dim, grad(x), i), own_partials(s, out, e, i));
        assert forall|d: int| 0 <= d < dim implies #[trigger] a(d) == b(d) by {
            assert(partial(s, out, e, i, d, d) == grad(x)[i * (dim * dim) + (d * dim + d)]);
        }
        lemma_sum_ext(dim, a, b);
    } else if dim == 2 {
        assert(s.point_len(mode) == nq);
        lemma_applied(family, s, weights, h, num_elem, mode, u, w, e, i);
        assert(partial(s, out, e, i, 1, 0) == grad(x)[i * 4 + 2]);
        assert(partial(s, out, e, i, 0, 1) == grad(x)[i * 4 + 1]);
    } else {
        lemma_applied(family, s, weights, h, num_elem, mode, u, w, e, i * 3);
        lemma_applied(family, s, weights, h, num_elem, mode, u, w, e, i * 3 + 1);
        lemma_applied(family, s, weights, h, num_elem, mode, u, w, e, i * 3 + 2);
        assert(partial(s, out, e, i, 2, 1) == grad(x)[i * 9 + 7]);
        assert(partial(s, out, e, i, 1, 2) == grad(x)[i * 9 + 5]);
        assert(partial(s, out, e, i, 0, 2) == grad(x)[i * 9 + 2]);
        assert(partial(s, out, e, i, 2, 0) == grad(x)[i * 9 + 6]);
        assert(partial(s, out, e, i, 1, 0) == grad(x)[i * 9 + 3]);
        assert(partial(s, out, e, i, 0, 1) == grad(x)[i * 9 + 1]);
    }
}

/// The sizes that divergence and curl accept are sizes that differentiation accepts.
proof fn lemma_gradient_is_accepted<T: Real>(
    family: Family,
    s: NodalShape,
    num_elem: int,
    ulen: nat,
    wlen: nat,
    mode: EvalMode,
)
    requires
        nodal_refusal(family, s, num_elem, false, mode, ulen, wlen) is None,
        mode == EvalMode::Div || mode == EvalMode::Curl,
        0 <= num_elem,
    ensures
        nodal_refusal(
            family,
            s,
            num_elem,
            false,
            EvalMode::Grad,
            ulen,
            blank::<T>(s, num_elem).len(),
        ) is None,
        s.ncomp == s.dim,
{
    lemma_mul_le(0, s.ncomp as int, 0, s.dim as int);
    lemma_mul_le(0, s.num_qpoints as int, 0, s.qcomp());
    lemma_mul_le(0, num_elem, 0, s.num_qpoints * s.qcomp());
}

// ── functions of the components ─────────────────────────────────────────────

/// What divergence gives at a point where the derivative of component `c` along axis `d` is
/// `g(c, d)`.
pub open spec fn divergence_of<T: Real>(dim: int, g: spec_fn(int, int) -> T) -> T {
    sum(dim, |d: int| g(d, d))
}

/// Component `k` of what the curl gives at a point where the derivative of component `c` along
/// axis `d` is `g(c, d)`.
pub open spec fn curl_of<T: Real>(dim: int, g: spec_fn(int, int) -> T, k: int) -> T {
    if dim == 2 || k == 2 {
        g(1, 0).minus(g(0, 1))
    } else if k == 0 {
        g(2, 1).minus(g(1, 2))
    } else {
        g(0, 2).minus(g(2, 0))
    }
}

/// Known derivatives make up the divergence and the curl.
proof fn lemma_known_partials<T: Real>(
    family: Family,
    s: NodalShape,
    weights: Seq<T>,
    interp: spec_fn(Seq<T>) -> Seq<T>,
    grad: spec_fn(Seq<T>) -> Seq<T>,
    num_elem: int,
    u: Seq<T>,
    w: Seq<T>,
    mode: EvalMode,
    e: int,
    i: int,
    k: int,
    g: spec_fn(int, int) -> T,
)
    requires
        nodal_refusal(family, s, num_elem, false, mode, u.len(), w.len()) is None,
        mode == EvalMode::Div || mode == EvalMode::Curl,
        0 <= e < num_elem,
        0 <= i < s.num_qpoints,
        0 <= k < s.curl_comps(),
        forall|c: int, d: int|
            0 <= c < s.dim && 0 <= d < s.dim ==> #[trigger] g(c, d) == partial(
                s,
                nodal_applied_of(
                    family,
                    s,
                    weights,
                    nodal_image_of(s, interp, grad, EvalMode::Grad, false),
                    num_elem,
                    false,
                    EvalMode::Grad,
                    u,
                    blank(s, num_elem),
                ),
                e,
                i,
                c,
                d,
            ),
    ensures
        ({
            let got = block(
                nodal_applied_of(
                    family,
                    s,
                    weights,
                    nodal_image_of(s, interp, grad, mode, false),
                    num_elem,
                    false,
                    mode,
                    u,
                    w,
                ),
                e,
                s.point_len(mode),
            );
            &&& mode == EvalMode::Div ==> got[i] == divergence_of(s.dim as int, g)
            &&& mode == EvalMode::Curl ==> got[i * s.curl_comps() + k] == curl_of(
                s.dim as int,
                g,
                k,
            )
        }),
{
    let v = blank(s, num_elem);
    lemma_gradient_is_accepted::<T>(family, s, num_elem, u.len(), w.len(), mode);
    law_divergence_and_curl_combine_partials(
        family,
        s,
        weights,
        interp,
        grad,
        num_elem,
        u,
        v,
        w,
        mode,
        e,
        i,
    );
    let out = nodal_applied_of(
        family,
        s,
        weights,
        nodal_image_of(s, interp, grad, EvalMode::Grad, false),
        num_elem,
        false,
        EvalMode::Grad,
        u,
        v,
    );
    let (a, b) = (own_partials(s, out, e, i), |d: int| g(d, d));
    assert forall|d: int| 0 <= d < s.dim implies #[trigger] a(d) == b(d) by {
        assert(g(d, d) == partial(s, out, e, i, d, d));
    }
    lemma_sum_ext(s.dim as int, a, b);
    if s.dim >= 2 {
        assert(g(1, 0) == partial(s, out, e, i, 1, 0));
        assert(g(0, 1) == partial(s, out, e, i, 0, 1));
    }
    if s.dim == 3 {
        assert(g(2, 1) == partial(s, out, e, i, 2, 1));
        assert(g(1, 2) == partial(s, out, e, i, 1, 2));
        assert(g(0, 2) == partial(s, out, e, i, 0, 2));
        assert(g(2, 0) == partial(s, out, e, i, 2, 0));
    }
}

/// Where the table of gradients takes the nodal values `f(c)` of component `c` to the derivatives
/// `g(c)`, divergence and curl give those of the field with these derivatives. This holds of the
/// bases of simplices, prisms and pyramids, whose application is that of their tables.
pub proof fn law_table_divergence_and_curl_are_applied<T: Real>(
    view: DenseView<T>,
    num_elem: int,
    u: Seq<T>,
    w: Seq<T>,
    mode: EvalMode,
    e: int,
    i: int,
    k: int,
    f: spec_fn(int) -> (spec_fn(int) -> T),
    g: spec_fn(int) -> (spec_fn(int, int) -> T),
)
    requires
        nodal_refusal(
            view.family,
            view.shape,
            num_elem,
            false,
            mode,
            u.len(),
            w.len(),
        ) is None,
        mode == EvalMode::Div || mode == EvalMode::Curl,
        0 <= e < num_elem,
        0 <= i < view.shape.num_qpoints,
        0 <= k < view.shape.curl_comps(),
        forall|c: int|
            0 <= c < view.shape.ncomp ==> slopes_take(
                view.grad,
                view.shape.num_qpoints as int,
                view.shape.num_dof as int,
                view.shape.dim as int,
                #[trigger] f(c),
                g(c),
            ),
        forall|c: int, n: int|
            0 <= c < view.shape.ncomp && 0 <= n < view.shape.num_dof ==> #[trigger] block(
                u,
                e,
                view.shape.nodal_len(),
            )[c * view.shape.num_dof + n] == f(c)(n),
    ensures
        ({
            let s = view.shape;
            let got = block(
                view.applied(num_elem, false, mode, u, w),
                e,
                s.point_len(mode),
            );
            let slopes = |c: int, d: int| g(c)(i, d);
            &&& mode == EvalMode::Div ==> got[i] == divergence_of(s.dim as int, slopes)
            &&& mode == EvalMode::Curl ==> got[i * s.curl_comps() + k] == curl_of(
                s.dim as int,
                slopes,
                k,
            )
        }),
{
    let s = view.shape;
    let v = blank(s, num_elem);
    lemma_gradient_is_accepted::<T>(view.family, s, num_elem, u.len(), w.len(), mode);
    let slopes = |c: int, d: int| g(c)(i, d);
    let out = view.applied(num_elem, false, EvalMode::Grad, u, v);
    assert forall|c: int, d: int| 0 <= c < s.dim && 0 <= d < s.dim implies #[trigger] slopes(c, d)
        == partial(s, out, e, i, c, d) by {
        assert forall|n: int| 0 <= n < s.num_dof implies #[trigger] block(u, e, s.nodal_len())[c
            * s.num_dof + n] == f(c)(n) by {}
        law_table_gradients_are_applied(view, num_elem, u, v, e, c, i, d, f(c), g(c));
    }
    lemma_known_partials(
        view.family,
        s,
        view.weights,
        view.interp_image(false),
        view.grad_image(false),
        num_elem,
        u,
        w,
        mode,
        e,
        i,
        k,
        slopes,
    );
}

// ── tensor-product basis ────────────────────────────────────────────────────

/// Where the components of an element hold monomials at the nodes, with exponents below the
/// number of nodes per direction, divergence and curl give at every point, with the coordinates
/// that the basis reports for it, those of the field with these components.
pub proof fn law_lagrange_divergence_and_curl_are_exact<T: Scalar>(
    basis: LagrangeBasis<T>,
    dim: usize,
    ncomp: usize,
    p: usize,
    q: usize,
    qmode: QuadMode,
    num_elem: int,
    u: Seq<T>,
    w: Seq<T>,
    mode: EvalMode,
    e: int,
    i: int,
    k: int,
    powers: spec_fn(int) -> (int, int, int),
)
    requires
        exact_setting::<T>(p, q, qmode),
        basis.wf(),
        basis@ == lagrange_view::<T>(dim, ncomp, p, q, qmode),
        basis.refusal(num_elem, false, mode, u.len(), w.len()) is None,
        mode == EvalMode::Div || mode == EvalMode::Curl,
        0 <= e < num_elem,
        0 <= i < basis.qpoints(),
        0 <= k < basis@.shape().curl_comps(),
        forall|c: int|
            0 <= c < ncomp ==> {
                let (a, b, z) = #[trigger] powers(c);
                0 <= a < p && 0 <= b < p && 0 <= z < p
            },
        forall|c: int|
            0 <= c < ncomp ==> #[trigger] block(
                block(u, e, basis.dofs() * ncomp),
                c,
                basis.dofs(),
            ) == nodal_monomial::<T>(p, dim, powers(c).0, powers(c).1, powers(c).2),
    ensures
        ({
            let s = basis@.shape();
            let got = block(
                basis.applied(num_elem, false, mode, u, w),
                e,
                s.point_len(mode),
            );
            let slopes = |c: int, d: int|
                monomial_at(
                    basis.point_values(),
                    dim as int,
                    i,
                    powers(c).0,
                    powers(c).1,
                    powers(c).2,
                    d,
                );
            &&& mode == EvalMode::Div ==> got[i] == divergence_of(dim as int, slopes)
            &&& mode == EvalMode::Curl ==> got[i * s.curl_comps() + k] == curl_of(
                dim as int,
                slopes,
                k,
            )
        }),
{
    let s = basis@.shape();
    let v = blank(s, num_elem);
    lemma_gradient_is_accepted::<T>(Family::Lagrange, s, num_elem, u.len(), w.len(), mode);
    let slopes = |c: int, d: int|
        monomial_at(
            basis.point_values(),
            dim as int,
            i,
            powers(c).0,
            powers(c).1,
            powers(c).2,
            d,
        );
    let out = basis.applied(num_elem, false, EvalMode::Grad, u, v);
    assert forall|c: int, d: int| 0 <= c < s.dim && 0 <= d < s.dim implies #[trigger] slopes(c, d)
        == partial(s, out, e, i, c, d) by {
        let (a, b, z) = powers(c);
        law_lagrange_gradient_is_exact(
            basis,
            dim,
            ncomp,
            p,
            q,
            qmode,
            num_elem,
            u,
            v,
            e,
            c,
            i,
            d,
            a,
            b,
            z,
        );
    }
    lemma_known_partials(
        Family::Lagrange,
        s,
        basis@.weights,
        basis@.interp_image(false),
        basis@.grad_image(false),
        num_elem,
        u,
        w,
        mode,
        e,
        i,
        k,
        slopes,
    );
}

// ── simplices ───────────────────────────────────────────────────────────────

/// Where the components of an element hold polynomials up to the order of the basis at the nodes,
/// divergence and curl give at every point, with the coordinates that the basis reports for it,
/// those of the field with these components.
pub proof fn law_simplex_divergence_and_curl_are_exact<T: Scalar>(
    b: SimplexBasis<T>,
    topo: ElemTopology,
    poly: usize,
    ncomp: usize,
    q: usize,
    num_elem: int,
    u: Seq<T>,
    w: Seq<T>,
    mode: EvalMode,
    e: int,
    i: int,
    k: int,
    parts: spec_fn(int) -> Seq<T>,
)
    requires
        exact_ring::<T>(),
        exact_field::<T::Work>(),
        exact_integers::<T::Work>(),
        exact_storage::<T>(),
        simplex_supported(topo, poly as int),
        simplex_rule(topo, q as int),
        b.wf(),
        b@ == simplex_view::<T>(topo, poly, ncomp, q),
        b.refusal(num_elem, false, mode, u.len(), w.len()) is None,
        mode == EvalMode::Div || mode == EvalMode::Curl,
        0 <= e < num_elem,
        0 <= i < q,
        0 <= k < b@.shape.curl_comps(),
        differentiable(
            topo,
            poly as int,
            simplex_point(topo, widened_all::<T>(b.point_values()), i),
        ),
        forall|c: int| 0 <= c < ncomp ==> (#[trigger] parts(c)).len() == b.dofs(),
        forall|c: int, n: int|
            0 <= c < ncomp && 0 <= n < b.dofs() ==> #[trigger] block(u, e, b.dofs() * ncomp)[c
                * b.dofs() + n] == polynomial(
                topo,
                parts(c),
                simplex_node(topo, poly as int, n),
                3,
            ),
    ensures
        ({
            let s = b@.shape;
            let got = block(b.applied(num_elem, false, mode, u, w), e, s.point_len(mode));
            let at = simplex_point(topo, widened_all::<T>(b.point_values()), i);
            let slopes = |c: int, d: int| polynomial(topo, parts(c), at, d);
            &&& mode == EvalMode::Div ==> got[i] == divergence_of(s.dim as int, slopes)
            &&& mode == EvalMode::Curl ==> got[i * s.curl_comps() + k] == curl_of(
                s.dim as int,
                slopes,
                k,
            )
        }),
{
    let s = b@.shape;
    let v = blank(s, num_elem);
    lemma_gradient_is_accepted::<T>(b@.family, s, num_elem, u.len(), w.len(), mode);
    let at = simplex_point(topo, widened_all::<T>(b.point_values()), i);
    let slopes = |c: int, d: int| polynomial(topo, parts(c), at, d);
    let out = b.applied(num_elem, false, EvalMode::Grad, u, v);
    lemma_read_back::<T>(simplex_points::<T::Work>(topo, q as int));
    assert forall|c: int, d: int| 0 <= c < s.dim && 0 <= d < s.dim implies #[trigger] slopes(c, d)
        == partial(s, out, e, i, c, d) by {
        assert forall|n: int| 0 <= n < b.dofs() implies #[trigger] block(
            u,
            e,
            b.dofs() * ncomp,
        )[c * b.dofs() + n] == polynomial(
            topo,
            parts(c),
            simplex_node(topo, poly as int, n),
            3,
        ) by {}
        law_simplex_gradient_is_exact(
            b,
            topo,
            poly,
            ncomp,
            q,
            num_elem,
            u,
            v,
            parts(c),
            e,
            c,
            i,
            d,
        );
    }
    lemma_known_partials(
        b@.family,
        s,
        b@.weights,
        b@.interp_image(false),
        b@.grad_image(false),
        num_elem,
        u,
        w,
        mode,
        e,
        i,
        k,
        slopes,
    );
}

// ── weights ─────────────────────────────────────────────────────────────────

/// In weight mode a nodal basis fills the output with the weights of its points, element after
/// element.
pub proof fn law_weight_mode_repeats_weights<T: Real>(
    family: Family,
    s: NodalShape,
    weights: Seq<T>,
    image: spec_fn(Seq<T>) -> Seq<T>,
    num_elem: int,
    u: Seq<T>,
    v: Seq<T>,
    e: int,
)
    requires
        nodal_refusal(family, s, num_elem, false, EvalMode::Weight, u.len(), v.len()) is None,
        weights.len() == s.num_qpoints,
        0 <= e < num_elem,
    ensures
        block(
            nodal_applied_of(family, s, weights, image, num_elem, false, EvalMode::Weight, u, v),
            e,
            s.num_qpoints as int,
        ) == weights,
{
    let n = s.num_qpoints as int;
    let out = nodal_applied_of(
        family,
        s,
        weights,
        image,
        num_elem,
        false,
        EvalMode::Weight,
        u,
        v,
    );
    lemma_whole_block(e, num_elem, n);
    assert forall|i: int| 0 <= i < n implies #[trigger] block(out, e, n)[i] == weights[i] by {
        lemma_flat(e, num_elem, i, n);
        assert(block(out, e, n)[i] == out[e * n + i]);
    }
    assert(block(out, e, n) =~= weights);
}

} // verus!
