//! What the edge and face bases compute at the quadrature points that they report.

use vstd::prelude::*;

use crate::basis::BasisTrait;
#[allow(unused_imports)]
use crate::cpu::basis_nedelec::{nedelec_dim, nedelec_view, NedelecBasis};
#[allow(unused_imports)]
use crate::cpu::basis_rt::{rt_dim, rt_view, RaviartThomasBasis};
#[allow(unused_imports)]
use crate::cpu::batch::{block, lemma_whole_block};
#[allow(unused_imports)]
use crate::cpu::convert::{exact_storage, kept};
#[allow(unused_imports)]
use crate::cpu::curl_laws::{
    law_tet_curl_is_the_curl, law_tet_divergence_is_the_divergence,
    law_tet_edge_functions_are_cubics, law_tet_face_functions_are_cubics, law_tri_curl_is_the_curl,
    law_tri_divergence_is_the_divergence, law_tri_edge_functions_are_cubics,
    law_tri_face_functions_are_cubics, tet_nedelec_cubic, tet_rt_cubic, tri_nedelec_cubic,
    tri_rt_cubic,
};
#[allow(unused_imports)]
use crate::cpu::polynomials::Cubic;
#[allow(unused_imports)]
use crate::cpu::vector_tables::{
    field_terms, rule, rule_points, vector_deriv, vector_derivs, vector_dofs, vector_interp,
    vector_values, vector_view, VectorFamily, VectorView,
};
#[allow(unused_imports)]
use crate::enums::{ElemTopology, EvalMode};
#[allow(unused_imports)]
use crate::exact::exact_integers;
#[allow(unused_imports)]
use crate::index::lemma_flat;
use crate::scalar::{Real, Scalar};
#[allow(unused_imports)]
use crate::scalar::{
    exact_ring, lemma_sum_ext, lemma_sum_single, lemma_times_one, lemma_times_zero, sum,
};

verus! {

/// Component `d` of function `f` of a family.
pub open spec fn component(family: VectorFamily, dim: int, f: int, d: int) -> Cubic {
    match family {
        VectorFamily::Nedelec => if dim == 2 {
            tri_nedelec_cubic(f, d)
        } else {
            tet_nedelec_cubic(f, d)
        },
        VectorFamily::RaviartThomas => if dim == 2 {
            tri_rt_cubic(f, d)
        } else {
            tet_rt_cubic(f, d)
        },
    }
}

/// The curl of a vector field in space, component by component.
pub open spec fn space_curl(p: Cubic, q: Cubic, r: Cubic, d: int) -> Cubic {
    if d == 0 {
        r.slope(1).minus(q.slope(2))
    } else if d == 1 {
        p.slope(2).minus(r.slope(0))
    } else {
        q.slope(0).minus(p.slope(1))
    }
}

/// Component `d` of the curl of function `f`, or its divergence, from the derivatives of the
/// components of the function.
pub open spec fn derivative(family: VectorFamily, dim: int, f: int, d: int) -> Cubic {
    let (p, q, r) = (
        component(family, dim, f, 0),
        component(family, dim, f, 1),
        component(family, dim, f, 2),
    );
    match family {
        VectorFamily::Nedelec => if dim == 2 {
            q.slope(0).minus(p.slope(1))
        } else {
            space_curl(p, q, r, d)
        },
        VectorFamily::RaviartThomas => if dim == 2 {
            p.slope(0).plus(q.slope(1))
        } else {
            p.slope(0).plus(q.slope(1)).plus(r.slope(2))
        },
    }
}

/// A polynomial at point `i` of a list of stored coordinates.
pub open spec fn at_point<T: Scalar>(p: Cubic, dim: int, pts: Seq<T>, i: int) -> T::Work {
    let z = if dim == 3 {
        pts[i * dim + 2].widened()
    } else {
        <T::Work as Real>::zero_val()
    };
    p.at(pts[i * dim].widened(), pts[i * dim + 1].widened(), z)
}

/// Values of the functions at a point times the coefficients of an element.
pub open spec fn field_values<T: Scalar>(
    family: VectorFamily,
    dim: int,
    pts: Seq<T>,
    i: int,
    d: int,
    u: Seq<T>,
) -> spec_fn(int) -> T {
    |f: int| kept::<T>(at_point(component(family, dim, f, d), dim, pts, i)).times(u[f * dim])
}

/// Curls or divergences of the functions at a point times the coefficients of an element.
pub open spec fn field_derivatives<T: Scalar>(
    family: VectorFamily,
    dim: int,
    pts: Seq<T>,
    i: int,
    d: int,
    u: Seq<T>,
) -> spec_fn(int) -> T {
    |f: int| kept::<T>(at_point(derivative(family, dim, f, d), dim, pts, i)).times(u[f * dim])
}

/// The tabulated functions are the polynomials at the points.
proof fn lemma_functions<R: Real>(
    family: VectorFamily,
    dim: int,
    nd: int,
    pts: Seq<R>,
    i: int,
    f: int,
    d: int,
    z: R,
)
    requires
        exact_ring::<R>(),
        exact_integers::<R>(),
        dim == 2 || dim == 3,
        0 <= f < nd <= if dim == 2 {
            15int
        } else {
            20int
        },
        0 <= d,
        dim == 3 ==> z == pts[3 * i + 2],
    ensures
        d < dim ==> vector_values(family, dim, nd, pts, i)[f * dim + d] == component(
            family,
            dim,
            f,
            d,
        ).at(pts[dim * i], pts[dim * i + 1], z),
        d < family.deriv_comps(dim) ==> vector_derivs(family, dim, nd, pts, i)[f
            * family.deriv_comps(dim) + d] == derivative(family, dim, f, d).at(
            pts[dim * i],
            pts[dim * i + 1],
            z,
        ),
{
    let (x, y) = (pts[dim * i], pts[dim * i + 1]);
    if dim == 2 {
        if d < 2 {
            lemma_flat(f, nd, d, 2);
            if family == VectorFamily::Nedelec {
                law_tri_edge_functions_are_cubics(x, y, z, f, d);
            } else {
                law_tri_face_functions_are_cubics(x, y, z, f, d);
            }
        }
        law_tri_curl_is_the_curl(x, y, z, f);
        law_tri_divergence_is_the_divergence(x, y, z, f);
    } else {
        if d < 3 {
            lemma_flat(f, nd, d, 3);
            if family == VectorFamily::Nedelec {
                law_tet_edge_functions_are_cubics(x, y, z, f, d);
                law_tet_curl_is_the_curl(x, y, z, f, d);
            } else {
                law_tet_face_functions_are_cubics(x, y, z, f, d);
            }
        }
        law_tet_divergence_is_the_divergence(x, y, z, f);
    }
}

/// What tables built for a number of functions hold.
proof fn lemma_tables<T: Scalar>(
    family: VectorFamily,
    dim: int,
    nd: int,
    q: int,
    i: int,
    f: int,
    d: int,
)
    requires
        exact_ring::<T::Work>(),
        exact_integers::<T::Work>(),
        exact_storage::<T>(),
        dim == 2 || dim == 3,
        rule(dim, q),
        0 <= f < nd <= if dim == 2 {
            15int
        } else {
            20int
        },
        0 <= i < q,
        0 <= d,
    ensures
        ({
            let view = vector_view::<T>(family, dim, nd, q);
            let n = family.deriv_comps(dim);
            &&& d < dim ==> view.interp[(i * nd + f) * dim + d] == kept::<T>(
                at_point(component(family, dim, f, d), dim, view.q_ref, i),
            )
            &&& d < n ==> view.deriv[(i * nd + f) * n + d] == kept::<T>(
                at_point(derivative(family, dim, f, d), dim, view.q_ref, i),
            )
        }),
{
    let view = vector_view::<T>(family, dim, nd, q);
    let n = family.deriv_comps(dim);
    let pts = rule_points::<T::Work>(dim, q);
    assert(pts.len() == q * dim);
    assert forall|k: int| 0 <= k < q * dim implies (#[trigger] view.q_ref[k]).widened()
        == pts[k] by {
        reveal(exact_storage);
        assert(view.q_ref[k] == kept::<T>(pts[k]));
    }
    assert(i * dim + dim <= q * dim) by (nonlinear_arith)
        requires
            i < q,
            0 < dim,
    ;
    assert(0 <= i * dim) by (nonlinear_arith)
        requires
            0 <= i,
            0 < dim,
    ;
    assert(i * dim == dim * i) by (nonlinear_arith);
    let z = if dim == 3 {
        pts[3 * i + 2]
    } else {
        <T::Work as Real>::zero_val()
    };
    lemma_functions(family, dim, nd, pts, i, f, d, z);
    if d < dim {
        let table = vector_interp::<T::Work>(family, dim, nd, q);
        lemma_flat(f, nd, d, dim);
        lemma_flat(i, q, f * dim + d, nd * dim);
        assert((i * nd + f) * dim + d == i * (nd * dim) + (f * dim + d)) by (nonlinear_arith);
        assert(view.interp[(i * nd + f) * dim + d] == kept::<T>(table[(i * nd + f) * dim + d]));
    }
    if d < n {
        let table = vector_deriv::<T::Work>(family, dim, nd, q);
        lemma_flat(f, nd, d, n);
        lemma_flat(i, q, f * n + d, nd * n);
        assert((i * nd + f) * n + d == i * (nd * n) + (f * n + d)) by (nonlinear_arith);
        assert(view.deriv[(i * nd + f) * n + d] == kept::<T>(table[(i * nd + f) * n + d]));
    }
}

/// The field with given coefficients at a point: interpolation gives the sum of the functions'
/// values there times the coefficients, differentiation that of their curls or divergences.
proof fn lemma_fields<T: Scalar>(
    family: VectorFamily,
    dim: int,
    nd: int,
    q: int,
    mode: EvalMode,
    num_elem: int,
    u: Seq<T>,
    v: Seq<T>,
    e: int,
    i: int,
    d: int,
)
    requires
        exact_ring::<T::Work>(),
        exact_integers::<T::Work>(),
        exact_storage::<T>(),
        dim == 2 || dim == 3,
        rule(dim, q),
        1 <= nd <= if dim == 2 {
            15int
        } else {
            20int
        },
        mode == EvalMode::Interp || mode == family.deriv_mode(),
        vector_view::<T>(family, dim, nd, q).refusal(num_elem, false, mode, u.len(), v.len()) is None,
        0 <= e < num_elem,
        0 <= i < q,
        0 <= d < vector_view::<T>(family, dim, nd, q).mode_comps(mode),
    ensures
        ({
            let view = vector_view::<T>(family, dim, nd, q);
            let w = block(u, e, nd * dim);
            let n = view.mode_comps(mode);
            block(view.applied(num_elem, false, mode, u, v), e, q * n)[i * n + d] == sum(
                nd,
                if mode == EvalMode::Interp {
                    field_values(family, dim, view.q_ref, i, d, w)
                } else {
                    field_derivatives(family, dim, view.q_ref, i, d, w)
                },
            )
        }),
{
    let view = vector_view::<T>(family, dim, nd, q);
    let w = block(u, e, nd * dim);
    let n = view.mode_comps(mode);
    assert(view.num_qpoints == q && view.num_dof == nd && view.dim == dim);
    let h = field_terms(view.table(mode), n, nd, dim, w, i, d);
    let g = if mode == EvalMode::Interp {
        field_values(family, dim, view.q_ref, i, d, w)
    } else {
        field_derivatives(family, dim, view.q_ref, i, d, w)
    };
    assert forall|f: int| 0 <= f < nd implies #[trigger] h(f) == g(f) by {
        lemma_tables::<T>(family, dim, nd, q, i, f, d);
    }
    lemma_sum_ext(nd, h, g);
    lemma_flat(i, q, d, n);
    lemma_flat(e, num_elem, i * n + d, q * n);
    lemma_whole_block(e, num_elem, q * n);
    let out = view.applied(num_elem, false, mode, u, v);
    assert(out[e * (q * n) + (i * n + d)] == view.image(mode, false)(w)[i * n + d]);
    assert(view.image(mode, false)(w)[i * n + d] == sum(nd, h));
}

// ── edge elements ───────────────────────────────────────────────────────────

/// At every point, with the coordinates that the edge basis reports for it, interpolation gives
/// the combination of the functions there that has the coefficients of the element, and
/// differentiation the combination of their curls.
pub proof fn law_edge_fields_at_points<T: Scalar>(
    b: NedelecBasis<T>,
    topo: ElemTopology,
    p: usize,
    q: usize,
    num_elem: int,
    u: Seq<T>,
    v: Seq<T>,
    e: int,
    i: int,
    d: int,
)
    requires
        exact_ring::<T::Work>(),
        exact_integers::<T::Work>(),
        exact_storage::<T>(),
        topo == ElemTopology::Triangle || topo == ElemTopology::Tet,
        b@ == nedelec_view::<T>(topo, p, q),
        rule(nedelec_dim(topo), q as int),
        vector_dofs(VectorFamily::Nedelec, nedelec_dim(topo), p as int) > 0,
        0 <= e < num_elem,
        0 <= i < q,
        0 <= d,
    ensures
        ({
            let (dim, nd) = (b.dimension(), b.dofs());
            let w = block(u, e, nd * dim);
            let n = if dim == 2 {
                1int
            } else {
                3int
            };
            &&& d < dim && b.refusal(num_elem, false, EvalMode::Interp, u.len(), v.len()) is None
                ==> block(
                b.applied(num_elem, false, EvalMode::Interp, u, v),
                e,
                q * dim,
            )[i * dim + d] == sum(
                nd,
                field_values(VectorFamily::Nedelec, dim, b.point_values(), i, d, w),
            )
            &&& d < n && b.refusal(num_elem, false, EvalMode::HCurl, u.len(), v.len()) is None
                ==> block(b.applied(num_elem, false, EvalMode::HCurl, u, v), e, q * n)[i * n + d]
                == sum(
                nd,
                field_derivatives(VectorFamily::Nedelec, dim, b.point_values(), i, d, w),
            )
        }),
{
    let family = VectorFamily::Nedelec;
    let dim = nedelec_dim(topo);
    let nd = vector_dofs(family, dim, p as int);
    if d < dim && b.refusal(num_elem, false, EvalMode::Interp, u.len(), v.len()) is None {
        lemma_fields::<T>(family, dim, nd, q as int, EvalMode::Interp, num_elem, u, v, e, i, d);
    }
    if d < family.deriv_comps(dim) && b.refusal(
        num_elem,
        false,
        EvalMode::HCurl,
        u.len(),
        v.len(),
    ) is None {
        lemma_fields::<T>(family, dim, nd, q as int, EvalMode::HCurl, num_elem, u, v, e, i, d);
    }
}

// ── face elements ───────────────────────────────────────────────────────────

/// At every point, with the coordinates that the face basis reports for it, interpolation gives
/// the combination of the functions there that has the coefficients of the element, and
/// differentiation the combination of their divergences.
pub proof fn law_face_fields_at_points<T: Scalar>(
    b: RaviartThomasBasis<T>,
    topo: ElemTopology,
    p: usize,
    q: usize,
    num_elem: int,
    u: Seq<T>,
    v: Seq<T>,
    e: int,
    i: int,
    d: int,
)
    requires
        exact_ring::<T::Work>(),
        exact_integers::<T::Work>(),
        exact_storage::<T>(),
        topo == ElemTopology::Triangle || topo == ElemTopology::Tet,
        b@ == rt_view::<T>(topo, p, q),
        rule(rt_dim(topo), q as int),
        vector_dofs(VectorFamily::RaviartThomas, rt_dim(topo), p as int) > 0,
        0 <= e < num_elem,
        0 <= i < q,
        0 <= d < rt_dim(topo),
    ensures
        ({
            let (dim, nd) = (b.dimension(), b.dofs());
            let w = block(u, e, nd * dim);
            &&& b.refusal(num_elem, false, EvalMode::Interp, u.len(), v.len()) is None ==> block(
                b.applied(num_elem, false, EvalMode::Interp, u, v),
                e,
                q * dim,
            )[i * dim + d] == sum(
                nd,
                field_values(VectorFamily::RaviartThomas, dim, b.point_values(), i, d, w),
            )
            &&& b.refusal(num_elem, false, EvalMode::HDiv, u.len(), v.len()) is None ==> block(
                b.applied(num_elem, false, EvalMode::HDiv, u, v),
                e,
                q as int,
            )[i] == sum(
                nd,
                field_derivatives(VectorFamily::RaviartThomas, dim, b.point_values(), i, 0, w),
            )
        }),
{
    let family = VectorFamily::RaviartThomas;
    let dim = rt_dim(topo);
    let nd = vector_dofs(family, dim, p as int);
    if b.refusal(num_elem, false, EvalMode::Interp, u.len(), v.len()) is None {
        lemma_fields::<T>(family, dim, nd, q as int, EvalMode::Interp, num_elem, u, v, e, i, d);
    }
    if b.refusal(num_elem, false, EvalMode::HDiv, u.len(), v.len()) is None {
        lemma_fields::<T>(family, dim, nd, q as int, EvalMode::HDiv, num_elem, u, v, e, i, 0);
        assert(q * 1 == q);
    }
}

// ── unit coefficients ───────────────────────────────────────────────────────

/// With the coefficient one for function `f` and zero for the others, the field is that function
/// and its derivative the function's own.
pub proof fn law_unit_coefficient_gives_function<T: Scalar>(
    family: VectorFamily,
    dim: int,
    nd: int,
    pts: Seq<T>,
    i: int,
    d: int,
    u: Seq<T>,
    f: int,
)
    requires
        exact_ring::<T>(),
        0 <= f < nd,
        u[f * dim] == T::one_val(),
        forall|k: int| 0 <= k < nd && k != f ==> #[trigger] u[k * dim] == T::zero_val(),
    ensures
        sum(nd, field_values(family, dim, pts, i, d, u)) == kept::<T>(
            at_point(component(family, dim, f, d), dim, pts, i),
        ),
        sum(nd, field_derivatives(family, dim, pts, i, d, u)) == kept::<T>(
            at_point(derivative(family, dim, f, d), dim, pts, i),
        ),
{
    let (g, h) = (
        field_values(family, dim, pts, i, d, u),
        field_derivatives(family, dim, pts, i, d, u),
    );
    assert forall|k: int| 0 <= k < nd && k != f implies #[trigger] g(k) == T::zero_val() by {
        assert(u[k * dim] == T::zero_val());
        lemma_times_zero(kept::<T>(at_point(component(family, dim, k, d), dim, pts, i)));
    }
    assert forall|k: int| 0 <= k < nd && k != f implies #[trigger] h(k) == T::zero_val() by {
        assert(u[k * dim] == T::zero_val());
        lemma_times_zero(kept::<T>(at_point(derivative(family, dim, k, d), dim, pts, i)));
    }
    lemma_sum_single(nd, f, g);
    lemma_sum_single(nd, f, h);
    lemma_times_one(kept::<T>(at_point(component(family, dim, f, d), dim, pts, i)));
    lemma_times_one(kept::<T>(at_point(derivative(family, dim, f, d), dim, pts, i)));
}

// ── weights ─────────────────────────────────────────────────────────────────

/// In weight mode the edge and face bases fill the output with the weights of their points, element
/// after element.
pub proof fn law_vector_weight_mode_repeats_weights<T: Real>(
    view: VectorView<T>,
    num_elem: int,
    u: Seq<T>,
    v: Seq<T>,
    e: int,
)
    requires
        view.refusal(num_elem, false, EvalMode::Weight, u.len(), v.len()) is None,
        view.weights.len() == view.num_qpoints,
        0 <= e < num_elem,
    ensures
        block(
            view.applied(num_elem, false, EvalMode::Weight, u, v),
            e,
            view.num_qpoints as int,
        ) == view.weights,
{
    let n = view.num_qpoints as int;
    let out = view.applied(num_elem, false, EvalMode::Weight, u, v);
    lemma_whole_block(e, num_elem, n);
    assert forall|i: int| 0 <= i < n implies #[trigger] block(out, e, n)[i] == view.weights[i] by {
        lemma_flat(e, num_elem, i, n);
        assert(block(out, e, n)[i] == out[e * n + i]);
    }
    assert(block(out, e, n) =~= view.weights);
}

} // verus!
