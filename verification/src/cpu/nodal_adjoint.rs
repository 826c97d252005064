//! Forward and transposed applications of nodal bases are adjoint in exact arithmetic.

use vstd::prelude::*;

#[allow(unused_imports)]
use crate::cpu::dense::DenseView;
#[allow(unused_imports)]
use crate::cpu::nodal::{
    curl2, curl2_transposed, curl3, curl3_transposed, diagonal, nodal_applied_of, nodal_image_of,
    spread, trace, Family, NodalShape,
};
#[allow(unused_imports)]
use crate::enums::EvalMode;
#[allow(unused_imports)]
use crate::index::{lemma_flat, lemma_mul_le, lemma_split};
#[allow(unused_imports)]
use crate::linear::{
    adjoint, col_terms, grid_rows, lemma_adjoint_batched, lemma_adjoint_compose,
    lemma_matrix_adjoint, lemma_sum_block, lemma_sum_grid, lemma_sum_pair, lemma_sum_stride,
    row_terms, shifted,
};
use crate::scalar::Real;
#[allow(unused_imports)]
use crate::scalar::{
    exact_ring, inner, lemma_minus, lemma_plus_zero, lemma_sum_ext, lemma_sum_single,
    lemma_times_negated, lemma_times_one, lemma_times_zero, sum,
};

verus! {

// ── stencils ────────────────────────────────────────────────────────────────

/// Entry `(k, j)` of the matrix of the divergence stencil.
spec fn trace_matrix<T: Real>(dim: int) -> spec_fn(int, int) -> T {
    |k: int, j: int|
        if j / (dim * dim) == k && j % (dim * dim) / dim == j % (dim * dim) % dim {
            T::one_val()
        } else {
            T::zero_val()
        }
}

proof fn lemma_trace_adjoint<T: Real>(dim: int, nq: int)
    requires
        exact_ring::<T>(),
        0 < dim,
        0 <= nq,
    ensures
        adjoint(
            |g: Seq<T>| trace(dim, nq, g),
            |w: Seq<T>| spread(dim, nq, w),
            nq * (dim * dim),
            nq,
        ),
{
    let dd = dim * dim;
    lemma_mul_le(1, dim, 1, dim);
    lemma_mul_le(nq, nq, 0, dd);
    let f = |g: Seq<T>| trace(dim, nq, g);
    let b = |w: Seq<T>| spread(dim, nq, w);
    let a = trace_matrix::<T>(dim);
    assert forall|x: Seq<T>, y: Seq<T>|
        #![trigger f(x), b(y)]
        x.len() == nq * dd && y.len() == nq implies inner(f(x), y) == inner(x, b(y)) by {
        assert forall|k: int| 0 <= k < nq implies #[trigger] f(x)[k] == sum(
            nq * dd,
            row_terms(a, x, k),
        ) by {
            let r = row_terms(a, x, k);
            let t = shifted(r, k * dd);
            assert forall|j: int| 0 <= j < nq * dd && j / dd != k implies #[trigger] r(j)
                == T::zero_val() by {
                lemma_times_zero(x[j]);
            }
            lemma_sum_block(nq, dd, k, r, t);
            lemma_sum_grid(dim, dim, t);
            let (rows, diag) = (grid_rows(dim, t), diagonal(dim, x, k));
            assert forall|d: int| 0 <= d < dim implies #[trigger] rows(d) == diag(d) by {
                let h = shifted(t, d * dim);
                assert forall|c: int| 0 <= c < dim && c != d implies #[trigger] h(c)
                    == T::zero_val() by {
                    lemma_flat(d, dim, c, dim);
                    lemma_flat(k, nq, d * dim + c, dd);
                    lemma_times_zero(x[k * dd + (d * dim + c)]);
                }
                lemma_sum_single(dim, d, h);
                lemma_flat(d, dim, d, dim);
                lemma_flat(k, nq, d * dim + d, dd);
                lemma_times_one(x[k * dd + (d * dim + d)]);
            }
            lemma_sum_ext(dim, rows, diag);
        }
        assert forall|j: int| 0 <= j < nq * dd implies #[trigger] b(y)[j] == sum(
            nq,
            col_terms(a, y, j),
        ) by {
            let c = col_terms(a, y, j);
            lemma_split(j, nq, dd);
            assert forall|k: int| 0 <= k < nq && k != j / dd implies #[trigger] c(k)
                == T::zero_val() by {
                lemma_times_zero(y[k]);
            }
            lemma_sum_single(nq, j / dd, c);
            lemma_times_zero(y[j / dd]);
            lemma_times_one(y[j / dd]);
        }
        lemma_matrix_adjoint(a, x, y, f(x), b(y));
    }
}

/// Entry `(k, j)` of the matrix of the plane curl stencil.
spec fn curl2_matrix<T: Real>() -> spec_fn(int, int) -> T {
    |k: int, j: int|
        if j / 4 == k && j % 4 == 2 {
            T::one_val()
        } else if j / 4 == k && j % 4 == 1 {
            T::one_val().negated()
        } else {
            T::zero_val()
        }
}

proof fn lemma_curl2_adjoint<T: Real>(nq: int)
    requires
        exact_ring::<T>(),
        0 <= nq,
    ensures
        adjoint(
            |g: Seq<T>| curl2(nq, g),
            |w: Seq<T>| curl2_transposed(nq, w),
            nq * 4,
            nq,
        ),
{
    let f = |g: Seq<T>| curl2(nq, g);
    let b = |w: Seq<T>| curl2_transposed(nq, w);
    let a = curl2_matrix::<T>();
    assert forall|x: Seq<T>, y: Seq<T>|
        #![trigger f(x), b(y)]
        x.len() == nq * 4 && y.len() == nq implies inner(f(x), y) == inner(x, b(y)) by {
        assert forall|k: int| 0 <= k < nq implies #[trigger] f(x)[k] == sum(
            nq * 4,
            row_terms(a, x, k),
        ) by {
            let r = row_terms(a, x, k);
            let (p, m) = (k * 4 + 2, k * 4 + 1);
            assert forall|j: int| 0 <= j < nq * 4 && j != p && j != m implies #[trigger] r(j)
                == T::zero_val() by {
                lemma_times_zero(x[j]);
            }
            lemma_sum_pair(nq * 4, p, m, r);
            lemma_times_one(x[p]);
            lemma_times_one(x[m]);
            lemma_times_negated(T::one_val(), x[m]);
            lemma_minus(x[p], x[m]);
        }
        assert forall|j: int| 0 <= j < nq * 4 implies #[trigger] b(y)[j] == sum(
            nq,
            col_terms(a, y, j),
        ) by {
            let c = col_terms(a, y, j);
            let z = y[j / 4];
            assert forall|k: int| 0 <= k < nq && k != j / 4 implies #[trigger] c(k)
                == T::zero_val() by {
                lemma_times_zero(y[k]);
            }
            lemma_sum_single(nq, j / 4, c);
            lemma_times_zero(z);
            lemma_times_one(z);
            lemma_times_negated(T::one_val(), z);
            lemma_minus(T::zero_val(), z);
            lemma_plus_zero(z);
            lemma_plus_zero(z.negated());
        }
        lemma_matrix_adjoint(a, x, y, f(x), b(y));
    }
}

/// Position of the entry that counts positively in curl component `c`.
spec fn curl3_plus(c: int) -> int {
    if c == 0 {
        7
    } else if c == 1 {
        2
    } else {
        3
    }
}

/// Position of the entry that counts negatively in curl component `c`.
spec fn curl3_minus(c: int) -> int {
    if c == 0 {
        5
    } else if c == 1 {
        6
    } else {
        1
    }
}

/// Entry `(k, j)` of the matrix of the curl stencil in space.
spec fn curl3_matrix<T: Real>() -> spec_fn(int, int) -> T {
    |k: int, j: int|
        if j / 9 == k / 3 && j % 9 == curl3_plus(k % 3) {
            T::one_val()
        } else if j / 9 == k / 3 && j % 9 == curl3_minus(k % 3) {
            T::one_val().negated()
        } else {
            T::zero_val()
        }
}

/// Component in which an entry of the gradient counts, if any.
spec fn curl3_component(r: int) -> int {
    if r == 7 || r == 5 {
        0
    } else if r == 2 || r == 6 {
        1
    } else {
        2
    }
}

proof fn lemma_curl3_adjoint<T: Real>(nq: int)
    requires
        exact_ring::<T>(),
        0 <= nq,
    ensures
        adjoint(
            |g: Seq<T>| curl3(nq, g),
            |w: Seq<T>| curl3_transposed(nq, w),
            nq * 9,
            nq * 3,
        ),
{
    let f = |g: Seq<T>| curl3(nq, g);
    let b = |w: Seq<T>| curl3_transposed(nq, w);
    let a = curl3_matrix::<T>();
    assert forall|x: Seq<T>, y: Seq<T>|
        #![trigger f(x), b(y)]
        x.len() == nq * 9 && y.len() == nq * 3 implies inner(f(x), y) == inner(x, b(y)) by {
        assert forall|k: int| 0 <= k < nq * 3 implies #[trigger] f(x)[k] == sum(
            nq * 9,
            row_terms(a, x, k),
        ) by {
            let r = row_terms(a, x, k);
            let (p, m) = (k / 3 * 9 + curl3_plus(k % 3), k / 3 * 9 + curl3_minus(k % 3));
            assert forall|j: int| 0 <= j < nq * 9 && j != p && j != m implies #[trigger] r(j)
                == T::zero_val() by {
                lemma_times_zero(x[j]);
            }
            lemma_sum_pair(nq * 9, p, m, r);
            lemma_times_one(x[p]);
            lemma_times_one(x[m]);
            lemma_times_negated(T::one_val(), x[m]);
            lemma_minus(x[p], x[m]);
        }
        assert forall|j: int| 0 <= j < nq * 9 implies #[trigger] b(y)[j] == sum(
            nq * 3,
            col_terms(a, y, j),
        ) by {
            let c = col_terms(a, y, j);
            let at = j / 9 * 3 + curl3_component(j % 9);
            let z = y[at];
            assert forall|k: int| 0 <= k < nq * 3 && k != at implies #[trigger] c(k)
                == T::zero_val() by {
                lemma_times_zero(y[k]);
            }
            lemma_sum_single(nq * 3, at, c);
            lemma_times_zero(z);
            lemma_times_one(z);
            lemma_times_negated(T::one_val(), z);
            lemma_minus(T::zero_val(), z);
            lemma_plus_zero(z);
            lemma_plus_zero(z.negated());
        }
        lemma_matrix_adjoint(a, x, y, f(x), b(y));
    }
}

// ── modes ───────────────────────────────────────────────────────────────────

/// Every mode is adjoint to its transpose on one element if interpolation and gradient are.
pub proof fn lemma_modes_adjoint<T: Real>(
    s: NodalShape,
    interp: spec_fn(Seq<T>) -> Seq<T>,
    interp_t: spec_fn(Seq<T>) -> Seq<T>,
    grad: spec_fn(Seq<T>) -> Seq<T>,
    grad_t: spec_fn(Seq<T>) -> Seq<T>,
    mode: EvalMode,
)
    requires
        exact_ring::<T>(),
        1 <= s.dim <= 3,
        s.has_mode(mode),
        adjoint(interp, interp_t, s.nodal_len(), s.point_len(EvalMode::Interp)),
        adjoint(grad, grad_t, s.nodal_len(), s.point_len(EvalMode::Grad)),
    ensures
        adjoint(
            nodal_image_of(s, interp, grad, mode, false),
            nodal_image_of(s, interp_t, grad_t, mode, true),
            s.nodal_len(),
            s.point_len(mode),
        ),
{
    let (dim, nq) = (s.dim as int, s.num_qpoints as int);
    let h = nodal_image_of(s, interp, grad, mode, false);
    let ht = nodal_image_of(s, interp_t, grad_t, mode, true);
    match mode {
        EvalMode::Div => {
            let f = |g: Seq<T>| trace(dim, nq, g);
            let ft = |w: Seq<T>| spread(dim, nq, w);
            lemma_trace_adjoint::<T>(dim, nq);
            assert forall|x: Seq<T>| x.len() == s.nodal_len() implies #[trigger] h(x) == f(
                grad(x),
            ) by {}
            assert forall|y: Seq<T>| y.len() == nq implies #[trigger] ht(y) == grad_t(ft(y)) by {}
            lemma_adjoint_compose(
                grad,
                grad_t,
                f,
                ft,
                h,
                ht,
                s.nodal_len(),
                nq * (dim * dim),
                nq,
            );
        },
        EvalMode::Curl => {
            if dim == 2 {
                let f = |g: Seq<T>| curl2(nq, g);
                let ft = |w: Seq<T>| curl2_transposed(nq, w);
                lemma_curl2_adjoint::<T>(nq);
                assert forall|x: Seq<T>| x.len() == s.nodal_len() implies #[trigger] h(x) == f(
                    grad(x),
                ) by {}
                assert forall|y: Seq<T>| y.len() == nq implies #[trigger] ht(y) == grad_t(
                    ft(y),
                ) by {}
                lemma_adjoint_compose(grad, grad_t, f, ft, h, ht, s.nodal_len(), nq * 4, nq);
            } else {
                let f = |g: Seq<T>| curl3(nq, g);
                let ft = |w: Seq<T>| curl3_transposed(nq, w);
                lemma_curl3_adjoint::<T>(nq);
                assert forall|x: Seq<T>| x.len() == s.nodal_len() implies #[trigger] h(x) == f(
                    grad(x),
                ) by {}
                assert forall|y: Seq<T>| y.len() == nq * 3 implies #[trigger] ht(y) == grad_t(
                    ft(y),
                ) by {}
                lemma_adjoint_compose(grad, grad_t, f, ft, h, ht, s.nodal_len(), nq * 9, nq * 3);
            }
        },
        _ => {},
    }
}

/// Applications to a batch are adjoint if the element maps are.
pub proof fn lemma_applied_adjoint<T: Real>(
    family: Family,
    s: NodalShape,
    weights: Seq<T>,
    image: spec_fn(Seq<T>) -> Seq<T>,
    image_t: spec_fn(Seq<T>) -> Seq<T>,
    num_elem: int,
    mode: EvalMode,
    u: Seq<T>,
    w: Seq<T>,
    v: Seq<T>,
    z: Seq<T>,
)
    requires
        exact_ring::<T>(),
        1 <= s.dim <= 3,
        s.has_mode(mode),
        adjoint(image, image_t, s.nodal_len(), s.point_len(mode)),
        0 <= num_elem,
        u.len() == num_elem * s.nodal_len(),
        w.len() == num_elem * s.point_len(mode),
        v.len() == w.len(),
        z.len() == u.len(),
    ensures
        inner(
            nodal_applied_of(family, s, weights, image, num_elem, false, mode, u, v),
            w,
        ) == inner(u, nodal_applied_of(family, s, weights, image_t, num_elem, true, mode, w, z)),
{
    let (nd, nq, nc, dim) = (
        s.num_dof as int,
        s.num_qpoints as int,
        s.ncomp as int,
        s.dim as int,
    );
    lemma_mul_le(nd, nd, 0, nc);
    lemma_mul_le(nq, nq, 0, nc);
    lemma_mul_le(nc, nc, 0, dim);
    lemma_mul_le(nq, nq, 0, nc * dim);
    lemma_adjoint_batched(image, image_t, num_elem, s.nodal_len(), s.point_len(mode), u, w);
}

// ── bases given by full tables ──────────────────────────────────────────────

/// Entry `(k, j)` of the interpolation matrix of an element.
spec fn interp_matrix<T: Real>(view: DenseView<T>) -> spec_fn(int, int) -> T {
    let (nd, nc) = (view.shape.num_dof as int, view.shape.ncomp as int);
    |k: int, j: int|
        if j / nd == k % nc {
            view.interp[k / nc * nd + j % nd]
        } else {
            T::zero_val()
        }
}

proof fn lemma_dense_interp_adjoint<T: Real>(view: DenseView<T>)
    requires
        exact_ring::<T>(),
        view.valid(),
    ensures
        adjoint(
            view.interp_image(false),
            view.interp_image(true),
            view.shape.nodal_len(),
            view.shape.point_len(EvalMode::Interp),
        ),
{
    let s = view.shape;
    let (nd, nq, nc) = (s.num_dof as int, s.num_qpoints as int, s.ncomp as int);
    lemma_mul_le(nd, nd, 0, nc);
    lemma_mul_le(nq, nq, 0, nc);
    assert(nd * nc == nc * nd) by (nonlinear_arith);
    let (f, b, a) = (view.interp_image(false), view.interp_image(true), interp_matrix(view));
    assert forall|x: Seq<T>, y: Seq<T>|
        #![trigger f(x), b(y)]
        x.len() == nd * nc && y.len() == nq * nc implies inner(f(x), y) == inner(x, b(y)) by {
        assert forall|k: int| 0 <= k < nq * nc implies #[trigger] f(x)[k] == sum(
            nd * nc,
            row_terms(a, x, k),
        ) by {
            lemma_split(k, nq, nc);
            let (r, t) = (row_terms(a, x, k), view.interp_terms(x, k / nc, k % nc));
            assert forall|j: int| 0 <= j < nc * nd && j / nd != k % nc implies #[trigger] r(j)
                == T::zero_val() by {
                lemma_times_zero(x[j]);
            }
            assert forall|dof: int| 0 <= dof < nd implies r(k % nc * nd + dof) == #[trigger] t(
                dof,
            ) by {
                lemma_flat(k % nc, nc, dof, nd);
            }
            lemma_sum_block(nc, nd, k % nc, r, t);
        }
        assert forall|j: int| 0 <= j < nd * nc implies #[trigger] b(y)[j] == sum(
            nq * nc,
            col_terms(a, y, j),
        ) by {
            lemma_split(j, nc, nd);
            let (c, t) = (col_terms(a, y, j), view.interp_back_terms(y, j % nd, j / nd));
            assert forall|k: int| 0 <= k < nq * nc && k % nc != j / nd implies #[trigger] c(k)
                == T::zero_val() by {
                lemma_times_zero(y[k]);
            }
            assert forall|qpt: int| 0 <= qpt < nq implies c(qpt * nc + j / nd) == #[trigger] t(
                qpt,
            ) by {
                lemma_flat(qpt, nq, j / nd, nc);
            }
            lemma_sum_stride(nq, nc, j / nd, c, t);
            lemma_plus_zero(sum(nq, t));
        }
        lemma_matrix_adjoint(a, x, y, f(x), b(y));
    }
}

/// Entry `(k, j)` of the gradient matrix of an element.
spec fn grad_matrix<T: Real>(view: DenseView<T>) -> spec_fn(int, int) -> T {
    let (nd, dim) = (view.shape.num_dof as int, view.shape.dim as int);
    let qc = view.shape.qcomp();
    |k: int, j: int|
        if j / nd == k % qc / dim {
            view.grad[(k / qc * nd + j % nd) * dim + k % qc % dim]
        } else {
            T::zero_val()
        }
}

proof fn lemma_dense_grad_adjoint<T: Real>(view: DenseView<T>)
    requires
        exact_ring::<T>(),
        view.valid(),
    ensures
        adjoint(
            view.grad_image(false),
            view.grad_image(true),
            view.shape.nodal_len(),
            view.shape.point_len(EvalMode::Grad),
        ),
{
    let s = view.shape;
    let (nd, nq, nc, dim) = (
        s.num_dof as int,
        s.num_qpoints as int,
        s.ncomp as int,
        s.dim as int,
    );
    let qc = s.qcomp();
    lemma_mul_le(nd, nd, 0, nc);
    lemma_mul_le(nc, nc, 0, dim);
    lemma_mul_le(nq, nq, 0, qc);
    assert(nd * nc == nc * nd) by (nonlinear_arith);
    let (f, b, a) = (view.grad_image(false), view.grad_image(true), grad_matrix(view));
    assert forall|x: Seq<T>, y: Seq<T>|
        #![trigger f(x), b(y)]
        x.len() == nd * nc && y.len() == nq * qc implies inner(f(x), y) == inner(x, b(y)) by {
        assert forall|k: int| 0 <= k < nq * qc implies #[trigger] f(x)[k] == sum(
            nd * nc,
            row_terms(a, x, k),
        ) by {
            lemma_split(k, nq, qc);
            lemma_split(k % qc, nc, dim);
            let comp = k % qc / dim;
            let (r, t) = (row_terms(a, x, k), view.grad_terms(x, k / qc, comp, k % qc % dim));
            assert forall|j: int| 0 <= j < nc * nd && j / nd != comp implies #[trigger] r(j)
                == T::zero_val() by {
                lemma_times_zero(x[j]);
            }
            assert forall|dof: int| 0 <= dof < nd implies r(comp * nd + dof) == #[trigger] t(
                dof,
            ) by {
                lemma_flat(comp, nc, dof, nd);
            }
            lemma_sum_block(nc, nd, comp, r, t);
        }
        assert forall|j: int| 0 <= j < nd * nc implies #[trigger] b(y)[j] == sum(
            nq * qc,
            col_terms(a, y, j),
        ) by {
            lemma_split(j, nc, nd);
            let comp = j / nd;
            let (c, t) = (col_terms(a, y, j), view.grad_back_terms(y, j % nd, comp));
            lemma_sum_grid(nq, qc, c);
            lemma_sum_grid(nq, dim, t);
            let (rows, short) = (grid_rows(qc, c), grid_rows(dim, t));
            assert forall|qpt: int| 0 <= qpt < nq implies #[trigger] rows(qpt) == short(qpt) by {
                let (h, g) = (shifted(c, qpt * qc), shifted(t, qpt * dim));
                assert forall|r: int| 0 <= r < nc * dim && r / dim != comp implies #[trigger] h(r)
                    == T::zero_val() by {
                    lemma_flat(qpt, nq, r, qc);
                    lemma_times_zero(y[qpt * qc + r]);
                }
                assert forall|d: int| 0 <= d < dim implies h(comp * dim + d) == #[trigger] g(
                    d,
                ) by {
                    lemma_flat(comp, nc, d, dim);
                    lemma_flat(qpt, nq, comp * dim + d, qc);
                    lemma_flat(qpt, nq, d, dim);
                }
                lemma_sum_block(nc, dim, comp, h, g);
            }
            lemma_sum_ext(nq, rows, short);
            lemma_plus_zero(sum(nq * dim, t));
        }
        lemma_matrix_adjoint(a, x, y, f(x), b(y));
    }
}

/// Forward and transposed application of a simplex, prism or pyramid basis are adjoint in exact
/// arithmetic, in every mode that the basis has.
pub proof fn law_dense_basis_adjoint<T: Real>(
    view: DenseView<T>,
    num_elem: int,
    eval_mode: EvalMode,
    u: Seq<T>,
    w: Seq<T>,
    v: Seq<T>,
    z: Seq<T>,
)
    requires
        exact_ring::<T>(),
        view.valid(),
        view.shape.has_mode(eval_mode),
        0 <= num_elem,
        u.len() == num_elem * view.shape.nodal_len(),
        w.len() == num_elem * view.shape.point_len(eval_mode),
        v.len() == w.len(),
        z.len() == u.len(),
    ensures
        inner(view.applied(num_elem, false, eval_mode, u, v), w) == inner(
            u,
            view.applied(num_elem, true, eval_mode, w, z),
        ),
{
    let s = view.shape;
    lemma_dense_interp_adjoint(view);
    lemma_dense_grad_adjoint(view);
    let (i, it, g, gt) = (
        view.interp_image(false),
        view.interp_image(true),
        view.grad_image(false),
        view.grad_image(true),
    );
    lemma_modes_adjoint(s, i, it, g, gt, eval_mode);
    lemma_applied_adjoint(
        view.family,
        s,
        view.weights,
        nodal_image_of(s, i, g, eval_mode, false),
        nodal_image_of(s, it, gt, eval_mode, true),
        num_elem,
        eval_mode,
        u,
        w,
        v,
        z,
    );
}

/// The transposed weight mode of a one-component basis is the transposed interpolation.
pub proof fn law_dense_weight_transpose<T: Real>(
    view: DenseView<T>,
    num_elem: int,
    u: Seq<T>,
    v: Seq<T>,
)
    requires
        view.shape.ncomp == 1,
    ensures
        view.applied(num_elem, true, EvalMode::Weight, u, v) == view.applied(
            num_elem,
            true,
            EvalMode::Interp,
            u,
            v,
        ),
{
}

} // verus!
