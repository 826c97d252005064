//! Forward and transposed applications of tensor-product bases are adjoint in exact arithmetic.

use vstd::prelude::*;

#[allow(unused_imports)]
use crate::basis::BasisTrait;
#[allow(unused_imports)]
use crate::cpu::basis_lagrange::{LagrangeBasis, LagrangeView, NO_DIR};
#[allow(unused_imports)]
use crate::cpu::batch::{block, lemma_block};
#[allow(unused_imports)]
use crate::cpu::nodal::{nodal_image_of, Family};
#[allow(unused_imports)]
use crate::cpu::nodal_adjoint::{lemma_applied_adjoint, lemma_modes_adjoint};
#[allow(unused_imports)]
use crate::cpu::tensor::{axis, axis_terms, picked};
#[allow(unused_imports)]
use crate::enums::EvalMode;
#[allow(unused_imports)]
use crate::index::{lemma_flat, lemma_flat3, lemma_mul_le, lemma_split3};
#[allow(unused_imports)]
use crate::linear::{
    adjoint, col_terms, grid_rows, lemma_adjoint_compose, lemma_inner_blocks,
    lemma_matrix_adjoint, lemma_sum_block, lemma_sum_grid, lemma_sum_stride, row_terms, shifted,
};
use crate::scalar::Real;
#[allow(unused_imports)]
use crate::scalar::{
    col_sums, exact_ring, inner, lemma_distribute, lemma_plus_zero, lemma_sum_ext, lemma_sum_plus,
    lemma_sum_scale, lemma_sum_swap, lemma_times_assoc, lemma_times_comm, lemma_times_zero,
    products, row_sums, sum,
};

verus! {

// ── one contraction ─────────────────────────────────────────────────────────

/// Entry `(k, j)` of the matrix of a contraction along one axis.
spec fn axis_matrix<T: Real>(b: Seq<T>, q: int, p: int, depth: int) -> spec_fn(int, int) -> T {
    |k: int, j: int|
        if k / depth / q == j / depth / p && k % depth == j % depth {
            b[k / depth % q * p + j / depth % p]
        } else {
            T::zero_val()
        }
}

/// A contraction along one axis and its transpose are adjoint.
proof fn lemma_axis_adjoint<T: Real>(b: Seq<T>, q: int, p: int, outer: int, depth: int)
    requires
        exact_ring::<T>(),
        0 < q,
        0 < p,
        0 <= outer,
        0 < depth,
    ensures
        adjoint(
            |x: Seq<T>| axis(b, q, p, false, outer, depth, x),
            |y: Seq<T>| axis(b, q, p, true, outer, depth, y),
            outer * p * depth,
            outer * q * depth,
        ),
{
    lemma_mul_le(outer, outer, 0, p);
    lemma_mul_le(outer, outer, 0, q);
    lemma_mul_le(outer * p, outer * p, 0, depth);
    lemma_mul_le(outer * q, outer * q, 0, depth);
    let f = |x: Seq<T>| axis(b, q, p, false, outer, depth, x);
    let g = |y: Seq<T>| axis(b, q, p, true, outer, depth, y);
    let a = axis_matrix(b, q, p, depth);
    assert forall|x: Seq<T>, y: Seq<T>|
        #![trigger f(x), g(y)]
        x.len() == outer * p * depth && y.len() == outer * q * depth implies inner(f(x), y)
        == inner(x, g(y)) by {
        assert forall|k: int| 0 <= k < outer * q * depth implies #[trigger] f(x)[k] == sum(
            outer * p * depth,
            row_terms(a, x, k),
        ) by {
            lemma_split3(k, outer, q, depth);
            let (o, j, l) = (k / depth / q, k / depth % q, k % depth);
            let r = row_terms(a, x, k);
            let s = |t: int| r(t * depth + l);
            let t = axis_terms(b, p, false, p, depth, x, o, j, l);
            assert forall|i: int| 0 <= i < outer * p * depth && i % depth != l implies #[trigger] r(
                i,
            ) == T::zero_val() by {
                lemma_times_zero(x[i]);
            }
            lemma_sum_stride(outer * p, depth, l, r, s);
            assert forall|i: int| 0 <= i < outer * p && i / p != o implies #[trigger] s(i)
                == T::zero_val() by {
                lemma_flat(i, outer * p, l, depth);
                lemma_times_zero(x[i * depth + l]);
            }
            assert forall|i: int| 0 <= i < p implies s(o * p + i) == #[trigger] t(i) by {
                lemma_flat3(o, outer, i, p, l, depth);
            }
            lemma_sum_block(outer, p, o, s, t);
        }
        assert forall|j: int| 0 <= j < outer * p * depth implies #[trigger] g(y)[j] == sum(
            outer * q * depth,
            col_terms(a, y, j),
        ) by {
            lemma_split3(j, outer, p, depth);
            let (o, i, l) = (j / depth / p, j / depth % p, j % depth);
            let c = col_terms(a, y, j);
            let s = |t: int| c(t * depth + l);
            let t = axis_terms(b, p, true, q, depth, y, o, i, l);
            assert forall|k: int| 0 <= k < outer * q * depth && k % depth != l implies #[trigger] c(
                k,
            ) == T::zero_val() by {
                lemma_times_zero(y[k]);
            }
            lemma_sum_stride(outer * q, depth, l, c, s);
            assert forall|k: int| 0 <= k < outer * q && k / q != o implies #[trigger] s(k)
                == T::zero_val() by {
                lemma_flat(k, outer * q, l, depth);
                lemma_times_zero(y[k * depth + l]);
            }
            assert forall|k: int| 0 <= k < q implies s(o * q + k) == #[trigger] t(k) by {
                lemma_flat3(o, outer, k, q, l, depth);
            }
            lemma_sum_block(outer, q, o, s, t);
        }
        lemma_matrix_adjoint(a, x, y, f(x), g(y));
    }
}

// ── one component ───────────────────────────────────────────────────────────

/// Evaluation of one component, differentiated in direction `dir`, and its transpose are adjoint.
proof fn lemma_component_adjoint<T: Real>(view: LagrangeView<T>, dir: int)
    requires
        exact_ring::<T>(),
        view.valid(),
    ensures
        adjoint(
            |x: Seq<T>| view.forward(dir, x),
            |y: Seq<T>| view.backward(dir, y),
            view.num_dof(),
            view.num_qpoints(),
        ),
{
    let (p, q) = (view.p as int, view.q as int);
    let f = |x: Seq<T>| view.forward(dir, x);
    let g = |y: Seq<T>| view.backward(dir, y);
    let (b0, b1, b2) = (view.table(0, dir), view.table(1, dir), view.table(2, dir));
    lemma_mul_le(1, p, 1, p);
    lemma_mul_le(1, q, 1, q);
    if view.dim == 1 {
        let s0 = |x: Seq<T>| axis(b0, q, p, false, 1, 1, x);
        let t0 = |y: Seq<T>| axis(b0, q, p, true, 1, 1, y);
        lemma_axis_adjoint(b0, q, p, 1, 1);
        assert forall|x: Seq<T>, y: Seq<T>|
            #![trigger f(x), g(y)]
            x.len() == p && y.len() == q implies inner(f(x), y) == inner(x, g(y)) by {
            assert(f(x) == s0(x) && g(y) == t0(y));
        }
    } else if view.dim == 2 {
        let s0 = |x: Seq<T>| axis(b0, q, p, false, p, 1, x);
        let t0 = |y: Seq<T>| axis(b0, q, p, true, p, 1, y);
        let s1 = |x: Seq<T>| axis(b1, q, p, false, 1, q, x);
        let t1 = |y: Seq<T>| axis(b1, q, p, true, 1, q, y);
        lemma_axis_adjoint(b0, q, p, p, 1);
        lemma_axis_adjoint(b1, q, p, 1, q);
        assert forall|x: Seq<T>| x.len() == p * p implies #[trigger] f(x) == s1(s0(x)) by {}
        assert forall|y: Seq<T>| y.len() == q * q implies #[trigger] g(y) == t0(t1(y)) by {}
        lemma_adjoint_compose(s0, t0, s1, t1, f, g, p * p, p * q, q * q);
    } else {
        let s0 = |x: Seq<T>| axis(b0, q, p, false, p * p, 1, x);
        let t0 = |y: Seq<T>| axis(b0, q, p, true, p * p, 1, y);
        let s1 = |x: Seq<T>| axis(b1, q, p, false, p, q, x);
        let t1 = |y: Seq<T>| axis(b1, q, p, true, p, q, y);
        let s2 = |x: Seq<T>| axis(b2, q, p, false, 1, q * q, x);
        let t2 = |y: Seq<T>| axis(b2, q, p, true, 1, q * q, y);
        lemma_axis_adjoint(b0, q, p, p * p, 1);
        lemma_axis_adjoint(b1, q, p, p, q);
        lemma_axis_adjoint(b2, q, p, 1, q * q);
        assert(1 * p * (q * q) == p * q * q) by (nonlinear_arith);
        assert(1 * q * (q * q) == q * q * q) by (nonlinear_arith);
        let h = |x: Seq<T>| s1(s0(x));
        let ht = |y: Seq<T>| t0(t1(y));
        assert forall|x: Seq<T>| x.len() == p * p * p implies #[trigger] h(x) == s1(s0(x)) by {}
        assert forall|y: Seq<T>| y.len() == p * q * q implies #[trigger] ht(y) == t0(t1(y)) by {}
        lemma_adjoint_compose(s0, t0, s1, t1, h, ht, p * p * p, p * p * q, p * q * q);
        assert forall|x: Seq<T>| x.len() == p * p * p implies #[trigger] f(x) == s2(h(x)) by {}
        assert forall|y: Seq<T>| y.len() == q * q * q implies #[trigger] g(y) == ht(t2(y)) by {}
        lemma_adjoint_compose(h, ht, s2, t2, f, g, p * p * p, p * q * q, q * q * q);
    }
}

/// The joint contraction along two axes is one contraction after the other.
proof fn lemma_plane<T: Real>(view: LagrangeView<T>, x: Seq<T>)
    requires
        exact_ring::<T>(),
        view.valid(),
        view.dim == 3,
        x.len() == view.num_qpoints(),
    ensures
        ({
            let (p, q) = (view.p as int, view.q as int);
            let y = axis(view.interp, q, p, true, 1, q * q, x);
            view.plane(x) == axis(view.interp, q, p, true, p, q, y)
        }),
{
    let (p, q) = (view.p as int, view.q as int);
    let b = view.interp;
    lemma_mul_le(1, q, 1, q);
    assert(1 * p * (q * q) == p * q * q) by (nonlinear_arith);
    let y = axis(b, q, p, true, 1, q * q, x);
    let (lhs, rhs) = (view.plane(x), axis(b, q, p, true, p, q, y));
    assert forall|k: int| 0 <= k < p * p * q implies #[trigger] lhs[k] == rhs[k] by {
        lemma_split3(k, p, p, q);
        let (pz, py, qx) = (k / q / p, k / q % p, k % q);
        // h(iz, iy): the product at the plane point (iz, iy)
        let h = |iz: int, iy: int|
            b[iz * p + pz].times(b[iy * p + py]).times(x[(iz * q + iy) * q + qx]);
        lemma_sum_swap(q, q, h);
        let terms = view.plane_terms(x, pz, py, qx);
        lemma_sum_grid(q, q, terms);
        assert forall|iz: int| 0 <= iz < q implies #[trigger] grid_rows(q, terms)(iz) == row_sums(
            q,
            h,
        )(iz) by {
            let (s, t) = (shifted(terms, iz * q), |iy: int| h(iz, iy));
            assert forall|iy: int| 0 <= iy < q implies #[trigger] s(iy) == t(iy) by {
                lemma_flat(iz, q, iy, q);
            }
            lemma_sum_ext(q, s, t);
        }
        lemma_sum_ext(q, grid_rows(q, terms), row_sums(q, h));
        let outer_terms = axis_terms(b, p, true, q, q, y, pz, py, qx);
        assert forall|iy: int| 0 <= iy < q implies #[trigger] outer_terms(iy) == col_sums(q, h)(
            iy,
        ) by {
            let at = (pz * q + iy) * q + qx;
            lemma_flat(iy, q, qx, q);
            lemma_flat(pz, p, iy * q + qx, q * q);
            assert(at == pz * (q * q) + (iy * q + qx)) by (nonlinear_arith)
                requires
                    at == (pz * q + iy) * q + qx,
            ;
            assert(p * (q * q) == p * q * q) by (nonlinear_arith);
            assert(pz / p == 0 && pz % p == pz) by (nonlinear_arith)
                requires
                    0 <= pz < p,
            ;
            let inner_terms = axis_terms(b, p, true, q, q * q, x, 0, pz, iy * q + qx);
            assert(y[at] == sum(q, inner_terms));
            let t = |iz: int| h(iz, iy);
            let c = b[iy * p + py];
            assert forall|iz: int| 0 <= iz < q implies #[trigger] t(iz) == c.times(
                inner_terms(iz),
            ) by {
                let (d, v) = (b[iz * p + pz], x[(iz * q + iy) * q + qx]);
                assert((0 * q + iz) * (q * q) + (iy * q + qx) == (iz * q + iy) * q + qx)
                    by (nonlinear_arith);
                lemma_times_comm(d, c);
                lemma_times_assoc(c, d, v);
            }
            lemma_sum_scale(q, c, inner_terms, t);
        }
        lemma_sum_ext(q, outer_terms, col_sums(q, h));
    }
    assert(lhs =~= rhs);
}

/// Interpolation of one component and its transpose are adjoint.
proof fn lemma_component_interp_adjoint<T: Real>(view: LagrangeView<T>)
    requires
        exact_ring::<T>(),
        view.valid(),
    ensures
        adjoint(
            |x: Seq<T>| view.forward(NO_DIR as int, x),
            |y: Seq<T>| view.interp_backward(y),
            view.num_dof(),
            view.num_qpoints(),
        ),
{
    let f = |x: Seq<T>| view.forward(NO_DIR as int, x);
    let g = |y: Seq<T>| view.interp_backward(y);
    let back = |y: Seq<T>| view.backward(NO_DIR as int, y);
    lemma_component_adjoint(view, NO_DIR as int);
    assert forall|y: Seq<T>| y.len() == view.num_qpoints() implies #[trigger] g(y) == back(y) by {
        if view.dim == 3 {
            lemma_plane(view, y);
        }
    }
    assert forall|y: Seq<T>| y.len() == view.num_qpoints() implies (#[trigger] g(y)).len()
        == view.num_dof() by {
        assert(g(y) == back(y));
    }
    assert forall|x: Seq<T>, y: Seq<T>|
        #![trigger f(x), g(y)]
        x.len() == view.num_dof() && y.len() == view.num_qpoints() implies inner(f(x), y) == inner(
        x,
        g(y),
    ) by {
        assert(g(y) == back(y));
        assert(inner(f(x), y) == inner(x, back(y)));
    }
}

// ── all components ──────────────────────────────────────────────────────────

/// Inner products of the slots of interleaved vectors.
spec fn slot_inners<T: Real>(x: Seq<T>, y: Seq<T>, n: int, slots: int) -> spec_fn(int) -> T {
    |s: int| inner(picked(x, n, slots, s), picked(y, n, slots, s))
}

/// Inner products of the blocks of vectors.
spec fn block_inners<T: Real>(x: Seq<T>, y: Seq<T>, n: int) -> spec_fn(int) -> T {
    |c: int| inner(block(x, c, n), block(y, c, n))
}

/// An inner product of interleaved vectors is the sum over their slots.
proof fn lemma_inner_slots<T: Real>(x: Seq<T>, y: Seq<T>, n: int, slots: int)
    requires
        exact_ring::<T>(),
        0 <= n,
        0 <= slots,
        x.len() == n * slots,
        y.len() == n * slots,
    ensures
        inner(x, y) == sum(slots, slot_inners(x, y, n, slots)),
{
    let f = products(x, y);
    lemma_sum_grid(n, slots, f);
    let h = |i: int, s: int| f(i * slots + s);
    lemma_sum_swap(n, slots, h);
    assert forall|i: int| 0 <= i < n implies #[trigger] grid_rows(slots, f)(i) == row_sums(
        slots,
        h,
    )(i) by {
        lemma_sum_ext(slots, shifted(f, i * slots), |s: int| h(i, s));
    }
    lemma_sum_ext(n, grid_rows(slots, f), row_sums(slots, h));
    let g = slot_inners(x, y, n, slots);
    assert forall|s: int| 0 <= s < slots implies #[trigger] col_sums(n, h)(s) == g(s) by {
        let (a, b) = (|i: int| h(i, s), products(picked(x, n, slots, s), picked(y, n, slots, s)));
        assert forall|i: int| 0 <= i < n implies #[trigger] a(i) == b(i) by {}
        lemma_sum_ext(n, a, b);
    }
    lemma_sum_ext(slots, col_sums(n, h), g);
}

proof fn lemma_interp_adjoint<T: Real>(view: LagrangeView<T>)
    requires
        exact_ring::<T>(),
        view.valid(),
    ensures
        adjoint(
            view.interp_image(false),
            view.interp_image(true),
            view.num_dof() * view.ncomp,
            view.num_qpoints() * view.ncomp,
        ),
{
    let (nd, nq, nc) = (view.num_dof(), view.num_qpoints(), view.ncomp as int);
    let (f, g) = (view.interp_image(false), view.interp_image(true));
    let (cf, cg) = (
        |x: Seq<T>| view.forward(NO_DIR as int, x),
        |y: Seq<T>| view.interp_backward(y),
    );
    lemma_sizes(view);
    lemma_component_interp_adjoint(view);
    lemma_mul_le(nd, nd, 0, nc);
    lemma_mul_le(nq, nq, 0, nc);
    assert(nd * nc == nc * nd) by (nonlinear_arith);
    assert forall|x: Seq<T>, y: Seq<T>|
        #![trigger f(x), g(y)]
        x.len() == nd * nc && y.len() == nq * nc implies inner(f(x), y) == inner(x, g(y)) by {
        let (fx, gy) = (f(x), g(y));
        lemma_inner_slots(fx, y, nq, nc);
        lemma_inner_blocks(x, gy, nc, nd);
        let (lhs, rhs) = (slot_inners(fx, y, nq, nc), block_inners(x, gy, nd));
        assert forall|c: int| 0 <= c < nc implies #[trigger] lhs(c) == rhs(c) by {
            lemma_block(c, nc, nd);
            let (xc, yc) = (block(x, c, nd), picked(y, nq, nc, c));
            assert(picked(fx, nq, nc, c) =~= cf(xc)) by {
                assert(cf(xc).len() == nq);
                assert forall|i: int| 0 <= i < nq implies picked(fx, nq, nc, c)[i] == cf(xc)[i] by {
                    lemma_flat(i, nq, c, nc);
                }
            }
            assert(block(gy, c, nd) =~= cg(yc)) by {
                assert(cg(yc).len() == nd);
                assert forall|i: int| 0 <= i < nd implies block(gy, c, nd)[i] == cg(yc)[i] by {
                    lemma_flat(c, nc, i, nd);
                }
            }
            assert(inner(cf(xc), yc) == inner(xc, cg(yc)));
        }
        lemma_sum_ext(nc, lhs, rhs);
        lemma_sum_ext(nc, rhs, |i: int| inner(block(x, i, nd), block(gy, i, nd)));
    }
}

/// Sizes are positive.
proof fn lemma_sizes<T: Real>(view: LagrangeView<T>)
    requires
        view.valid(),
    ensures
        0 < view.num_dof(),
        0 < view.num_qpoints(),
{
    let (p, q) = (view.p as int, view.q as int);
    lemma_mul_le(1, p, 1, p);
    lemma_mul_le(1, q, 1, q);
    lemma_mul_le(1, p * p, 1, p);
    lemma_mul_le(1, q * q, 1, q);
}

/// An inner product with a sum.
proof fn lemma_inner_plus<T: Real>(x: Seq<T>, a: Seq<T>, b: Seq<T>, c: Seq<T>)
    requires
        exact_ring::<T>(),
        a.len() == x.len(),
        b.len() == x.len(),
        c.len() == x.len(),
        forall|i: int| 0 <= i < x.len() ==> #[trigger] c[i] == a[i].plus(b[i]),
    ensures
        inner(x, c) == inner(x, a).plus(inner(x, b)),
{
    let n = x.len() as int;
    let (f, g, h) = (products(x, a), products(x, b), products(x, c));
    assert forall|i: int| 0 <= i < n implies #[trigger] h(i) == f(i).plus(g(i)) by {
        assert(c[i] == a[i].plus(b[i]));
        lemma_distribute(x[i], a[i], b[i]);
    }
    lemma_sum_plus(n, f, g, h);
}

/// The transposed gradient of a component collects the directions.
proof fn lemma_grad_backward<T: Real>(view: LagrangeView<T>, y: Seq<T>, c: int, x: Seq<T>)
    requires
        exact_ring::<T>(),
        view.valid(),
        0 <= c < view.ncomp,
        x.len() == view.num_dof(),
        y.len() == view.num_qpoints() * (view.ncomp * view.dim),
    ensures
        inner(x, view.grad_backward(y, c)) == sum(
            view.dim as int,
            |d: int|
                inner(
                    x,
                    view.backward(
                        d,
                        picked(
                            y,
                            view.num_qpoints(),
                            view.ncomp * view.dim,
                            c * view.dim + d,
                        ),
                    ),
                ),
        ),
{
    let (nq, dim) = (view.num_qpoints(), view.dim as int);
    let qc = view.ncomp * dim;
    lemma_sizes(view);
    let part = |d: int| view.backward(d, picked(y, nq, qc, c * dim + d));
    let total = view.grad_backward(y, c);
    let f = |d: int|
        inner(x, view.backward(d, picked(y, nq, qc, c * dim + d)));
    assert forall|d: int| 0 <= d < dim implies (#[trigger] part(d)).len() == x.len() by {
        lemma_component_adjoint(view, d);
        let g = |z: Seq<T>| view.backward(d, z);
        let z = picked(y, nq, qc, c * dim + d);
        assert(z.len() == nq);
        assert(g(z).len() == x.len());
    }
    assert(part(0).len() == x.len());
    reveal_with_fuel(sum, 4);
    lemma_plus_zero(inner(x, part(0)));
    assert(f(0) == inner(x, part(0)));
    if dim == 1 {
        assert(total =~= part(0));
    } else if dim == 2 {
        assert(part(1).len() == x.len());
        lemma_inner_plus(x, part(0), part(1), total);
        assert(f(1) == inner(x, part(1)));
    } else {
        assert(part(1).len() == x.len());
        assert(part(2).len() == x.len());
        let two = Seq::new(x.len(), |i: int| part(0)[i].plus(part(1)[i]));
        lemma_inner_plus(x, part(0), part(1), two);
        assert forall|i: int| 0 <= i < x.len() implies #[trigger] total[i] == two[i].plus(
            part(2)[i],
        ) by {
            lemma_plus_zero(part(0)[i]);
        }
        lemma_inner_plus(x, two, part(2), total);
        assert(f(1) == inner(x, part(1)));
        assert(f(2) == inner(x, part(2)));
    }
}

proof fn lemma_grad_adjoint<T: Real>(view: LagrangeView<T>)
    requires
        exact_ring::<T>(),
        view.valid(),
    ensures
        adjoint(
            view.grad_image(false),
            view.grad_image(true),
            view.num_dof() * view.ncomp,
            view.num_qpoints() * (view.ncomp * view.dim),
        ),
{
    let (nd, nq, nc, dim) = (
        view.num_dof(),
        view.num_qpoints(),
        view.ncomp as int,
        view.dim as int,
    );
    let qc = nc * dim;
    let (f, g) = (view.grad_image(false), view.grad_image(true));
    lemma_sizes(view);
    lemma_mul_le(nd, nd, 0, nc);
    lemma_mul_le(nc, nc, 0, dim);
    lemma_mul_le(nq, nq, 0, qc);
    assert(nd * nc == nc * nd) by (nonlinear_arith);
    assert forall|x: Seq<T>, y: Seq<T>|
        #![trigger f(x), g(y)]
        x.len() == nd * nc && y.len() == nq * qc implies inner(f(x), y) == inner(x, g(y)) by {
        let (fx, gy) = (f(x), g(y));
        lemma_inner_slots(fx, y, nq, qc);
        lemma_inner_blocks(x, gy, nc, nd);
        let (slots, rhs) = (slot_inners(fx, y, nq, qc), block_inners(x, gy, nd));
        lemma_sum_grid(nc, dim, slots);
        let lhs = grid_rows(dim, slots);
        assert forall|c: int| 0 <= c < nc implies #[trigger] lhs(c) == rhs(c) by {
            lemma_block(c, nc, nd);
            let xc = block(x, c, nd);
            lemma_grad_backward(view, y, c, xc);
            assert(block(gy, c, nd) =~= view.grad_backward(y, c)) by {
                assert forall|i: int| 0 <= i < nd implies block(gy, c, nd)[i] == view.grad_backward(
                    y,
                    c,
                )[i] by {
                    lemma_flat(c, nc, i, nd);
                }
            }
            let row = shifted(slots, c * dim);
            let parts = |d: int|
                inner(xc, view.backward(d, picked(y, nq, qc, c * dim + d)));
            assert forall|d: int| 0 <= d < dim implies #[trigger] row(d) == parts(d) by {
                let s = c * dim + d;
                lemma_flat(c, nc, d, dim);
                lemma_component_adjoint(view, d);
                let (cf, cg) = (
                    |z: Seq<T>| view.forward(d, z),
                    |z: Seq<T>| view.backward(d, z),
                );
                let ys = picked(y, nq, qc, s);
                assert(picked(fx, nq, qc, s) =~= cf(xc)) by {
                    assert(cf(xc).len() == nq);
                    assert forall|i: int| 0 <= i < nq implies picked(fx, nq, qc, s)[i] == cf(
                        xc,
                    )[i] by {
                        lemma_flat(i, nq, s, qc);
                    }
                }
                assert(inner(cf(xc), ys) == inner(xc, cg(ys)));
            }
            lemma_sum_ext(dim, row, parts);
        }
        lemma_sum_ext(nc, lhs, rhs);
        lemma_sum_ext(nc, rhs, |i: int| inner(block(x, i, nd), block(gy, i, nd)));
    }
}

/// Forward and transposed application of a tensor-product basis are adjoint in exact arithmetic,
/// in every mode that the basis has.
pub proof fn law_lagrange_basis_adjoint<T: Real>(
    basis: LagrangeBasis<T>,
    num_elem: int,
    eval_mode: EvalMode,
    u: Seq<T>,
    w: Seq<T>,
    v: Seq<T>,
    z: Seq<T>,
)
    requires
        exact_ring::<T>(),
        basis.wf(),
        basis@.shape().has_mode(eval_mode),
        0 <= num_elem,
        u.len() == num_elem * basis@.shape().nodal_len(),
        w.len() == num_elem * basis@.shape().point_len(eval_mode),
        v.len() == w.len(),
        z.len() == u.len(),
    ensures
        inner(basis.applied(num_elem, false, eval_mode, u, v), w) == inner(
            u,
            basis.applied(num_elem, true, eval_mode, w, z),
        ),
{
    let view = basis@;
    let s = view.shape();
    lemma_interp_adjoint(view);
    lemma_grad_adjoint(view);
    let (i, it, g, gt) = (
        view.interp_image(false),
        view.interp_image(true),
        view.grad_image(false),
        view.grad_image(true),
    );
    lemma_modes_adjoint(s, i, it, g, gt, eval_mode);
    lemma_applied_adjoint(
        Family::Lagrange,
        s,
        view.weights,
        nodal_image_of(s, i, g, eval_mode, false),
        nodal_image_of(s, it, gt, eval_mode, true),
        num_elem,
        eval_mode,
        u,
        w,
        v,
        z,
    );
}

/// The transposed weight mode of a one-component basis is the transposed interpolation.
pub proof fn law_lagrange_weight_transpose<T: Real>(
    basis: LagrangeBasis<T>,
    num_elem: int,
    u: Seq<T>,
    v: Seq<T>,
)
    requires
        basis@.shape().ncomp == 1,
    ensures
        basis.applied(num_elem, true, EvalMode::Weight, u, v) == basis.applied(
            num_elem,
            true,
            EvalMode::Interp,
            u,
            v,
        ),
{
}

} // verus!
