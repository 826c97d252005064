//! The nodal bases on segments, triangles and tetrahedra are exact on polynomials up to their
//! order: shape functions, gradients, and what the basis makes of nodal values, in exact
//! arithmetic.

use vstd::prelude::*;

use crate::basis::BasisTrait;
#[allow(unused_imports)]
use crate::cpu::basis_simplex::{
    simplex_dim, simplex_dofs, simplex_grad, simplex_interp, simplex_points, simplex_rule,
    simplex_slopes, simplex_supported, simplex_values, simplex_view, SimplexBasis,
};
#[allow(unused_imports)]
use crate::cpu::batch::{block, lemma_whole_block};
#[allow(unused_imports)]
use crate::cpu::convert::{exact_storage, kept, lemma_kept_sum, lemma_read_back, widened_all};
#[allow(unused_imports)]
use crate::cpu::cubic_laws::{
    law_cubic_tetrahedron_reproduces, law_cubic_triangle_reproduces, tet_node, tet_samples_of,
    tri_node_x, tri_node_y, tri_samples_of,
};
#[allow(unused_imports)]
use crate::cpu::gradient_laws::{
    aff, exponents, law_linear_values_reproduce, law_low_gradients_reproduce, lemma_affine_scaled,
    lemma_affine_units, low_functions, low_monomial, low_node, low_samples, low_slope, sampled,
};
#[allow(unused_imports)]
use crate::cpu::lagrange_laws::{line_products, line_slopes};
#[allow(unused_imports)]
use crate::cpu::quadratic_laws::{
    half, law_quadratic_tetrahedron_reproduces, law_quadratic_triangle_reproduces, lemma_edge,
    lemma_vertex, tet_quadratic_monomial, tet_quadratic_x, tet_quadratic_y, tet_quadratic_z,
    tri_quadratic_x, tri_quadratic_y,
};
#[allow(unused_imports)]
use crate::cpu::reproduction_laws::{
    law_lagrange_reproduces, law_line_slopes_reproduce, moments, power_slope, to_power,
};
#[allow(unused_imports)]
use crate::cpu::simplex_laws::{
    edge_quadratic, entries, lemma_segment_nodes, lemma_segment_quadratic, vertex_quadratic,
};
#[allow(unused_imports)]
use crate::cpu::simplex_shapes::{
    line_p2_values, line_p3_nodes, tet_monomials, tet_p2_values, tet_p3_slopes, tet_p3_values,
    tri_monomials, tri_monomials_dx, tri_monomials_dy, tri_p2_values, tri_p3_slopes, tri_p3_values,
};
#[allow(unused_imports)]
use crate::enums::{ElemTopology, EvalMode};
#[allow(unused_imports)]
use crate::exact::{exact_integers, lemma_int_units, lemma_minus_plus};
#[allow(unused_imports)]
use crate::index::{lemma_flat, lemma_mul_le};
#[allow(unused_imports)]
use crate::scalar::{
    col_sums, exact_field, exact_ring, lemma_over, lemma_plus_comm, lemma_plus_zero, lemma_sum_ext,
    lemma_sum_scale, lemma_sum_swap, lemma_times_assoc, lemma_times_comm, lemma_times_one,
    lemma_times_zero, ratio_val, row_sums, sum,
};
use crate::scalar::{Real, Scalar};

verus! {

// ── nodes and monomials ─────────────────────────────────────────────────────

/// Coordinates of node `k` of the basis of order `poly`.
pub open spec fn simplex_node<R: Real>(topo: ElemTopology, poly: int, k: int) -> (R, R, R) {
    let zero = R::zero_val();
    if poly <= 2 {
        low_node(simplex_dim(topo), poly, k)
    } else {
        match topo {
            ElemTopology::Line => (line_p3_nodes::<R>()[k], zero, zero),
            ElemTopology::Triangle => (
                ratio_val::<R>(tri_node_x(k), 3),
                ratio_val::<R>(tri_node_y(k), 3),
                zero,
            ),
            _ => (
                ratio_val::<R>(tet_node(k).0, 3),
                ratio_val::<R>(tet_node(k).1, 3),
                ratio_val::<R>(tet_node(k).2, 3),
            ),
        }
    }
}

/// Monomial `t`, in order of degree, for `d == 3`; else its derivative along axis `d`. The first
/// monomials, as many as there are nodes, span the polynomials up to the order of a basis.
pub open spec fn simplex_monomial<R: Real>(
    topo: ElemTopology,
    p: (R, R, R),
    t: int,
    d: int,
) -> R {
    match topo {
        ElemTopology::Line => if d == 3 {
            to_power(p.0, t)
        } else {
            power_slope(p.0, t)
        },
        ElemTopology::Triangle => if d == 3 {
            tri_monomials(p.0, p.1)[t]
        } else if d == 0 {
            tri_monomials_dx(p.0, p.1)[t]
        } else {
            tri_monomials_dy(p.0, p.1)[t]
        },
        _ => tet_monomials(p.0, p.1, p.2, d)[t],
    }
}

/// Monomial `t` at node `k`.
pub open spec fn simplex_sample<R: Real>(topo: ElemTopology, poly: int, k: int, t: int) -> R {
    simplex_monomial(topo, simplex_node::<R>(topo, poly, k), t, 3)
}

/// Point `i` of a coordinate list.
pub open spec fn simplex_point<R: Real>(topo: ElemTopology, pts: Seq<R>, i: int) -> (R, R, R) {
    let zero = R::zero_val();
    match topo {
        ElemTopology::Line => (pts[i], zero, zero),
        ElemTopology::Triangle => (pts[2 * i], pts[2 * i + 1], zero),
        _ => (pts[3 * i], pts[3 * i + 1], pts[3 * i + 2]),
    }
}

/// Shape functions at point `i` for `d == 3`, else their derivatives along axis `d`.
pub open spec fn simplex_functions<R: Real>(
    topo: ElemTopology,
    poly: int,
    pts: Seq<R>,
    i: int,
    d: int,
) -> spec_fn(int) -> R {
    |k: int|
        if d == 3 {
            simplex_values(topo, poly, pts, i)[k]
        } else {
            simplex_slopes(topo, poly, pts, i)[k * simplex_dim(topo) + d]
        }
}

/// Samples of monomial `t` at the nodes.
pub open spec fn simplex_samples<R: Real>(topo: ElemTopology, poly: int, t: int) -> spec_fn(
    int,
) -> R {
    |k: int| simplex_sample::<R>(topo, poly, k, t)
}

/// The slopes of the cubic functions on the segment are defined away from their nodes.
pub open spec fn differentiable<R: Real>(topo: ElemTopology, poly: int, p: (R, R, R)) -> bool {
    topo == ElemTopology::Line && poly == 3 ==> forall|j: int|
        0 <= j < 4 ==> p.0 != #[trigger] line_p3_nodes::<R>()[j]
}

/// Powers up to two, by exponents and by powers.
proof fn lemma_line_monomial<R: Real>(p: (R, R, R), t: int)
    requires
        exact_ring::<R>(),
        exact_integers::<R>(),
        0 <= t <= 2,
    ensures
        low_monomial(exponents(1, t), p.0, p.1, p.2) == to_power(p.0, t),
        low_slope(exponents(1, t), p.0, p.1, p.2, 0) == power_slope(p.0, t),
{
    reveal_with_fuel(to_power, 3);
    lemma_int_units::<R>();
    lemma_times_one(p.0);
    lemma_times_comm(p.0, R::one_val());
    lemma_affine_units(1, p.0, p.1, p.2);
    lemma_affine_scaled(2, aff(0, 1, 0, 0), p.0, p.1, p.2);
    lemma_times_one(R::one_val());
}

/// Monomials of the triangle up to degree two, by exponents and in the list.
proof fn lemma_tri_monomial<R: Real>(p: (R, R, R), t: int)
    requires
        exact_ring::<R>(),
        exact_integers::<R>(),
        0 <= t < 6,
    ensures
        low_monomial(exponents(2, t), p.0, p.1, p.2) == tri_monomials(p.0, p.1)[t],
        low_slope(exponents(2, t), p.0, p.1, p.2, 0) == tri_monomials_dx(p.0, p.1)[t],
        low_slope(exponents(2, t), p.0, p.1, p.2, 1) == tri_monomials_dy(p.0, p.1)[t],
{
    lemma_affine_units(1, p.0, p.1, p.2);
    lemma_affine_scaled(2, aff(0, 1, 0, 0), p.0, p.1, p.2);
    lemma_affine_scaled(2, aff(0, 0, 1, 0), p.0, p.1, p.2);
}

/// Monomials of the tetrahedron up to degree two, by exponents and in the list.
proof fn lemma_tet_monomial<R: Real>(p: (R, R, R), t: int)
    requires
        exact_ring::<R>(),
        exact_integers::<R>(),
        0 <= t < 10,
    ensures
        low_monomial(exponents(3, t), p.0, p.1, p.2) == tet_monomials(p.0, p.1, p.2, 3)[t],
        tet_quadratic_monomial(p.0, p.1, p.2, t) == tet_monomials(p.0, p.1, p.2, 3)[t],
        low_slope(exponents(3, t), p.0, p.1, p.2, 0) == tet_monomials(p.0, p.1, p.2, 0)[t],
        low_slope(exponents(3, t), p.0, p.1, p.2, 1) == tet_monomials(p.0, p.1, p.2, 1)[t],
        low_slope(exponents(3, t), p.0, p.1, p.2, 2) == tet_monomials(p.0, p.1, p.2, 2)[t],
{
    let (x, y, z) = p;
    let one = R::one_val();
    lemma_int_units::<R>();
    lemma_affine_units(1, x, y, z);
    lemma_affine_scaled(2, aff(0, 1, 0, 0), x, y, z);
    lemma_affine_scaled(2, aff(0, 0, 1, 0), x, y, z);
    lemma_affine_scaled(2, aff(0, 0, 0, 1), x, y, z);
    lemma_times_one(one);
    lemma_times_one(x);
    lemma_times_one(y);
    lemma_times_one(z);
    lemma_times_comm(one, x);
    lemma_times_comm(one, y);
    lemma_times_comm(one, z);
    lemma_times_one(x.times(x));
    lemma_times_one(y.times(y));
    lemma_times_one(z.times(z));
    lemma_times_one(x.times(y));
    lemma_times_comm(one, y.times(y));
    lemma_times_comm(one, z.times(z));
    let two = R::int_val(2);
    lemma_times_one(two);
    lemma_times_one(two.times(x));
    lemma_times_one(two.times(y));
    lemma_times_one(two.times(z));
}

// ── shape functions ─────────────────────────────────────────────────────────

/// The quadratic functions on the segment reproduce powers up to two.
proof fn lemma_segment_quadratic_reproduces<R: Real>(x: R, t: int)
    requires
        exact_field::<R>(),
        exact_integers::<R>(),
        0 <= t <= 2,
    ensures
        sum(
            3,
            sampled(entries(line_p2_values(x)), simplex_samples::<R>(ElemTopology::Line, 2, t)),
        ) == to_power(x, t),
{
    lemma_over(R::one_val(), R::one_val());
    let (zero, one, h) = (R::zero_val(), R::one_val(), half::<R>());
    let b = one.minus(x);
    let v = entries(line_p2_values(x));
    let s = simplex_samples::<R>(ElemTopology::Line, 2, t);
    lemma_segment_quadratic(x);
    lemma_edge(b, x);
    lemma_minus_plus(one, x);
    lemma_plus_comm(b, x);
    lemma_vertex(x, b);
    lemma_times_comm(b, x);
    let (e, w) = (edge_quadratic(b, x), vertex_quadratic(x));
    reveal_with_fuel(sum, 4);
    reveal_with_fuel(to_power, 3);
    lemma_times_one(one);
    lemma_times_comm(one, h);
    lemma_times_one(h);
    lemma_times_comm(one, zero);
    lemma_times_zero(one);
    lemma_times_zero(zero);
    lemma_times_zero(v(0));
    lemma_times_one(v(0));
    lemma_times_one(v(1));
    lemma_times_one(v(2));
    lemma_times_one(x);
    lemma_times_comm(x, one);
    lemma_plus_zero(zero);
    let (a1, a2) = (e.times(h), e.times(h.times(h)));
    lemma_plus_zero(a1);
    lemma_plus_zero(a2);
    lemma_plus_comm(zero, a1);
    lemma_plus_comm(zero, a2);
    lemma_plus_comm(a1, w);
    lemma_plus_comm(a2, w);
    let f = sampled(v, s);
    assert(sum(3, f) == zero.plus(f(0)).plus(f(1)).plus(f(2)));
    if t == 0 {
        assert(sum(3, entries(line_p2_values(x))) == zero.plus(v(0)).plus(v(1)).plus(v(2)));
    } else if t == 1 {
        assert(s(0) == zero && s(1) == h && s(2) == one);
    } else {
        assert(s(0) == zero && s(1) == h.times(h) && s(2) == one);
    }
}

/// The shape functions of order `poly` reproduce every polynomial up to that order from its values
/// at the nodes, and their derivatives its derivatives.
pub proof fn law_simplex_reproduces<R: Real>(
    topo: ElemTopology,
    poly: int,
    pts: Seq<R>,
    i: int,
    t: int,
    d: int,
)
    requires
        exact_field::<R>(),
        exact_integers::<R>(),
        simplex_supported(topo, poly),
        0 <= t < simplex_dofs(topo, poly),
        d == 3 || (0 <= d < simplex_dim(topo) && differentiable(
            topo,
            poly,
            simplex_point(topo, pts, i),
        )),
    ensures
        sum(
            simplex_dofs(topo, poly),
            sampled(
                simplex_functions(topo, poly, pts, i, d),
                simplex_samples::<R>(topo, poly, t),
            ),
        ) == simplex_monomial(topo, simplex_point(topo, pts, i), t, d),
{
    if poly == 3 {
        lemma_cubic_case(topo, pts, i, t, d);
    } else if poly == 1 || d != 3 {
        lemma_low_case(topo, poly, pts, i, t, d);
    } else {
        lemma_quadratic_case(topo, pts, i, t);
    }
}

proof fn lemma_low_case<R: Real>(
    topo: ElemTopology,
    poly: int,
    pts: Seq<R>,
    i: int,
    t: int,
    d: int,
)
    requires
        exact_field::<R>(),
        exact_integers::<R>(),
        simplex_supported(topo, poly),
        poly <= 2,
        0 <= t < simplex_dofs(topo, poly),
        (poly == 1 && d == 3) || 0 <= d < simplex_dim(topo),
    ensures
        sum(
            simplex_dofs(topo, poly),
            sampled(
                simplex_functions(topo, poly, pts, i, d),
                simplex_samples::<R>(topo, poly, t),
            ),
        ) == simplex_monomial(topo, simplex_point(topo, pts, i), t, d),
{
    lemma_over(R::one_val(), R::one_val());
    let (dim, n) = (simplex_dim(topo), simplex_dofs(topo, poly));
    let p = simplex_point(topo, pts, i);
    let f = sampled(
        simplex_functions(topo, poly, pts, i, d),
        simplex_samples::<R>(topo, poly, t),
    );
    let g = sampled(
        low_functions(dim, poly, p.0, p.1, p.2, d),
        low_samples::<R>(dim, poly, t),
    );
    assert forall|k: int| 0 <= k < n implies #[trigger] f(k) == g(k) by {
        let c = low_node::<R>(dim, poly, k);
        if dim == 1 {
            lemma_line_monomial(c, t);
        } else if dim == 2 {
            lemma_tri_monomial(c, t);
        } else {
            lemma_tet_monomial(c, t);
        }
    }
    lemma_sum_ext(n, f, g);
    if d == 3 {
        law_linear_values_reproduce(dim, p.0, p.1, p.2, t);
    } else {
        law_low_gradients_reproduce(dim, poly, p.0, p.1, p.2, t, d);
    }
    if dim == 1 {
        lemma_line_monomial(p, t);
    } else if dim == 2 {
        lemma_tri_monomial(p, t);
    } else {
        lemma_tet_monomial(p, t);
    }
}

proof fn lemma_quadratic_case<R: Real>(topo: ElemTopology, pts: Seq<R>, i: int, t: int)
    requires
        exact_field::<R>(),
        exact_integers::<R>(),
        simplex_supported(topo, 2),
        0 <= t < simplex_dofs(topo, 2),
    ensures
        sum(
            simplex_dofs(topo, 2),
            sampled(simplex_functions(topo, 2, pts, i, 3), simplex_samples::<R>(topo, 2, t)),
        ) == simplex_monomial(topo, simplex_point(topo, pts, i), t, 3),
{
    lemma_over(R::one_val(), R::one_val());
    let n = simplex_dofs(topo, 2);
    let (x, y, z) = simplex_point(topo, pts, i);
    let f = sampled(simplex_functions(topo, 2, pts, i, 3), simplex_samples::<R>(topo, 2, t));
    match topo {
        ElemTopology::Line => {
            lemma_segment_quadratic_reproduces(x, t);
            lemma_sum_ext(
                n,
                f,
                sampled(entries(line_p2_values(x)), simplex_samples::<R>(topo, 2, t)),
            );
        },
        ElemTopology::Triangle => {
            law_quadratic_triangle_reproduces(x, y, t);
            lemma_sum_ext(
                n,
                f,
                |k: int|
                    tri_p2_values(x, y)[k].times(
                        tri_monomials(tri_quadratic_x(k), tri_quadratic_y(k))[t],
                    ),
            );
        },
        _ => {
            law_quadratic_tetrahedron_reproduces(x, y, z, t);
            lemma_tet_monomial((x, y, z), t);
            let g = |k: int|
                tet_p2_values(x, y, z)[k].times(
                    tet_quadratic_monomial(
                        tet_quadratic_x(k),
                        tet_quadratic_y(k),
                        tet_quadratic_z(k),
                        t,
                    ),
                );
            assert forall|k: int| 0 <= k < n implies #[trigger] f(k) == g(k) by {
                lemma_tet_monomial(low_node::<R>(3, 2, k), t);
            }
            lemma_sum_ext(n, f, g);
        },
    }
}

proof fn lemma_cubic_case<R: Real>(topo: ElemTopology, pts: Seq<R>, i: int, t: int, d: int)
    requires
        exact_field::<R>(),
        exact_integers::<R>(),
        simplex_supported(topo, 3),
        0 <= t < simplex_dofs(topo, 3),
        d == 3 || (0 <= d < simplex_dim(topo) && differentiable(
            topo,
            3,
            simplex_point(topo, pts, i),
        )),
    ensures
        sum(
            simplex_dofs(topo, 3),
            sampled(simplex_functions(topo, 3, pts, i, d), simplex_samples::<R>(topo, 3, t)),
        ) == simplex_monomial(topo, simplex_point(topo, pts, i), t, d),
{
    lemma_over(R::one_val(), R::one_val());
    let n = simplex_dofs(topo, 3);
    let (x, y, z) = simplex_point(topo, pts, i);
    let f = sampled(simplex_functions(topo, 3, pts, i, d), simplex_samples::<R>(topo, 3, t));
    match topo {
        ElemTopology::Line => {
            let nodes = line_p3_nodes::<R>();
            lemma_segment_nodes::<R>();
            if d == 3 {
                law_lagrange_reproduces(nodes, x, 4, t);
                lemma_sum_ext(n, f, moments(nodes, line_products(nodes, x, 4), t));
            } else {
                law_line_slopes_reproduce(nodes, x, 4, t);
                lemma_sum_ext(n, f, moments(nodes, line_slopes(nodes, x, 4), t));
            }
        },
        ElemTopology::Triangle => {
            law_cubic_triangle_reproduces(x, y, t);
            if d == 3 {
                lemma_sum_ext(n, f, tri_samples_of(|k: int| tri_p3_values(x, y)[k], t));
            } else if d == 0 {
                lemma_sum_ext(n, f, tri_samples_of(|k: int| tri_p3_slopes(x, y)[2 * k], t));
            } else {
                lemma_sum_ext(n, f, tri_samples_of(|k: int| tri_p3_slopes(x, y)[2 * k + 1], t));
            }
        },
        _ => {
            if d == 3 {
                law_cubic_tetrahedron_reproduces(x, y, z, t, 0);
                lemma_sum_ext(n, f, tet_samples_of(|k: int| tet_p3_values(x, y, z)[k], t));
            } else {
                law_cubic_tetrahedron_reproduces(x, y, z, t, d);
                lemma_sum_ext(
                    n,
                    f,
                    tet_samples_of(|k: int| tet_p3_slopes(x, y, z)[3 * k + d], t),
                );
            }
        },
    }
}

// ── the basis ───────────────────────────────────────────────────────────────

/// Terms of a polynomial with the coefficients `c` at a point, or of its derivative.
pub open spec fn polynomial_terms<T: Scalar>(
    topo: ElemTopology,
    c: Seq<T>,
    p: (T::Work, T::Work, T::Work),
    d: int,
) -> spec_fn(int) -> T {
    |t: int| c[t].times(kept::<T>(simplex_monomial(topo, p, t, d)))
}

/// The polynomial with the coefficients `c` at a point for `d == 3`, else its derivative along
/// axis `d`.
pub open spec fn polynomial<T: Scalar>(
    topo: ElemTopology,
    c: Seq<T>,
    p: (T::Work, T::Work, T::Work),
    d: int,
) -> T {
    sum(c.len() as int, polynomial_terms(topo, c, p, d))
}

/// Combinations of samples are taken to the same combinations.
proof fn lemma_combined_samples<T: Real>(
    n: int,
    w: spec_fn(int) -> T,
    s: spec_fn(int, int) -> T,
    m: spec_fn(int) -> T,
    c: Seq<T>,
    f: spec_fn(int) -> T,
    g: spec_fn(int) -> T,
)
    requires
        exact_ring::<T>(),
        forall|t: int| 0 <= t < n ==> sum(n, |k: int| w(k).times(s(k, t))) == #[trigger] m(t),
        forall|k: int|
            0 <= k < n ==> #[trigger] f(k) == w(k).times(sum(n, |t: int| c[t].times(s(k, t)))),
        forall|t: int| 0 <= t < n ==> #[trigger] g(t) == c[t].times(m(t)),
    ensures
        sum(n, f) == sum(n, g),
{
    let p = |k: int, t: int| w(k).times(c[t].times(s(k, t)));
    lemma_sum_swap(n, n, p);
    assert forall|k: int| 0 <= k < n implies #[trigger] row_sums(n, p)(k) == f(k) by {
        lemma_sum_scale(n, w(k), |t: int| c[t].times(s(k, t)), |t: int| p(k, t));
    }
    lemma_sum_ext(n, row_sums(n, p), f);
    assert forall|t: int| 0 <= t < n implies #[trigger] col_sums(n, p)(t) == g(t) by {
        let a = |k: int| w(k).times(s(k, t));
        let b = |k: int| p(k, t);
        assert forall|k: int| 0 <= k < n implies #[trigger] b(k) == c[t].times(a(k)) by {
            lemma_times_assoc(w(k), c[t], s(k, t));
            lemma_times_comm(w(k), c[t]);
            lemma_times_assoc(c[t], w(k), s(k, t));
        }
        lemma_sum_scale(n, c[t], a, b);
        assert(sum(n, a) == m(t));
    }
    lemma_sum_ext(n, col_sums(n, p), g);
}

/// A row of a stored table takes the values of a polynomial at the nodes to its value, or
/// derivative, at the point of the row.
proof fn lemma_row<T: Scalar>(
    topo: ElemTopology,
    poly: int,
    pts: Seq<T::Work>,
    i: int,
    d: int,
    c: Seq<T>,
    f: spec_fn(int) -> T,
)
    requires
        exact_ring::<T>(),
        exact_field::<T::Work>(),
        exact_integers::<T::Work>(),
        exact_storage::<T>(),
        simplex_supported(topo, poly),
        c.len() == simplex_dofs(topo, poly),
        d == 3 || (0 <= d < simplex_dim(topo) && differentiable(
            topo,
            poly,
            simplex_point(topo, pts, i),
        )),
        forall|k: int|
            0 <= k < simplex_dofs(topo, poly) ==> #[trigger] f(k) == kept::<T>(
                simplex_functions(topo, poly, pts, i, d)(k),
            ).times(polynomial(topo, c, simplex_node(topo, poly, k), 3)),
    ensures
        sum(simplex_dofs(topo, poly), f) == polynomial(topo, c, simplex_point(topo, pts, i), d),
{
    let n = simplex_dofs(topo, poly);
    let a = simplex_functions(topo, poly, pts, i, d);
    let w = |k: int| kept::<T>(a(k));
    let s = |k: int, t: int| kept::<T>(simplex_sample(topo, poly, k, t));
    let p = simplex_point(topo, pts, i);
    let m = |t: int| kept::<T>(simplex_monomial(topo, p, t, d));
    assert forall|t: int| 0 <= t < n implies sum(n, |k: int| w(k).times(s(k, t))) == #[trigger] m(
        t,
    ) by {
        law_simplex_reproduces(topo, poly, pts, i, t, d);
        let b = simplex_samples(topo, poly, t);
        lemma_kept_sum::<T>(n, a, b, sampled(a, b), |k: int| w(k).times(s(k, t)));
    }
    assert forall|k: int| 0 <= k < n implies #[trigger] f(k) == w(k).times(
        sum(n, |t: int| c[t].times(s(k, t))),
    ) by {
        lemma_sum_ext(
            n,
            polynomial_terms(topo, c, simplex_node(topo, poly, k), 3),
            |t: int| c[t].times(s(k, t)),
        );
    }
    lemma_combined_samples(n, w, s, m, c, f, polynomial_terms(topo, c, p, d));
}

/// Where a component of an element holds the values of a polynomial up to the order of the basis
/// at the nodes, interpolation gives its values at the quadrature points, which are those that the
/// basis reports.
pub proof fn law_simplex_interpolation_is_exact<T: Scalar>(
    b: SimplexBasis<T>,
    topo: ElemTopology,
    poly: usize,
    ncomp: usize,
    q: usize,
    num_elem: int,
    u: Seq<T>,
    v: Seq<T>,
    c: Seq<T>,
    e: int,
    comp: int,
    i: int,
)
    requires
        exact_ring::<T>(),
        exact_field::<T::Work>(),
        exact_integers::<T::Work>(),
        exact_storage::<T>(),
        simplex_supported(topo, poly as int),
        simplex_rule(topo, q as int),
        b.wf(),
        b@ == simplex_view::<T>(topo, poly, ncomp, q),
        b.refusal(num_elem, false, EvalMode::Interp, u.len(), v.len()) is None,
        c.len() == b.dofs(),
        0 <= e < num_elem,
        0 <= comp < ncomp,
        0 <= i < q,
        forall|k: int|
            0 <= k < b.dofs() ==> #[trigger] block(u, e, b.dofs() * ncomp)[comp * b.dofs() + k]
                == polynomial(topo, c, simplex_node(topo, poly as int, k), 3),
    ensures
        block(
            b.applied(num_elem, false, EvalMode::Interp, u, v),
            e,
            q * ncomp,
        )[i * ncomp + comp] == polynomial(
            topo,
            c,
            simplex_point(topo, simplex_points::<T::Work>(topo, q as int), i),
            3,
        ),
        widened_all::<T>(b.point_values()) == simplex_points::<T::Work>(topo, q as int),
{
    lemma_read_back::<T>(simplex_points::<T::Work>(topo, q as int));
    let (nd, nc, nq) = (b.dofs(), ncomp as int, q as int);
    let pts = simplex_points::<T::Work>(topo, nq);
    let w = block(u, e, nd * nc);
    let f = b@.interp_terms(w, i, comp);
    lemma_flat(i, nq, comp, nc);
    lemma_flat(e, num_elem, i * nc + comp, nq * nc);
    lemma_mul_le(e + 1, num_elem, 0, nq * nc);
    let table = simplex_interp::<T::Work>(topo, poly as int, nq);
    assert forall|k: int| 0 <= k < nd implies #[trigger] f(k) == kept::<T>(
        simplex_functions(topo, poly as int, pts, i, 3)(k),
    ).times(polynomial(topo, c, simplex_node(topo, poly as int, k), 3)) by {
        lemma_flat(i, nq, k, nd);
        assert(b@.interp[i * nd + k] == kept::<T>(table[i * nd + k]));
        assert(w[comp * nd + k] == polynomial(topo, c, simplex_node(topo, poly as int, k), 3));
    }
    lemma_row::<T>(topo, poly as int, pts, i, 3, c, f);
    lemma_whole_block(e, num_elem, nq * nc);
    let out = b.applied(num_elem, false, EvalMode::Interp, u, v);
    assert(out[e * (nq * nc) + (i * nc + comp)] == sum(nd, f));
}

/// Where a component of an element holds the values of a polynomial up to the order of the basis
/// at the nodes, differentiation gives its derivatives at the quadrature points, which are those
/// that the basis reports.
pub proof fn law_simplex_gradient_is_exact<T: Scalar>(
    b: SimplexBasis<T>,
    topo: ElemTopology,
    poly: usize,
    ncomp: usize,
    q: usize,
    num_elem: int,
    u: Seq<T>,
    v: Seq<T>,
    c: Seq<T>,
    e: int,
    comp: int,
    i: int,
    d: int,
)
    requires
        exact_ring::<T>(),
        exact_field::<T::Work>(),
        exact_integers::<T::Work>(),
        exact_storage::<T>(),
        simplex_supported(topo, poly as int),
        simplex_rule(topo, q as int),
        b.wf(),
        b@ == simplex_view::<T>(topo, poly, ncomp, q),
        b.refusal(num_elem, false, EvalMode::Grad, u.len(), v.len()) is None,
        c.len() == b.dofs(),
        0 <= e < num_elem,
        0 <= comp < ncomp,
        0 <= i < q,
        0 <= d < b.dimension(),
        differentiable(
            topo,
            poly as int,
            simplex_point(topo, simplex_points::<T::Work>(topo, q as int), i),
        ),
        forall|k: int|
            0 <= k < b.dofs() ==> #[trigger] block(u, e, b.dofs() * ncomp)[comp * b.dofs() + k]
                == polynomial(topo, c, simplex_node(topo, poly as int, k), 3),
    ensures
        block(
            b.applied(num_elem, false, EvalMode::Grad, u, v),
            e,
            q * (ncomp * b.dimension()),
        )[i * (ncomp * b.dimension()) + (comp * b.dimension() + d)] == polynomial(
            topo,
            c,
            simplex_point(topo, simplex_points::<T::Work>(topo, q as int), i),
            d,
        ),
        widened_all::<T>(b.point_values()) == simplex_points::<T::Work>(topo, q as int),
{
    lemma_read_back::<T>(simplex_points::<T::Work>(topo, q as int));
    let (nd, nc, nq, dim) = (b.dofs(), ncomp as int, q as int, b.dimension());
    let qc = nc * dim;
    let pts = simplex_points::<T::Work>(topo, nq);
    let w = block(u, e, nd * nc);
    let f = b@.grad_terms(w, i, comp, d);
    lemma_flat(comp, nc, d, dim);
    lemma_flat(i, nq, comp * dim + d, qc);
    lemma_flat(e, num_elem, i * qc + (comp * dim + d), nq * qc);
    let table = simplex_grad::<T::Work>(topo, poly as int, nq);
    assert forall|k: int| 0 <= k < nd implies #[trigger] f(k) == kept::<T>(
        simplex_functions(topo, poly as int, pts, i, d)(k),
    ).times(polynomial(topo, c, simplex_node(topo, poly as int, k), 3)) by {
        lemma_flat(k, nd, d, dim);
        lemma_flat(i, nq, k * dim + d, nd * dim);
        assert((i * nd + k) * dim + d == i * (nd * dim) + (k * dim + d)) by (nonlinear_arith);
        assert(b@.grad[(i * nd + k) * dim + d] == kept::<T>(table[i * (nd * dim) + (k * dim + d)]));
        assert(w[comp * nd + k] == polynomial(topo, c, simplex_node(topo, poly as int, k), 3));
    }
    lemma_row::<T>(topo, poly as int, pts, i, d, c, f);
    lemma_whole_block(e, num_elem, nq * qc);
    let out = b.applied(num_elem, false, EvalMode::Grad, u, v);
    assert(out[e * (nq * qc) + (i * qc + (comp * dim + d))] == sum(nd, f));
}

} // verus!
