//! What the quadrature points and weights of the bases and of their faces add up to.

use vstd::prelude::*;

use crate::basis::BasisTrait;
#[allow(unused_imports)]
use crate::cpu::basis_lagrange::{lagrange_view, power, rule_points, rule_weights, LagrangeBasis};
#[allow(unused_imports)]
use crate::cpu::basis_prism::{prism_view, PrismBasis};
#[allow(unused_imports)]
use crate::cpu::basis_simplex::{
    simplex_points, simplex_rule, simplex_view, simplex_weights, SimplexBasis,
};
#[allow(unused_imports)]
use crate::cpu::convert::{exact_storage, kept, lemma_read_back, stored, widened_all};
#[allow(unused_imports)]
use crate::cpu::face_quadrature::{axis_points, tensor_face_points, tensor_face_weights};
#[allow(unused_imports)]
use crate::cpu::face_rules::{face_points, face_weights, simplex_order};
#[allow(unused_imports)]
use crate::cpu::lagrange_tables::{tensor_points, tensor_weights};
#[allow(unused_imports)]
use crate::cpu::pyramid_laws::lemma_two_halves;
#[allow(unused_imports)]
use crate::cpu::quadrature::{gauss_points, gauss_weights};
#[allow(unused_imports)]
use crate::cpu::rule_laws::{
    factorial, law_tet_rules_are_exact, law_tri_rules_are_exact, plane_moments, root_is_exact,
    space_moments, tet_degree, tri_degree,
};
#[allow(unused_imports)]
use crate::cpu::simplex_reproduction::simplex_point;
#[allow(unused_imports)]
use crate::cpu::simplex_shapes::{
    line_rule_points, line_rule_weights, tri_rule_points, tri_rule_weights,
};
#[allow(unused_imports)]
use crate::cpu::vector_tables::{
    rule_points as vector_rule_points, rule_weights as vector_rule_weights, vector_view,
    VectorFamily, VectorView,
};
#[allow(unused_imports)]
use crate::enums::{ElemTopology, QuadMode};
#[allow(unused_imports)]
use crate::exact::{exact_integers, lemma_times_cross, lemma_times_swap};
#[allow(unused_imports)]
use crate::index::{lemma_flat, lemma_mul_le, lemma_split};
#[allow(unused_imports)]
use crate::linear::lemma_sum_product;
use crate::scalar::{Real, Scalar};
#[allow(unused_imports)]
use crate::scalar::{
    exact_field, exact_ring, lemma_sum_ext, lemma_times_assoc, lemma_times_comm, ratio_val, sum,
};

verus! {

// ── sums over points ────────────────────────────────────────────────────────

/// Weighted values of a function of one coordinate.
pub open spec fn line_terms<T: Real>(
    x: Seq<T>,
    w: Seq<T>,
    f: spec_fn(T) -> T,
) -> spec_fn(int) -> T {
    |i: int| w[i].times(f(x[i]))
}

/// Weighted values of a product of functions of two coordinates.
pub open spec fn plane_terms<T: Real>(
    x: Seq<T>,
    w: Seq<T>,
    f: spec_fn(T) -> T,
    g: spec_fn(T) -> T,
) -> spec_fn(int) -> T {
    |i: int| w[i].times(f(x[2 * i])).times(g(x[2 * i + 1]))
}

/// Weighted values of a product of functions of three coordinates.
pub open spec fn space_terms<T: Real>(
    x: Seq<T>,
    w: Seq<T>,
    f: spec_fn(T) -> T,
    g: spec_fn(T) -> T,
    h: spec_fn(T) -> T,
) -> spec_fn(int) -> T {
    |i: int| w[i].times(f(x[3 * i])).times(g(x[3 * i + 1])).times(h(x[3 * i + 2]))
}

/// The one-dimensional points of a basis as it stores them.
pub open spec fn line_points<T: Scalar>(qmode: QuadMode, q: usize) -> Seq<T> {
    stored::<T>(rule_points::<T::Work>(qmode, q as int))
}

/// The one-dimensional weights of a basis as it stores them.
pub open spec fn line_weights<T: Scalar>(qmode: QuadMode, q: usize) -> Seq<T> {
    stored::<T>(rule_weights::<T::Work>(qmode, q as int))
}

/// The one-dimensional sum of a function over the rule of a basis.
pub open spec fn line_sum<T: Scalar>(qmode: QuadMode, q: usize, f: spec_fn(T) -> T) -> T {
    sum(q as int, line_terms(line_points::<T>(qmode, q), line_weights::<T>(qmode, q), f))
}

/// Two weighted values multiply to the value of the product.
proof fn lemma_two_factors<T: Real>(v: T, w: T, a: T, b: T)
    requires
        exact_ring::<T>(),
    ensures
        v.times(w).times(a).times(b) == w.times(b).times(v.times(a)),
{
    lemma_times_assoc(v.times(w), a, b);
    lemma_times_cross(v, w, a, b);
    lemma_times_comm(v.times(a), w.times(b));
}

/// Three weighted values multiply to the value of the product.
proof fn lemma_three_factors<T: Real>(u: T, v: T, w: T, a: T, b: T, c: T)
    requires
        exact_ring::<T>(),
    ensures
        u.times(v).times(w).times(a).times(b).times(c) == v.times(w).times(b).times(c).times(
            u.times(a),
        ),
{
    // (((u v) w) a) == (v w) (u a)
    lemma_times_assoc(u, v, w);
    lemma_times_comm(u, v.times(w));
    lemma_times_assoc(v.times(w), u, a);
    lemma_times_swap(v.times(w), u.times(a), b);
    lemma_times_swap(v.times(w).times(b), u.times(a), c);
}

// ── elements ────────────────────────────────────────────────────────────────

/// Products along one axis.
proof fn lemma_line_rule<T: Scalar>(
    qmode: QuadMode,
    q: usize,
    x: Seq<T>,
    w: Seq<T>,
    f: spec_fn(T) -> T,
)
    requires
        1 <= q,
        x == stored::<T>(tensor_points(rule_points::<T::Work>(qmode, q as int), q as int, 1)),
        w == stored::<T>(tensor_weights(rule_weights::<T::Work>(qmode, q as int), q as int, 1)),
    ensures
        sum(q as int, line_terms(x, w, f)) == line_sum::<T>(qmode, q, f),
{
    let n = q as int;
    let (lx, lw) = (line_points::<T>(qmode, q), line_weights::<T>(qmode, q));
    assert forall|i: int| 0 <= i < n implies #[trigger] line_terms(x, w, f)(i) == line_terms(
        lx,
        lw,
        f,
    )(i) by {
        lemma_small(i, n);
        assert(x[i] == lx[i] && w[i] == lw[i]);
    }
    lemma_sum_ext(n, line_terms(x, w, f), line_terms(lx, lw, f));
}

/// Products along two axes.
proof fn lemma_plane_rule<T: Scalar>(
    qmode: QuadMode,
    q: usize,
    x: Seq<T>,
    w: Seq<T>,
    f: spec_fn(T) -> T,
    g: spec_fn(T) -> T,
)
    requires
        exact_ring::<T>(),
        exact_storage::<T>(),
        1 <= q,
        x == stored::<T>(tensor_points(rule_points::<T::Work>(qmode, q as int), q * q, 2)),
        w == stored::<T>(tensor_weights(rule_weights::<T::Work>(qmode, q as int), q * q, 2)),
    ensures
        sum(q * q, plane_terms(x, w, f, g)) == line_sum::<T>(qmode, q, f).times(
            line_sum::<T>(qmode, q, g),
        ),
{
    let n = q as int;
    let (lx, lw) = (line_points::<T>(qmode, q), line_weights::<T>(qmode, q));
    let (tf, tg) = (line_terms(lx, lw, f), line_terms(lx, lw, g));
    let t = plane_terms(x, w, f, g);
    lemma_mul_le(0, n, 0, n);
    assert forall|i: int| 0 <= i < n * n implies #[trigger] t(i) == tg(i / n).times(tf(i % n)) by {
        lemma_split(i, n, n);
        lemma_small(i / n, n);
        assert(x[2 * i] == lx[i % n] && x[2 * i + 1] == lx[i / n]);
        assert(w[i] == lw[i % n].times(lw[i / n])) by {
            reveal(exact_storage);
            let weights = rule_weights::<T::Work>(qmode, n);
            assert(w[i] == kept::<T>(weights[i % n].times(weights[i / n])));
        }
        lemma_two_factors(lw[i % n], lw[i / n], f(lx[i % n]), g(lx[i / n]));
    }
    lemma_sum_product(n, n, tg, tf, t);
    lemma_times_comm(sum(n, tg), sum(n, tf));
}

/// Products along three axes.
proof fn lemma_space_rule<T: Scalar>(
    qmode: QuadMode,
    q: usize,
    x: Seq<T>,
    w: Seq<T>,
    f: spec_fn(T) -> T,
    g: spec_fn(T) -> T,
    h: spec_fn(T) -> T,
)
    requires
        exact_ring::<T>(),
        exact_storage::<T>(),
        1 <= q,
        x == stored::<T>(tensor_points(rule_points::<T::Work>(qmode, q as int), q * q * q, 3)),
        w == stored::<T>(tensor_weights(rule_weights::<T::Work>(qmode, q as int), q * q * q, 3)),
    ensures
        sum(q * q * q, space_terms(x, w, f, g, h)) == line_sum::<T>(qmode, q, f).times(
            line_sum::<T>(qmode, q, g),
        ).times(line_sum::<T>(qmode, q, h)),
{
    let n = q as int;
    let (lx, lw) = (line_points::<T>(qmode, q), line_weights::<T>(qmode, q));
    let (tf, tg, th) = (line_terms(lx, lw, f), line_terms(lx, lw, g), line_terms(lx, lw, h));
    let t = space_terms(x, w, f, g, h);
    let s = |j: int| lw[j % n].times(lw[j / n]).times(g(lx[j % n])).times(h(lx[j / n]));
    lemma_mul_le(0, n, 0, n);
    lemma_mul_le(0, n * n, 0, n);
    assert forall|i: int| 0 <= i < n * n * n implies #[trigger] t(i) == s(i / n).times(tf(i % n)) by {
        lemma_split(i, n * n, n);
        let j = i / n;
        lemma_split(j, n, n);
        assert(x[3 * i] == lx[i % n] && x[3 * i + 1] == lx[j % n] && x[3 * i + 2] == lx[j / n]);
        assert(w[i] == lw[i % n].times(lw[j % n]).times(lw[j / n])) by {
            reveal(exact_storage);
            let weights = rule_weights::<T::Work>(qmode, n);
            let part = weights[i % n].times(weights[j % n]);
            assert(w[i] == kept::<T>(part.times(weights[j / n])));
            assert(kept::<T>(part) == lw[i % n].times(lw[j % n]));
        }
        lemma_three_factors(
            lw[i % n],
            lw[j % n],
            lw[j / n],
            f(lx[i % n]),
            g(lx[j % n]),
            h(lx[j / n]),
        );
    }
    assert forall|j: int| 0 <= j < n * n implies #[trigger] s(j) == th(j / n).times(tg(j % n)) by {
        lemma_split(j, n, n);
        lemma_two_factors(lw[j % n], lw[j / n], g(lx[j % n]), h(lx[j / n]));
    }
    lemma_sum_product(n * n, n, s, tf, t);
    lemma_sum_product(n, n, th, tg, s);
    let (a, b, c) = (sum(n, tf), sum(n, tg), sum(n, th));
    lemma_times_comm(c, b);
    lemma_times_comm(b.times(c), a);
    lemma_times_assoc(a, b, c);
}

/// The points and weights of a tensor-product basis integrate products: the weighted sum of a
/// product of functions, one of each coordinate, over the points that the basis reports is the
/// product of the one-dimensional sums.
pub proof fn law_tensor_rule_integrates_products<T: Scalar>(
    basis: LagrangeBasis<T>,
    dim: usize,
    ncomp: usize,
    p: usize,
    q: usize,
    qmode: QuadMode,
    f: spec_fn(T) -> T,
    g: spec_fn(T) -> T,
    h: spec_fn(T) -> T,
)
    requires
        exact_ring::<T>(),
        exact_storage::<T>(),
        1 <= q,
        basis@ == lagrange_view::<T>(dim, ncomp, p, q, qmode),
    ensures
        ({
            let (x, w) = (basis.point_values(), basis.weight_values());
            let (a, b, c) = (
                line_sum::<T>(qmode, q, f),
                line_sum::<T>(qmode, q, g),
                line_sum::<T>(qmode, q, h),
            );
            &&& dim == 1 ==> sum(q as int, line_terms(x, w, f)) == a
            &&& dim == 2 ==> sum(q * q, plane_terms(x, w, f, g)) == a.times(b)
            &&& dim == 3 ==> sum(q * q * q, space_terms(x, w, f, g, h)) == a.times(b).times(c)
        }),
{
    let (x, w) = (basis.point_values(), basis.weight_values());
    if dim == 1 {
        lemma_line_rule::<T>(qmode, q, x, w, f);
    } else if dim == 2 {
        lemma_plane_rule::<T>(qmode, q, x, w, f, g);
    } else if dim == 3 {
        lemma_space_rule::<T>(qmode, q, x, w, f, g, h);
    }
}

/// A remainder of a smaller number.
proof fn lemma_small(k: int, n: int)
    requires
        0 <= k < n,
    ensures
        k % n == k,
{
    assert(k % n == k) by (nonlinear_arith)
        requires
            0 <= k < n,
    ;
}

// ── faces ───────────────────────────────────────────────────────────────────

/// The rule on the faces of a tensor-product element integrates products: on the edges of a
/// quadrilateral it is the one-dimensional rule, and on the faces of a hexahedron the weighted sum
/// of a product of functions, one of each face coordinate, is the product of the one-dimensional
/// sums.
pub proof fn law_face_rule_integrates_products<T: Scalar>(
    basis: LagrangeBasis<T>,
    dim: usize,
    ncomp: usize,
    p: usize,
    q: usize,
    qmode: QuadMode,
    f: spec_fn(T) -> T,
    g: spec_fn(T) -> T,
)
    requires
        exact_ring::<T>(),
        1 <= q,
        basis@ == lagrange_view::<T>(dim, ncomp, p, q, qmode),
    ensures
        ({
            let (x, w) = (tensor_face_points(basis@), tensor_face_weights(basis@));
            let (a, b) = (line_sum::<T>(qmode, q, f), line_sum::<T>(qmode, q, g));
            &&& dim == 2 ==> x.len() == q && w.len() == q && sum(q as int, line_terms(x, w, f)) == a
            &&& dim == 3 ==> x.len() == 2 * (q * q) && w.len() == q * q && sum(
                q * q,
                plane_terms(x, w, f, g),
            ) == a.times(b)
        }),
{
    let n = q as int;
    let view = basis@;
    let (lx, lw) = (line_points::<T>(qmode, q), line_weights::<T>(qmode, q));
    let (tf, tg) = (line_terms(lx, lw, f), line_terms(lx, lw, g));
    let points = rule_points::<T::Work>(qmode, n);
    let wx = tensor_points(points, power(n, dim as int), dim as int);
    let ax = axis_points(view);
    lemma_mul_le(0, n, 0, n);
    lemma_mul_le(1, n, n, n);
    lemma_mul_le(1, n, n * n, n * n);
    if dim == 2 || dim == 3 {
        assert forall|i: int| 0 <= i < n implies #[trigger] ax[i] == lx[i] by {
            lemma_flat(i, n, 0, dim as int);
            lemma_flat(i, power(n, dim as int), 0, dim as int);
            lemma_small(i, n);
            assert(view.q_ref[i * dim] == kept::<T>(wx[i * dim]));
        }
    }
    if dim == 2 {
        let t = line_terms(tensor_face_points(view), tensor_face_weights(view), f);
        lemma_sum_ext(n, t, tf);
    } else if dim == 3 {
        let t = plane_terms(tensor_face_points(view), tensor_face_weights(view), f, g);
        assert forall|k: int| 0 <= k < n * n implies #[trigger] t(k) == tg(k / n).times(
            tf(k % n),
        ) by {
            lemma_split(k, n, n);
            lemma_two_factors(lw[k % n], lw[k / n], f(lx[k % n]), g(lx[k / n]));
        }
        lemma_sum_product(n, n, tg, tf, t);
        lemma_times_comm(sum(n, tg), sum(n, tf));
    }
}

// ── prisms ──────────────────────────────────────────────────────────────────

/// Weighted values of a function of two coordinates.
pub open spec fn area_terms<T: Real>(
    x: Seq<T>,
    w: Seq<T>,
    f: spec_fn(T, T) -> T,
) -> spec_fn(int) -> T {
    |i: int| w[i].times(f(x[2 * i], x[2 * i + 1]))
}

/// Weighted values of a product of a function of the first two coordinates and one of the third.
pub open spec fn layer_terms<T: Real>(
    x: Seq<T>,
    w: Seq<T>,
    f: spec_fn(T, T) -> T,
    g: spec_fn(T) -> T,
) -> spec_fn(int) -> T {
    |i: int| w[i].times(f(x[3 * i], x[3 * i + 1])).times(g(x[3 * i + 2]))
}

/// The points and weights of a prism integrate products: the weighted sum of a product of a
/// function on the triangle and one on the segment is the product of the sums over the rule of the
/// triangle and over the rule of the segment.
pub proof fn law_prism_rule_integrates_products<T: Scalar>(
    b: PrismBasis<T>,
    tri_poly: usize,
    line_p: usize,
    tri_q: usize,
    line_q: usize,
    ncomp: usize,
    f: spec_fn(T, T) -> T,
    g: spec_fn(T) -> T,
)
    requires
        exact_ring::<T>(),
        1 <= line_q,
        simplex_rule(ElemTopology::Triangle, tri_q as int),
        b@ == prism_view::<T>(tri_poly, line_p, tri_q, line_q, ncomp),
    ensures
        sum(tri_q * line_q, layer_terms(b.point_values(), b.weight_values(), f, g)) == sum(
            tri_q as int,
            area_terms(
                stored::<T>(tri_rule_points::<T::Work>(tri_q as int)),
                stored::<T>(tri_rule_weights::<T::Work>(tri_q as int)),
                f,
            ),
        ).times(line_sum::<T>(QuadMode::Gauss, line_q, g)),
{
    let (x, w) = (b.point_values(), b.weight_values());
    let (n, m) = (tri_q as int, line_q as int);
    let (tx, tw) = (
        stored::<T>(tri_rule_points::<T::Work>(n)),
        stored::<T>(tri_rule_weights::<T::Work>(n)),
    );
    let (lx, lw) = (
        line_points::<T>(QuadMode::Gauss, line_q),
        line_weights::<T>(QuadMode::Gauss, line_q),
    );
    let (a, c, t) = (
        area_terms(tx, tw, f),
        line_terms(lx, lw, g),
        layer_terms(x, w, f, g),
    );
    lemma_mul_le(0, n, 0, m);
    assert forall|k: int| 0 <= k < n * m implies #[trigger] t(k) == a(k / m).times(c(k % m)) by {
        lemma_split(k, n, m);
        let (i, j) = (k / m, k % m);
        assert(x[3 * k] == tx[2 * i] && x[3 * k + 1] == tx[2 * i + 1] && x[3 * k + 2] == lx[j]);
        assert(w[k] == tw[i].times(lw[j]));
        let (fv, gv) = (f(tx[2 * i], tx[2 * i + 1]), g(lx[j]));
        lemma_times_assoc(tw[i].times(lw[j]), fv, gv);
        lemma_times_cross(tw[i], lw[j], fv, gv);
    }
    lemma_sum_product(n, m, a, c, t);
}

/// The coordinates that a prism reports for a point are those of a point of the triangle and of a
/// point of the segment: the ones at which the law of exactness takes the two factors.
pub proof fn law_prism_points<T: Scalar>(
    b: PrismBasis<T>,
    tri_poly: usize,
    line_p: usize,
    tri_q: usize,
    line_q: usize,
    ncomp: usize,
    i: int,
)
    requires
        exact_storage::<T>(),
        1 <= line_q,
        simplex_rule(ElemTopology::Triangle, tri_q as int),
        b@ == prism_view::<T>(tri_poly, line_p, tri_q, line_q, ncomp),
        0 <= i < tri_q * line_q,
    ensures
        ({
            let x = widened_all::<T>(b.point_values());
            let pts = simplex_points::<T::Work>(ElemTopology::Triangle, tri_q as int);
            let p = simplex_point(ElemTopology::Triangle, pts, i / (line_q as int));
            &&& x[3 * i] == p.0
            &&& x[3 * i + 1] == p.1
            &&& x[3 * i + 2] == gauss_points::<T::Work>(line_q as int)[i % (line_q as int)]
        }),
{
    reveal(exact_storage);
    let (n, m) = (tri_q as int, line_q as int);
    lemma_split(i, n, m);
    let (j, l) = (i / m, i % m);
    let pts = simplex_points::<T::Work>(ElemTopology::Triangle, n);
    let x = b.point_values();
    assert(x[3 * i] == kept::<T>(pts[2 * j]));
    assert(x[3 * i + 1] == kept::<T>(pts[2 * j + 1]));
    assert(x[3 * i + 2] == kept::<T>(gauss_points::<T::Work>(m)[l]));
}

// ── simplices ───────────────────────────────────────────────────────────────

/// The points and weights that a basis on the triangle or tetrahedron reports integrate the
/// monomials up to the degree of the rule exactly.
pub proof fn law_simplex_rule_is_exact<T: Scalar>(
    b: SimplexBasis<T>,
    topo: ElemTopology,
    poly: usize,
    ncomp: usize,
    q: usize,
    k: int,
    l: int,
    m: int,
)
    requires
        exact_field::<T::Work>(),
        exact_integers::<T::Work>(),
        exact_storage::<T>(),
        b@ == simplex_view::<T>(topo, poly, ncomp, q),
        0 <= k,
        0 <= l,
        0 <= m,
    ensures
        ({
            let (x, w) = (
                widened_all::<T>(b.point_values()),
                widened_all::<T>(b.weight_values()),
            );
            &&& topo == ElemTopology::Triangle && (q == 7 ==> root_is_exact::<T::Work>(15)) && k + l
                <= tri_degree(q as int) ==> sum(q as int, plane_moments(x, w, k, l)) == ratio_val::<
                T::Work,
            >(factorial(k) * factorial(l), factorial(k + l + 2))
            &&& topo == ElemTopology::Tet && (q == 4 ==> root_is_exact::<T::Work>(5)) && k + l + m
                <= tet_degree(q as int) ==> sum(q as int, space_moments(x, w, k, l, m))
                == ratio_val::<T::Work>(
                factorial(k) * (factorial(l) * factorial(m)),
                factorial(k + l + m + 3),
            )
        }),
{
    lemma_read_back::<T>(simplex_points::<T::Work>(topo, q as int));
    lemma_read_back::<T>(simplex_weights::<T::Work>(topo, q as int));
    if topo == ElemTopology::Triangle && (q == 7 ==> root_is_exact::<T::Work>(15)) && k + l
        <= tri_degree(q as int) {
        law_tri_rules_are_exact::<T::Work>(q as int, k, l);
    }
    if topo == ElemTopology::Tet && (q == 4 ==> root_is_exact::<T::Work>(5)) && k + l + m
        <= tet_degree(q as int) {
        law_tet_rules_are_exact::<T::Work>(q as int, k, l, m);
    }
}

/// The points and weights that the edge and face bases report integrate the monomials up to the
/// degree of the rule exactly.
pub proof fn law_vector_rule_is_exact<T: Scalar>(
    view: VectorView<T>,
    family: VectorFamily,
    dim: int,
    nd: int,
    q: int,
    k: int,
    l: int,
    m: int,
)
    requires
        exact_field::<T::Work>(),
        exact_integers::<T::Work>(),
        exact_storage::<T>(),
        view == vector_view::<T>(family, dim, nd, q),
        0 <= k,
        0 <= l,
        0 <= m,
    ensures
        ({
            let (x, w) = (widened_all::<T>(view.q_ref), widened_all::<T>(view.weights));
            &&& dim == 2 && (q == 7 ==> root_is_exact::<T::Work>(15)) && k + l <= tri_degree(q)
                ==> sum(q, plane_moments(x, w, k, l)) == ratio_val::<T::Work>(
                factorial(k) * factorial(l),
                factorial(k + l + 2),
            )
            &&& dim == 3 && (q == 4 ==> root_is_exact::<T::Work>(5)) && k + l + m <= tet_degree(q)
                ==> sum(q, space_moments(x, w, k, l, m)) == ratio_val::<T::Work>(
                factorial(k) * (factorial(l) * factorial(m)),
                factorial(k + l + m + 3),
            )
        }),
{
    lemma_read_back::<T>(vector_rule_points::<T::Work>(dim, q));
    lemma_read_back::<T>(vector_rule_weights::<T::Work>(dim, q));
    if dim == 2 && (q == 7 ==> root_is_exact::<T::Work>(15)) && k + l <= tri_degree(q) {
        law_tri_rules_are_exact::<T::Work>(q, k, l);
    }
    if dim == 3 && (q == 4 ==> root_is_exact::<T::Work>(5)) && k + l + m <= tet_degree(q) {
        law_tet_rules_are_exact::<T::Work>(q, k, l, m);
    }
}

/// The rule on `[0, 1]` is the Gauss rule on `[-1, 1]` moved there: twice a point is the Gauss
/// point plus one, and twice a weight is the Gauss weight.
pub proof fn law_line_rule_is_moved_gauss<R: Real>(q: int, i: int)
    requires
        exact_field::<R>(),
        exact_integers::<R>(),
        0 <= i < q,
    ensures
        ({
            let (x, w) = (line_rule_points::<R>(q)[i], line_rule_weights::<R>(q)[i]);
            &&& x.plus(x) == gauss_points::<R>(q)[i].plus(R::one_val())
            &&& w.plus(w) == gauss_weights::<R>(q)[i]
        }),
{
    lemma_two_halves(gauss_points::<R>(q)[i].plus(R::one_val()));
    lemma_two_halves(gauss_weights::<R>(q)[i]);
}

/// The rule on the faces of a tetrahedron of order `poly` integrates the monomials up to that
/// degree exactly over the reference triangle; the rule on the edges of a triangle is the moved
/// Gauss rule with one point more than the order.
pub proof fn law_simplex_face_rule<R: Real>(poly: int, a: int, b: int, i: int)
    requires
        exact_field::<R>(),
        exact_integers::<R>(),
        1 <= poly <= 3,
        0 <= a,
        0 <= b,
        a + b <= poly,
        0 <= i <= poly,
    ensures
        sum(
            face_weights::<R>(3, poly).len() as int,
            plane_moments(face_points::<R>(3, poly), face_weights::<R>(3, poly), a, b),
        ) == ratio_val::<R>(factorial(a) * factorial(b), factorial(a + b + 2)),
        face_weights::<R>(2, poly).len() == poly + 1,
        ({
            let (x, w) = (face_points::<R>(2, poly)[i], face_weights::<R>(2, poly)[i]);
            &&& x.plus(x) == gauss_points::<R>(poly + 1)[i].plus(R::one_val())
            &&& w.plus(w) == gauss_weights::<R>(poly + 1)[i]
        }),
{
    let q = if poly == 1 {
        1int
    } else if poly == 2 {
        3int
    } else {
        4int
    };
    law_tri_rules_are_exact::<R>(q, a, b);
    law_line_rule_is_moved_gauss::<R>(poly + 1, i);
}

/// The order behind a number of nodes: a triangle of order `k` has `(k + 1)(k + 2) / 2` nodes, a
/// tetrahedron `(k + 1)(k + 2)(k + 3) / 6`. Orders one to three are told from the number of nodes,
/// and no other number has an order.
pub proof fn law_order_follows_from_nodes(num_dof: int, k: int)
    requires
        1 <= k <= 3,
    ensures
        simplex_order(2, num_dof) == k <==> 2 * num_dof == (k + 1) * (k + 2),
        simplex_order(3, num_dof) == k <==> 6 * num_dof == (k + 1) * (k + 2) * (k + 3),
        0 <= simplex_order(2, num_dof) <= 3,
        0 <= simplex_order(3, num_dof) <= 3,
{
    assert((k + 1) * (k + 2) == k * k + 3 * k + 2) by (nonlinear_arith);
    assert((k + 1) * (k + 2) * (k + 3) == k * k * k + 6 * (k * k) + 11 * k + 6)
        by (nonlinear_arith);
    if k == 1 {
        assert(k * k == 1 && k * k * k == 1);
    } else if k == 2 {
        assert(k * k == 4 && k * k * k == 8);
    } else {
        assert(k * k == 9 && k * k * k == 27);
    }
}

/// The faces of a simplex basis are integrated by the rule of the order of the basis.
pub proof fn law_faces_use_the_order<T: Scalar>(
    topo: ElemTopology,
    poly: usize,
    ncomp: usize,
    q: usize,
)
    requires
        topo == ElemTopology::Triangle || topo == ElemTopology::Tet,
        1 <= poly <= 3,
    ensures
        ({
            let s = simplex_view::<T>(topo, poly, ncomp, q).shape;
            simplex_order(s.dim as int, s.num_dof as int) == poly
        }),
{
}

} // verus!
