//! The map from the cube to the pyramid, as the points, weights and gradients of the basis show it.

use vstd::prelude::*;

use crate::basis::BasisTrait;
#[allow(unused_imports)]
use crate::cpu::basis_lagrange::{lagrange_view, rule_points, rule_weights};
#[allow(unused_imports)]
use crate::cpu::basis_pyramid::{half_depth, hex_coordinate, point_data, pyramid_view, PyramidBasis};
#[allow(unused_imports)]
use crate::cpu::convert::{exact_storage, kept, stored, widened_all};
#[allow(unused_imports)]
use crate::cpu::lagrange_tables::{tensor_points, tensor_weights};
#[allow(unused_imports)]
use crate::cpu::product_laws::{pyramid_gradients, triplewise};
#[allow(unused_imports)]
use crate::cpu::reproduction_laws::{kept_values, power_slope, power_slopes, powers, to_power};
#[allow(unused_imports)]
use crate::enums::QuadMode;
#[allow(unused_imports)]
use crate::exact::{
    exact_integers, lemma_int_nonzero, lemma_int_plus, lemma_int_units, lemma_minus_zero,
    lemma_quotient, recip,
};
#[allow(unused_imports)]
use crate::index::{lemma_mul_le, lemma_split};
use crate::scalar::{Real, Scalar};
#[allow(unused_imports)]
use crate::scalar::{
    exact_field, exact_ring, lemma_distribute, lemma_over, lemma_times_assoc, lemma_times_comm,
    lemma_times_one, ratio_val,
};

verus! {

/// The point of the cube that goes to point `i` of the pyramid.
pub open spec fn cube_point<R: Real>(qmode: QuadMode, q: int, i: int) -> (R, R, R) {
    let x = rule_points::<R>(qmode, q);
    (x[i % q], x[i / q % q], x[i / q / q])
}

/// The weight of that point.
pub open spec fn cube_weight<R: Real>(qmode: QuadMode, q: int, i: int) -> R {
    let w = rule_weights::<R>(qmode, q);
    w[i % q].times(w[i / q % q]).times(w[i / q / q])
}

/// The coordinates and the weight that the cube stores.
proof fn lemma_cube<T: Scalar>(p: usize, q: usize, qmode: QuadMode, i: int)
    requires
        exact_storage::<T>(),
        1 <= q,
        0 <= i < q * q * q,
    ensures
        ({
            let hex = lagrange_view::<T>(3, 1, p, q, qmode);
            let c = cube_point::<T::Work>(qmode, q as int, i);
            &&& hex_coordinate(hex, i, 0) == c.0
            &&& hex_coordinate(hex, i, 1) == c.1
            &&& hex_coordinate(hex, i, 2) == c.2
            &&& hex.weights[i].widened() == cube_weight::<T::Work>(qmode, q as int, i)
        }),
{
    reveal(exact_storage);
    let n = q as int;
    let hex = lagrange_view::<T>(3, 1, p, q, qmode);
    let (x, w) = (
        tensor_points(rule_points::<T::Work>(qmode, n), n * n * n, 3),
        tensor_weights(rule_weights::<T::Work>(qmode, n), n * n * n, 3),
    );
    lemma_split(i, n * n, n);
    lemma_split(i / n, n, n);
    assert(hex.q_ref == stored::<T>(x));
    assert(hex.weights == stored::<T>(w));
    assert(hex.q_ref[i * 3] == kept::<T>(x[i * 3]));
    assert(hex.q_ref[i * 3 + 1] == kept::<T>(x[i * 3 + 1]));
    assert(hex.q_ref[i * 3 + 2] == kept::<T>(x[i * 3 + 2]));
    assert(hex.weights[i] == kept::<T>(w[i]));
}

/// Twice one half of a number.
pub(crate) proof fn lemma_two_halves<R: Real>(a: R)
    requires
        exact_field::<R>(),
        exact_integers::<R>(),
    ensures
        ratio_val::<R>(1, 2).times(a).plus(ratio_val::<R>(1, 2).times(a)) == a,
{
    let h = ratio_val::<R>(1, 2);
    lemma_over(a, a);
    lemma_int_units::<R>();
    lemma_int_plus::<R>(1, 1);
    lemma_int_nonzero::<R>(2);
    lemma_quotient(R::one_val(), R::int_val(2));
    // h + h == h (1 + 1) == h 2 == 1
    lemma_distribute(h, R::one_val(), R::one_val());
    lemma_times_one(h);
    lemma_distribute(a, h, h);
    lemma_times_comm(a, h);
    lemma_times_comm(a, h.plus(h));
    lemma_times_one(a);
}

/// The pyramid is the image of the cube under `x = ξ (1 − ζ) / 2`, `y = η (1 − ζ) / 2`, `z = ζ`:
/// the reported coordinates are those of the image, and the weights carry the Jacobian determinant
/// `((1 − ζ) / 2)²`.
pub proof fn law_pyramid_points<T: Scalar>(
    b: PyramidBasis<T>,
    p: usize,
    q: usize,
    qmode: QuadMode,
    ncomp: usize,
    i: int,
)
    requires
        exact_field::<T::Work>(),
        exact_integers::<T::Work>(),
        exact_storage::<T>(),
        1 <= q,
        b@ == pyramid_view::<T>(p, q, qmode, ncomp),
        0 <= i < q * q * q,
    ensures
        ({
            let (x, w) = (
                widened_all::<T>(b.point_values()),
                widened_all::<T>(b.weight_values()),
            );
            let c = cube_point::<T::Work>(qmode, q as int, i);
            let s = <T::Work as Real>::one_val().minus(c.2);
            &&& x[3 * i].plus(x[3 * i]) == c.0.times(s)
            &&& x[3 * i + 1].plus(x[3 * i + 1]) == c.1.times(s)
            &&& x[3 * i + 2] == c.2
            &&& w[i].plus(w[i]).plus(w[i].plus(w[i])) == cube_weight::<T::Work>(
                qmode,
                q as int,
                i,
            ).times(s.times(s))
        }),
{
    let n = q as int;
    let one = <T::Work as Real>::one_val();
    lemma_over(one, one);
    lemma_mul_le(0, n, 0, n);
    lemma_mul_le(0, n * n, 0, n);
    lemma_cube::<T>(p, q, qmode, i);
    let hex = lagrange_view::<T>(3, 1, p, q, qmode);
    let c = cube_point::<T::Work>(qmode, n, i);
    let s = one.minus(c.2);
    let h = half_depth(hex, i);
    let data = point_data(hex, i);
    assert(h == ratio_val::<T::Work>(1, 2).times(s));
    let (x, w) = (b.point_values(), b.weight_values());
    assert(x[3 * i] == kept::<T>(data[0]));
    assert(x[3 * i + 1] == kept::<T>(data[1]));
    assert(x[3 * i + 2] == kept::<T>(data[2]));
    assert(w[i] == kept::<T>(data[3]));
    assert(x[3 * i].widened() == data[0] && x[3 * i + 1].widened() == data[1] && x[3 * i
        + 2].widened() == data[2] && w[i].widened() == data[3]) by {
        reveal(exact_storage);
    }
    lemma_two_halves(s);
    lemma_distribute(c.0, h, h);
    lemma_distribute(c.1, h, h);
    // v h h four times is v (h + h) (h + h)
    let v = cube_weight::<T::Work>(qmode, n, i);
    let u = v.times(h.times(h));
    lemma_distribute(h, h, h);
    lemma_distribute(v, h.times(h), h.times(h));
    lemma_distribute(v, h.times(s), h.times(s));
    lemma_distribute(s, h, h);
    lemma_times_comm(s, h);
}

/// Gradients on the pyramid follow the chain rule through that map: with the derivatives of the
/// monomial with exponents `a`, `b`, `c` along the axes of the cube on one side and the gradient
/// `g` that the law of exactness gives on the other, `∂/∂ξ = (1 − ζ)/2 g_x`,
/// `∂/∂η = (1 − ζ)/2 g_y` and `∂/∂ζ = g_z − ξ/2 g_x − η/2 g_y`.
pub proof fn law_pyramid_gradient_follows_chain_rule<T: Scalar>(
    p: usize,
    q: usize,
    qmode: QuadMode,
    i: int,
    a: int,
    b: int,
    c: int,
)
    requires
        exact_field::<T::Work>(),
        exact_integers::<T::Work>(),
        exact_storage::<T>(),
        1 <= q,
        0 <= i < q * q * q,
        cube_point::<T::Work>(qmode, q as int, i).2 != <T::Work as Real>::one_val(),
    ensures
        ({
            let points = rule_points::<T::Work>(qmode, q as int);
            let g = pyramid_gradients(
                lagrange_view::<T>(3, 1, p, q, qmode),
                kept_values::<T>(powers(points, a)),
                kept_values::<T>(powers(points, b)),
                kept_values::<T>(powers(points, c)),
                kept_values::<T>(power_slopes(points, a)),
                kept_values::<T>(power_slopes(points, b)),
                kept_values::<T>(power_slopes(points, c)),
            );
            let (x, y, z) = cube_point::<T::Work>(qmode, q as int, i);
            let s = <T::Work as Real>::one_val().minus(z);
            let dx = to_power(z, c).times(to_power(y, b)).times(power_slope(x, a));
            let dy = to_power(z, c).times(power_slope(y, b)).times(to_power(x, a));
            let dz = power_slope(z, c).times(to_power(y, b)).times(to_power(x, a));
            let (gx, gy, gz) = (g(i, 0).widened(), g(i, 1).widened(), g(i, 2).widened());
            &&& s.times(gx) == dx.plus(dx)
            &&& s.times(gy) == dy.plus(dy)
            &&& gz.plus(gz) == x.times(gx).plus(y.times(gy)).plus(dz.plus(dz))
        }),
{
    let n = q as int;
    let one = <T::Work as Real>::one_val();
    lemma_over(one, one);
    lemma_int_units::<T::Work>();
    lemma_int_plus::<T::Work>(1, 1);
    lemma_cube::<T>(p, q, qmode, i);
    lemma_split(i, n * n, n);
    lemma_split(i / n, n, n);
    let hex = lagrange_view::<T>(3, 1, p, q, qmode);
    let points = rule_points::<T::Work>(qmode, n);
    let (gx, gy, gz) = (
        kept_values::<T>(powers(points, a)),
        kept_values::<T>(powers(points, b)),
        kept_values::<T>(powers(points, c)),
    );
    let (hx, hy, hz) = (
        kept_values::<T>(power_slopes(points, a)),
        kept_values::<T>(power_slopes(points, b)),
        kept_values::<T>(power_slopes(points, c)),
    );
    let g = pyramid_gradients(hex, gx, gy, gz, hx, hy, hz);
    let (x, y, z) = cube_point::<T::Work>(qmode, n, i);
    let s = one.minus(z);
    let dx = to_power(z, c).times(to_power(y, b)).times(power_slope(x, a));
    let dy = to_power(z, c).times(power_slope(y, b)).times(to_power(x, a));
    let dz = power_slope(z, c).times(to_power(y, b)).times(to_power(x, a));
    let two = <T::Work as Real>::int_val(2);
    let t = two.over(s);
    let (u, v) = (x.over(s), y.over(s));
    let data = point_data(hex, i);
    assert(data[4] == t && data[5] == t && data[6] == u && data[7] == v);
    lemma_stored_product::<T>(to_power(z, c), to_power(y, b), power_slope(x, a));
    lemma_stored_product::<T>(to_power(z, c), power_slope(y, b), to_power(x, a));
    lemma_stored_product::<T>(power_slope(z, c), to_power(y, b), to_power(x, a));
    assert(triplewise(n, hx, gy, gz)(i) == kept::<T>(dx));
    assert(triplewise(n, gx, hy, gz)(i) == kept::<T>(dy));
    assert(triplewise(n, gx, gy, hz)(i) == kept::<T>(dz));
    let (ex, ey) = (t.times(dx), t.times(dy));
    let ez = u.times(dx).plus(v.times(dy)).plus(dz);
    assert(g(i, 0).widened() == ex && g(i, 1).widened() == ey && g(i, 2).widened() == ez) by {
        reveal(exact_storage);
        assert(g(i, 0) == kept::<T>(ex));
        assert(g(i, 1) == kept::<T>(ey));
        assert(g(i, 2) == kept::<T>(u.times(dx)).plus(kept::<T>(v.times(dy))).plus(kept::<T>(dz)));
        assert(g(i, 2) == kept::<T>(ez));
    }
    lemma_minus_zero(one, z);
    // s t == 2
    lemma_quotient(two, s);
    lemma_times_comm(s, t);
    lemma_times_assoc(s, t, dx);
    lemma_times_assoc(s, t, dy);
    lemma_double(dx);
    lemma_double(dy);
    lemma_double(dz);
    lemma_double(ez);
    // 2 u == x t, 2 v == y t
    lemma_moved(x, s, dx);
    lemma_moved(y, s, dy);
    lemma_distribute(two, u.times(dx).plus(v.times(dy)), dz);
    lemma_distribute(two, u.times(dx), v.times(dy));
}

/// The stored factors of a product.
proof fn lemma_stored_product<T: Scalar>(a: T::Work, b: T::Work, c: T::Work)
    requires
        exact_storage::<T>(),
    ensures
        kept::<T>(a).times(kept::<T>(b)).times(kept::<T>(c)) == kept::<T>(a.times(b).times(c)),
{
    reveal(exact_storage);
    assert(kept::<T>(a.times(b)) == kept::<T>(a).times(kept::<T>(b)));
}

/// Twice a number.
proof fn lemma_double<R: Real>(a: R)
    requires
        exact_ring::<R>(),
        exact_integers::<R>(),
    ensures
        R::int_val(2).times(a) == a.plus(a),
{
    lemma_int_units::<R>();
    lemma_int_plus::<R>(1, 1);
    lemma_distribute(a, R::one_val(), R::one_val());
    lemma_times_one(a);
    lemma_times_comm(a, R::int_val(2));
}

/// `2 ((x / s) d) == x ((2 / s) d)`.
proof fn lemma_moved<R: Real>(x: R, s: R, d: R)
    requires
        exact_field::<R>(),
    ensures
        R::int_val(2).times(x.over(s).times(d)) == x.times(R::int_val(2).over(s).times(d)),
{
    let (two, r) = (R::int_val(2), recip(s));
    lemma_over(x, s);
    lemma_over(two, s);
    lemma_times_assoc(x, r, d);
    lemma_times_assoc(two, x, r.times(d));
    lemma_times_comm(two, x);
    lemma_times_assoc(two, r, d);
    lemma_times_assoc(x, two, r.times(d));
}

} // verus!
