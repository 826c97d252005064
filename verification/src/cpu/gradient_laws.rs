//! The gradients of the linear and quadratic shape functions, and the values of the linear ones,
//! reproduce polynomials in exact arithmetic.
//!
//! All of them are linear functions with integer coefficients, and the monomials at the nodes are
//! quarters of integers, so that a sum over the nodes is a matter of integers.

use vstd::prelude::*;

#[allow(unused_imports)]
use crate::cpu::quadratic_laws::{
    half, lemma_half, tet_quadratic_x, tet_quadratic_y, tet_quadratic_z, tri_quadratic_x,
    tri_quadratic_y,
};
#[allow(unused_imports)]
use crate::cpu::simplex_shapes::{
    line_p1_slopes, line_p1_values, line_p2_slopes, tet_p1_slopes, tet_p1_values, tet_p2_slopes,
    tri_p1_slopes, tri_p1_values, tri_p2_slopes,
};
#[allow(unused_imports)]
use crate::exact::{
    exact_integers, lemma_distribute_minus, lemma_int_negated, lemma_int_nonzero, lemma_int_plus,
    lemma_int_times, lemma_int_units, lemma_quotient, lemma_recip, lemma_times_cross, recip,
};
use crate::scalar::Real;
#[allow(unused_imports)]
use crate::scalar::{
    exact_field, exact_ring, lemma_distribute, lemma_minus, lemma_negated, lemma_over,
    lemma_plus_assoc, lemma_plus_comm, lemma_plus_cross, lemma_plus_zero, lemma_times_assoc,
    lemma_times_comm, lemma_times_negated, lemma_times_one, lemma_times_zero, ratio_val, sum,
};

verus! {

// ── linear functions with integer coefficients ──────────────────────────────

/// Integer coefficients of a constant and of three coordinates.
pub struct Affine {
    pub one: int,
    pub x: int,
    pub y: int,
    pub z: int,
}

impl Affine {
    /// The value at a point.
    pub open spec fn at<R: Real>(self, x: R, y: R, z: R) -> R {
        R::int_val(self.one).plus(R::int_val(self.x).times(x)).plus(
            R::int_val(self.y).times(y).plus(R::int_val(self.z).times(z)),
        )
    }

    pub open spec fn plus(self, b: Affine) -> Affine {
        Affine { one: self.one + b.one, x: self.x + b.x, y: self.y + b.y, z: self.z + b.z }
    }

    pub open spec fn minus(self, b: Affine) -> Affine {
        Affine { one: self.one - b.one, x: self.x - b.x, y: self.y - b.y, z: self.z - b.z }
    }

    pub open spec fn scaled(self, c: int) -> Affine {
        Affine { one: c * self.one, x: c * self.x, y: c * self.y, z: c * self.z }
    }
}

/// Coefficients as a value.
pub open spec fn aff(one: int, x: int, y: int, z: int) -> Affine {
    Affine { one, x, y, z }
}

proof fn lemma_affine_plus<R: Real>(a: Affine, b: Affine, x: R, y: R, z: R)
    requires
        exact_ring::<R>(),
        exact_integers::<R>(),
    ensures
        a.at(x, y, z).plus(b.at(x, y, z)) == a.plus(b).at(x, y, z),
{
    let (a0, a1, a2, a3) = (
        R::int_val(a.one),
        R::int_val(a.x).times(x),
        R::int_val(a.y).times(y),
        R::int_val(a.z).times(z),
    );
    let (b0, b1, b2, b3) = (
        R::int_val(b.one),
        R::int_val(b.x).times(x),
        R::int_val(b.y).times(y),
        R::int_val(b.z).times(z),
    );
    lemma_plus_cross(a0.plus(a1), a2.plus(a3), b0.plus(b1), b2.plus(b3));
    lemma_plus_cross(a0, a1, b0, b1);
    lemma_plus_cross(a2, a3, b2, b3);
    lemma_int_plus::<R>(a.one, b.one);
    lemma_coefficient_plus(a.x, b.x, x);
    lemma_coefficient_plus(a.y, b.y, y);
    lemma_coefficient_plus(a.z, b.z, z);
}

proof fn lemma_coefficient_plus<R: Real>(a: int, b: int, x: R)
    requires
        exact_ring::<R>(),
        exact_integers::<R>(),
    ensures
        R::int_val(a).times(x).plus(R::int_val(b).times(x)) == R::int_val(a + b).times(x),
{
    let (p, q) = (R::int_val(a), R::int_val(b));
    lemma_int_plus::<R>(a, b);
    lemma_times_comm(p, x);
    lemma_times_comm(q, x);
    lemma_distribute(x, p, q);
    lemma_times_comm(x, p.plus(q));
}

pub proof fn lemma_affine_scaled<R: Real>(c: int, a: Affine, x: R, y: R, z: R)
    requires
        exact_ring::<R>(),
        exact_integers::<R>(),
    ensures
        R::int_val(c).times(a.at(x, y, z)) == a.scaled(c).at(x, y, z),
{
    let k = R::int_val(c);
    let (a0, a1, a2, a3) = (
        R::int_val(a.one),
        R::int_val(a.x).times(x),
        R::int_val(a.y).times(y),
        R::int_val(a.z).times(z),
    );
    lemma_distribute(k, a0.plus(a1), a2.plus(a3));
    lemma_distribute(k, a0, a1);
    lemma_distribute(k, a2, a3);
    lemma_int_times::<R>(c, a.one);
    lemma_int_times::<R>(c, a.x);
    lemma_int_times::<R>(c, a.y);
    lemma_int_times::<R>(c, a.z);
    lemma_times_assoc(k, R::int_val(a.x), x);
    lemma_times_assoc(k, R::int_val(a.y), y);
    lemma_times_assoc(k, R::int_val(a.z), z);
}

proof fn lemma_affine_minus<R: Real>(a: Affine, b: Affine, x: R, y: R, z: R)
    requires
        exact_ring::<R>(),
        exact_integers::<R>(),
    ensures
        a.at(x, y, z).minus(b.at(x, y, z)) == a.minus(b).at(x, y, z),
{
    let (p, q, r) = (a.at(x, y, z), b.at(x, y, z), a.minus(b).at(x, y, z));
    lemma_affine_plus(a.minus(b), b, x, y, z);
    assert(a.minus(b).plus(b) == a);
    lemma_minus(p, q);
    lemma_plus_assoc(r, q, q.negated());
    lemma_negated(q);
    lemma_plus_zero(r);
}

proof fn lemma_affine_negated<R: Real>(a: Affine, x: R, y: R, z: R)
    requires
        exact_ring::<R>(),
        exact_integers::<R>(),
    ensures
        a.at(x, y, z).negated() == a.scaled(-1).at(x, y, z),
{
    let p = a.at(x, y, z);
    lemma_affine_scaled(-1, a, x, y, z);
    lemma_int_units::<R>();
    lemma_int_negated::<R>(1);
    lemma_times_comm(R::int_val(-1), p);
    lemma_times_negated(p, R::one_val());
    lemma_times_one(p);
}

/// Constants and coordinates.
pub proof fn lemma_affine_units<R: Real>(c: int, x: R, y: R, z: R)
    requires
        exact_ring::<R>(),
        exact_integers::<R>(),
    ensures
        aff(c, 0, 0, 0).at(x, y, z) == R::int_val(c),
        aff(0, 1, 0, 0).at(x, y, z) == x,
        aff(0, 0, 1, 0).at(x, y, z) == y,
        aff(0, 0, 0, 1).at(x, y, z) == z,
        aff(0, 0, 0, 0).at(x, y, z) == R::zero_val(),
        aff(1, 0, 0, 0).at(x, y, z) == R::one_val(),
{
    let zero = R::zero_val();
    lemma_int_units::<R>();
    lemma_times_zero(x);
    lemma_times_zero(y);
    lemma_times_zero(z);
    lemma_times_comm(x, zero);
    lemma_times_comm(y, zero);
    lemma_times_comm(z, zero);
    lemma_times_one(x);
    lemma_times_one(y);
    lemma_times_one(z);
    lemma_times_comm(x, R::one_val());
    lemma_times_comm(y, R::one_val());
    lemma_times_comm(z, R::one_val());
    lemma_plus_zero(zero);
    lemma_plus_zero(R::int_val(c));
    lemma_plus_zero(R::one_val());
    lemma_plus_zero(x);
    lemma_plus_zero(y);
    lemma_plus_zero(z);
    lemma_plus_comm(zero, x);
    lemma_plus_comm(zero, y);
    lemma_plus_comm(zero, z);
}

// ── sums over nodes ─────────────────────────────────────────────────────────

/// The product with a sample, spelled out.
spec fn picked(a: Affine, s: int) -> Affine {
    if s == 0 {
        aff(0, 0, 0, 0)
    } else if s == 1 {
        a
    } else if s == 2 {
        aff(2 * a.one, 2 * a.x, 2 * a.y, 2 * a.z)
    } else if s == 4 {
        aff(4 * a.one, 4 * a.x, 4 * a.y, 4 * a.z)
    } else {
        a.scaled(s)
    }
}

proof fn lemma_picked(a: Affine, s: int)
    ensures
        picked(a, s) == a.scaled(s),
{
    lemma_picked_part(a.one, s);
    lemma_picked_part(a.x, s);
    lemma_picked_part(a.y, s);
    lemma_picked_part(a.z, s);
}

proof fn lemma_picked_part(a: int, s: int)
    by (nonlinear_arith)
    ensures
        s == 0 ==> s * a == 0,
        s == 1 ==> s * a == a,
        s == 2 ==> s * a == 2 * a,
        s == 4 ==> s * a == 4 * a,
{
}

/// Sums of coefficients.
spec fn affine_sum(n: int, f: spec_fn(int) -> Affine) -> Affine
    decreases n,
{
    if n <= 0 {
        aff(0, 0, 0, 0)
    } else {
        affine_sum(n - 1, f).plus(f(n - 1))
    }
}

/// Functions times samples.
pub open spec fn sampled<R: Real>(f: spec_fn(int) -> R, s: spec_fn(int) -> R) -> spec_fn(int) -> R {
    |k: int| f(k).times(s(k))
}

/// A sum of linear functions times quarters of integers.
proof fn lemma_affine_sum<R: Real>(
    n: int,
    f: spec_fn(int) -> R,
    a: spec_fn(int) -> Affine,
    s: spec_fn(int) -> R,
    c: spec_fn(int) -> int,
    x: R,
    y: R,
    z: R,
)
    requires
        exact_ring::<R>(),
        exact_integers::<R>(),
        forall|k: int| 0 <= k < n ==> #[trigger] f(k) == a(k).at(x, y, z),
        forall|k: int| 0 <= k < n ==> R::int_val(4).times(#[trigger] s(k)) == R::int_val(c(k)),
    ensures
        R::int_val(4).times(sum(n, sampled(f, s))) == affine_sum(
            n,
            |k: int| picked(a(k), c(k)),
        ).at(x, y, z),
    decreases n,
{
    let four = R::int_val(4);
    let g = |k: int| picked(a(k), c(k));
    if n <= 0 {
        lemma_affine_units(0, x, y, z);
        lemma_times_zero(four);
    } else {
        lemma_affine_sum(n - 1, f, a, s, c, x, y, z);
        let (t, v, w) = (sum(n - 1, sampled(f, s)), f(n - 1), s(n - 1));
        lemma_distribute(four, t, v.times(w));
        lemma_times_comm(v, w);
        lemma_times_assoc(four, w, v);
        lemma_affine_scaled(c(n - 1), a(n - 1), x, y, z);
        lemma_picked(a(n - 1), c(n - 1));
        lemma_affine_plus(affine_sum(n - 1, g), g(n - 1), x, y, z);
    }
}

/// A number is known from its quadruple.
proof fn lemma_quarter<R: Real>(v: R, w: R)
    requires
        exact_field::<R>(),
        exact_integers::<R>(),
        R::int_val(4).times(v) == R::int_val(4).times(w),
    ensures
        v == w,
{
    lemma_over(R::one_val(), R::one_val());
    let four = R::int_val(4);
    lemma_int_nonzero::<R>(4);
    lemma_recip(four);
    let r = recip(four);
    lemma_times_comm(four, r);
    lemma_times_assoc(r, four, v);
    lemma_times_assoc(r, four, w);
    lemma_times_one(v);
    lemma_times_one(w);
    lemma_times_comm(v, R::one_val());
    lemma_times_comm(w, R::one_val());
}

// ── nodes and monomials ─────────────────────────────────────────────────────

/// Exponents of monomial `t` of degree at most two in `dim` coordinates.
pub open spec fn exponents(dim: int, t: int) -> (int, int, int) {
    if t == 0 {
        (0, 0, 0)
    } else if t == 1 {
        (1, 0, 0)
    } else if dim == 1 {
        (2, 0, 0)
    } else if t == 2 {
        (0, 1, 0)
    } else if dim == 2 {
        if t == 3 {
            (2, 0, 0)
        } else if t == 4 {
            (1, 1, 0)
        } else {
            (0, 2, 0)
        }
    } else if t == 3 {
        (0, 0, 1)
    } else if t == 4 {
        (2, 0, 0)
    } else if t == 5 {
        (1, 1, 0)
    } else if t == 6 {
        (1, 0, 1)
    } else if t == 7 {
        (0, 2, 0)
    } else if t == 8 {
        (0, 1, 1)
    } else {
        (0, 0, 2)
    }
}

/// A monomial of degree at most two.
pub open spec fn low_monomial<R: Real>(e: (int, int, int), x: R, y: R, z: R) -> R {
    if e.0 == 2 {
        x.times(x)
    } else if e.1 == 2 {
        y.times(y)
    } else if e.2 == 2 {
        z.times(z)
    } else if e.0 == 1 && e.1 == 1 {
        x.times(y)
    } else if e.0 == 1 && e.2 == 1 {
        x.times(z)
    } else if e.1 == 1 && e.2 == 1 {
        y.times(z)
    } else if e.0 == 1 {
        x
    } else if e.1 == 1 {
        y
    } else if e.2 == 1 {
        z
    } else {
        R::one_val()
    }
}

/// The derivative of such a monomial along axis `d`.
pub open spec fn low_slope<R: Real>(e: (int, int, int), x: R, y: R, z: R, d: int) -> R {
    slope_coefficients(e, d).at(x, y, z)
}

/// Coefficients of that derivative.
pub open spec fn slope_coefficients(e: (int, int, int), d: int) -> Affine {
    if d == 0 {
        if e.0 == 2 {
            Affine { one: 0, x: 2, y: 0, z: 0 }
        } else if e.0 == 1 {
            Affine {
                one: if e.1 == 0 && e.2 == 0 {
                    1
                } else {
                    0
                },
                x: 0,
                y: e.1,
                z: e.2,
            }
        } else {
            Affine { one: 0, x: 0, y: 0, z: 0 }
        }
    } else if d == 1 {
        if e.1 == 2 {
            Affine { one: 0, x: 0, y: 2, z: 0 }
        } else if e.1 == 1 {
            Affine {
                one: if e.0 == 0 && e.2 == 0 {
                    1
                } else {
                    0
                },
                x: e.0,
                y: 0,
                z: e.2,
            }
        } else {
            Affine { one: 0, x: 0, y: 0, z: 0 }
        }
    } else if e.2 == 2 {
        Affine { one: 0, x: 0, y: 0, z: 2 }
    } else if e.2 == 1 {
        Affine {
            one: if e.0 == 0 && e.1 == 0 {
                1
            } else {
                0
            },
            x: e.0,
            y: e.1,
            z: 0,
        }
    } else {
        Affine { one: 0, x: 0, y: 0, z: 0 }
    }
}

/// Four times a monomial at a point with the given doubled coordinates.
spec fn quadrupled(e: (int, int, int), n: (int, int, int)) -> int {
    if e.0 == 2 {
        squared(n.0, n.0)
    } else if e.1 == 2 {
        squared(n.1, n.1)
    } else if e.2 == 2 {
        squared(n.2, n.2)
    } else if e.0 == 1 && e.1 == 1 {
        squared(n.0, n.1)
    } else if e.0 == 1 && e.2 == 1 {
        squared(n.0, n.2)
    } else if e.1 == 1 && e.2 == 1 {
        squared(n.1, n.2)
    } else if e.0 == 1 {
        2 * n.0
    } else if e.1 == 1 {
        2 * n.1
    } else if e.2 == 1 {
        2 * n.2
    } else {
        4
    }
}

/// `a * b`, spelled out for small `a`.
spec fn squared(a: int, b: int) -> int {
    if a == 0 {
        0
    } else if a == 1 {
        b
    } else if a == 2 {
        2 * b
    } else {
        a * b
    }
}

/// Four times a monomial.
proof fn lemma_quadrupled<R: Real>(e: (int, int, int), n: (int, int, int), x: R, y: R, z: R)
    requires
        exact_ring::<R>(),
        exact_integers::<R>(),
        R::int_val(2).times(x) == R::int_val(n.0),
        R::int_val(2).times(y) == R::int_val(n.1),
        R::int_val(2).times(z) == R::int_val(n.2),
    ensures
        R::int_val(4).times(low_monomial(e, x, y, z)) == R::int_val(quadrupled(e, n)),
{
    lemma_doubled_product(n.0, n.0, x, x);
    lemma_doubled_product(n.1, n.1, y, y);
    lemma_doubled_product(n.2, n.2, z, z);
    lemma_doubled_product(n.0, n.1, x, y);
    lemma_doubled_product(n.0, n.2, x, z);
    lemma_doubled_product(n.1, n.2, y, z);
    lemma_int_units::<R>();
    lemma_times_one(R::int_val(4));
}

proof fn lemma_doubled_product<R: Real>(a: int, b: int, x: R, y: R)
    requires
        exact_ring::<R>(),
        exact_integers::<R>(),
        R::int_val(2).times(x) == R::int_val(a),
        R::int_val(2).times(y) == R::int_val(b),
    ensures
        R::int_val(4).times(x.times(y)) == R::int_val(squared(a, b)),
        R::int_val(4).times(x) == R::int_val(2 * a),
        R::int_val(4).times(y) == R::int_val(2 * b),
{
    let two = R::int_val(2);
    lemma_int_times::<R>(2, 2);
    lemma_times_cross(two, two, x, y);
    lemma_int_times::<R>(a, b);
    assert(squared(a, b) == a * b) by (nonlinear_arith);
    lemma_times_assoc(two, two, x);
    lemma_times_assoc(two, two, y);
    lemma_int_times::<R>(2, a);
    lemma_int_times::<R>(2, b);
}

/// Coordinates of node `k` of the linear or quadratic basis in `dim` coordinates.
pub open spec fn low_node<R: Real>(dim: int, poly: int, k: int) -> (R, R, R) {
    let (zero, one) = (R::zero_val(), R::one_val());
    if poly == 1 {
        (
            if k == 1 {
                one
            } else {
                zero
            },
            if k == 2 {
                one
            } else {
                zero
            },
            if k == 3 {
                one
            } else {
                zero
            },
        )
    } else if dim == 1 {
        (
            if k == 0 {
                zero
            } else if k == 1 {
                half()
            } else {
                one
            },
            zero,
            zero,
        )
    } else if dim == 2 {
        (tri_quadratic_x(k), tri_quadratic_y(k), zero)
    } else {
        (tet_quadratic_x(k), tet_quadratic_y(k), tet_quadratic_z(k))
    }
}

/// Twice the coordinates of that node.
spec fn doubled_node(dim: int, poly: int, k: int) -> (int, int, int) {
    if poly == 1 {
        (
            if k == 1 {
                2
            } else {
                0
            },
            if k == 2 {
                2
            } else {
                0
            },
            if k == 3 {
                2
            } else {
                0
            },
        )
    } else if dim == 1 {
        (k, 0, 0)
    } else if dim == 2 {
        (
            if k == 1 {
                2
            } else if k == 3 || k == 4 {
                1
            } else {
                0
            },
            if k == 2 {
                2
            } else if k == 4 || k == 5 {
                1
            } else {
                0
            },
            0,
        )
    } else {
        (
            if k == 1 {
                2
            } else if k == 4 || k == 5 || k == 8 {
                1
            } else {
                0
            },
            if k == 2 {
                2
            } else if k == 5 || k == 6 || k == 9 {
                1
            } else {
                0
            },
            if k == 3 {
                2
            } else if k == 7 || k == 8 || k == 9 {
                1
            } else {
                0
            },
        )
    }
}

proof fn lemma_doubled_node<R: Real>(dim: int, poly: int, k: int)
    requires
        exact_field::<R>(),
        exact_integers::<R>(),
        dim == 1 && poly != 1 ==> 0 <= k <= 2,
    ensures
        ({
            let (c, n) = (low_node::<R>(dim, poly, k), doubled_node(dim, poly, k));
            &&& R::int_val(2).times(c.0) == R::int_val(n.0)
            &&& R::int_val(2).times(c.1) == R::int_val(n.1)
            &&& R::int_val(2).times(c.2) == R::int_val(n.2)
        }),
{
    lemma_over(R::one_val(), R::one_val());
    let two = R::int_val(2);
    lemma_int_units::<R>();
    lemma_times_zero(two);
    lemma_times_one(two);
    lemma_half::<R>();
}

/// Monomial `t` at the nodes.
pub open spec fn low_samples<R: Real>(dim: int, poly: int, t: int) -> spec_fn(int) -> R {
    |k: int|
        {
            let c = low_node::<R>(dim, poly, k);
            low_monomial(exponents(dim, t), c.0, c.1, c.2)
        }
}

/// Four times that.
spec fn quadrupled_samples(dim: int, poly: int, t: int) -> spec_fn(int) -> int {
    |k: int| quadrupled(exponents(dim, t), doubled_node(dim, poly, k))
}

/// Where the coefficients of linear functions, summed over the nodes, give those of another one,
/// the functions themselves give it.
proof fn lemma_low_sum<R: Real>(
    dim: int,
    poly: int,
    n: int,
    t: int,
    f: spec_fn(int) -> R,
    a: spec_fn(int) -> Affine,
    goal: Affine,
    x: R,
    y: R,
    z: R,
)
    requires
        exact_field::<R>(),
        exact_integers::<R>(),
        dim == 1 && poly != 1 ==> n <= 3,
        forall|k: int| 0 <= k < n ==> #[trigger] f(k) == a(k).at(x, y, z),
        affine_sum(n, |k: int| picked(a(k), quadrupled_samples(dim, poly, t)(k))) == aff(
            4 * goal.one,
            4 * goal.x,
            4 * goal.y,
            4 * goal.z,
        ),
    ensures
        sum(n, sampled(f, low_samples::<R>(dim, poly, t))) == goal.at(x, y, z),
{
    lemma_over(R::one_val(), R::one_val());
    let (s, c) = (low_samples::<R>(dim, poly, t), quadrupled_samples(dim, poly, t));
    assert forall|k: int| 0 <= k < n implies R::int_val(4).times(#[trigger] s(k)) == R::int_val(
        c(k),
    ) by {
        lemma_doubled_node::<R>(dim, poly, k);
        let p = low_node::<R>(dim, poly, k);
        lemma_quadrupled(exponents(dim, t), doubled_node(dim, poly, k), p.0, p.1, p.2);
    }
    lemma_affine_sum(n, f, a, s, c, x, y, z);
    lemma_affine_scaled(4, goal, x, y, z);
    lemma_quarter(sum(n, sampled(f, s)), goal.at(x, y, z));
}

// ── shape functions ─────────────────────────────────────────────────────────

/// What the shape functions are at a point: the values for `d == 3`, else the derivatives along
/// axis `d`.
pub open spec fn low_functions<R: Real>(dim: int, poly: int, x: R, y: R, z: R, d: int) -> spec_fn(
    int,
) -> R {
    |k: int|
        if poly == 1 {
            if dim == 1 {
                if d == 3 {
                    line_p1_values(x)[k]
                } else {
                    line_p1_slopes(x)[k]
                }
            } else if dim == 2 {
                if d == 3 {
                    tri_p1_values(x, y)[k]
                } else {
                    tri_p1_slopes(x, y)[2 * k + d]
                }
            } else if d == 3 {
                tet_p1_values(x, y, z)[k]
            } else {
                tet_p1_slopes(x, y, z)[3 * k + d]
            }
        } else if dim == 1 {
            line_p2_slopes(x)[k]
        } else if dim == 2 {
            tri_p2_slopes(x, y)[2 * k + d]
        } else {
            tet_p2_slopes(x, y, z)[3 * k + d]
        }
}

spec fn coefficients_1_1_values() -> spec_fn(int) -> Affine {
    |k: int|
        {
            if k == 0 {
                aff(1, -1, 0, 0)
            } else {
                aff(0, 1, 0, 0)
            }
        }
}

spec fn coefficients_1_1_x() -> spec_fn(int) -> Affine {
    |k: int|
        {
            if k == 0 {
                aff(-1, 0, 0, 0)
            } else {
                aff(1, 0, 0, 0)
            }
        }
}

spec fn coefficients_1_2_x() -> spec_fn(int) -> Affine {
    |k: int|
        {
            if k == 0 {
                aff(-3, 4, 0, 0)
            } else if k == 1 {
                aff(4, -8, 0, 0)
            } else {
                aff(-1, 4, 0, 0)
            }
        }
}

spec fn coefficients_2_1_values() -> spec_fn(int) -> Affine {
    |k: int|
        {
            if k == 0 {
                aff(1, -1, -1, 0)
            } else if k == 1 {
                aff(0, 1, 0, 0)
            } else {
                aff(0, 0, 1, 0)
            }
        }
}

spec fn coefficients_2_1_x() -> spec_fn(int) -> Affine {
    |k: int|
        {
            if k == 0 {
                aff(-1, 0, 0, 0)
            } else if k == 1 {
                aff(1, 0, 0, 0)
            } else {
                aff(0, 0, 0, 0)
            }
        }
}

spec fn coefficients_2_1_y() -> spec_fn(int) -> Affine {
    |k: int|
        {
            if k == 0 {
                aff(-1, 0, 0, 0)
            } else if k == 1 {
                aff(0, 0, 0, 0)
            } else {
                aff(1, 0, 0, 0)
            }
        }
}

spec fn coefficients_2_2_x() -> spec_fn(int) -> Affine {
    |k: int|
        {
            if k == 0 {
                aff(-3, 4, 4, 0)
            } else if k == 1 {
                aff(-1, 4, 0, 0)
            } else if k == 2 {
                aff(0, 0, 0, 0)
            } else if k == 3 {
                aff(4, -8, -4, 0)
            } else if k == 4 {
                aff(0, 0, 4, 0)
            } else {
                aff(0, 0, -4, 0)
            }
        }
}

spec fn coefficients_2_2_y() -> spec_fn(int) -> Affine {
    |k: int|
        {
            if k == 0 {
                aff(-3, 4, 4, 0)
            } else if k == 1 {
                aff(0, 0, 0, 0)
            } else if k == 2 {
                aff(-1, 0, 4, 0)
            } else if k == 3 {
                aff(0, -4, 0, 0)
            } else if k == 4 {
                aff(0, 4, 0, 0)
            } else {
                aff(4, -4, -8, 0)
            }
        }
}

spec fn coefficients_3_1_values() -> spec_fn(int) -> Affine {
    |k: int|
        {
            if k == 0 {
                aff(1, -1, -1, -1)
            } else if k == 1 {
                aff(0, 1, 0, 0)
            } else if k == 2 {
                aff(0, 0, 1, 0)
            } else {
                aff(0, 0, 0, 1)
            }
        }
}

spec fn coefficients_3_1_x() -> spec_fn(int) -> Affine {
    |k: int|
        {
            if k == 0 {
                aff(-1, 0, 0, 0)
            } else if k == 1 {
                aff(1, 0, 0, 0)
            } else if k == 2 {
                aff(0, 0, 0, 0)
            } else {
                aff(0, 0, 0, 0)
            }
        }
}

spec fn coefficients_3_1_y() -> spec_fn(int) -> Affine {
    |k: int|
        {
            if k == 0 {
                aff(-1, 0, 0, 0)
            } else if k == 1 {
                aff(0, 0, 0, 0)
            } else if k == 2 {
                aff(1, 0, 0, 0)
            } else {
                aff(0, 0, 0, 0)
            }
        }
}

spec fn coefficients_3_1_z() -> spec_fn(int) -> Affine {
    |k: int|
        {
            if k == 0 {
                aff(-1, 0, 0, 0)
            } else if k == 1 {
                aff(0, 0, 0, 0)
            } else if k == 2 {
                aff(0, 0, 0, 0)
            } else {
                aff(1, 0, 0, 0)
            }
        }
}

spec fn coefficients_3_2_x() -> spec_fn(int) -> Affine {
    |k: int|
        {
            if k == 0 {
                aff(-3, 4, 4, 4)
            } else if k == 1 {
                aff(-1, 4, 0, 0)
            } else if k == 2 {
                aff(0, 0, 0, 0)
            } else if k == 3 {
                aff(0, 0, 0, 0)
            } else if k == 4 {
                aff(4, -8, -4, -4)
            } else if k == 5 {
                aff(0, 0, 4, 0)
            } else if k == 6 {
                aff(0, 0, -4, 0)
            } else if k == 7 {
                aff(0, 0, 0, -4)
            } else if k == 8 {
                aff(0, 0, 0, 4)
            } else {
                aff(0, 0, 0, 0)
            }
        }
}

spec fn coefficients_3_2_y() -> spec_fn(int) -> Affine {
    |k: int|
        {
            if k == 0 {
                aff(-3, 4, 4, 4)
            } else if k == 1 {
                aff(0, 0, 0, 0)
            } else if k == 2 {
                aff(-1, 0, 4, 0)
            } else if k == 3 {
                aff(0, 0, 0, 0)
            } else if k == 4 {
                aff(0, -4, 0, 0)
            } else if k == 5 {
                aff(0, 4, 0, 0)
            } else if k == 6 {
                aff(4, -4, -8, -4)
            } else if k == 7 {
                aff(0, 0, 0, -4)
            } else if k == 8 {
                aff(0, 0, 0, 0)
            } else {
                aff(0, 0, 0, 4)
            }
        }
}

spec fn coefficients_3_2_z() -> spec_fn(int) -> Affine {
    |k: int|
        {
            if k == 0 {
                aff(-3, 4, 4, 4)
            } else if k == 1 {
                aff(0, 0, 0, 0)
            } else if k == 2 {
                aff(0, 0, 0, 0)
            } else if k == 3 {
                aff(-1, 0, 0, 4)
            } else if k == 4 {
                aff(0, -4, 0, 0)
            } else if k == 5 {
                aff(0, 0, 0, 0)
            } else if k == 6 {
                aff(0, 0, -4, 0)
            } else if k == 7 {
                aff(4, -4, -4, -8)
            } else if k == 8 {
                aff(0, 4, 0, 0)
            } else {
                aff(0, 0, 4, 0)
            }
        }
}

/// The first barycentric coordinate.
proof fn lemma_first_coordinate<R: Real>(x: R, y: R, z: R)
    requires
        exact_ring::<R>(),
        exact_integers::<R>(),
    ensures
        R::one_val().minus(x) == aff(1, -1, 0, 0).at(x, y, z),
        R::one_val().minus(x).minus(y) == aff(1, -1, -1, 0).at(x, y, z),
        R::one_val().minus(x).minus(y).minus(z) == aff(1, -1, -1, -1).at(x, y, z),
{
    lemma_affine_units(1, x, y, z);
    lemma_affine_minus(aff(1, 0, 0, 0), aff(0, 1, 0, 0), x, y, z);
    lemma_affine_minus(aff(1, -1, 0, 0), aff(0, 0, 1, 0), x, y, z);
    lemma_affine_minus(aff(1, -1, -1, 0), aff(0, 0, 0, 1), x, y, z);
}

/// Derivatives of quadratic functions, in terms of the barycentric coordinates.
proof fn lemma_forms<R: Real>(l: Affine, v: Affine, x: R, y: R, z: R)
    requires
        exact_ring::<R>(),
        exact_integers::<R>(),
    ensures
        ({
            let (four, one) = (R::int_val(4), R::one_val());
            let (p, q) = (l.at(x, y, z), v.at(x, y, z));
            &&& four.times(p).minus(one).negated() == aff(
                1 - 4 * l.one,
                -4 * l.x,
                -4 * l.y,
                -4 * l.z,
            ).at(x, y, z)
            &&& four.times(q).minus(one) == aff(4 * v.one - 1, 4 * v.x, 4 * v.y, 4 * v.z).at(x, y, z)
            &&& four.times(p.minus(q)) == aff(
                4 * l.one - 4 * v.one,
                4 * l.x - 4 * v.x,
                4 * l.y - 4 * v.y,
                4 * l.z - 4 * v.z,
            ).at(x, y, z)
            &&& R::int_val(-4).times(q) == aff(-4 * v.one, -4 * v.x, -4 * v.y, -4 * v.z).at(x, y, z)
            &&& four.times(q) == aff(4 * v.one, 4 * v.x, 4 * v.y, 4 * v.z).at(x, y, z)
        }),
{
    let one = aff(1, 0, 0, 0);
    lemma_affine_units(1, x, y, z);
    lemma_affine_scaled(4, l, x, y, z);
    lemma_affine_minus(l.scaled(4), one, x, y, z);
    lemma_affine_negated(l.scaled(4).minus(one), x, y, z);
    assert(l.scaled(4).minus(one).scaled(-1) == aff(1 - 4 * l.one, -4 * l.x, -4 * l.y, -4 * l.z));
    lemma_affine_scaled(4, v, x, y, z);
    lemma_affine_minus(v.scaled(4), one, x, y, z);
    lemma_affine_minus(l, v, x, y, z);
    lemma_affine_scaled(4, l.minus(v), x, y, z);
    lemma_affine_scaled(-4, v, x, y, z);
}

proof fn lemma_coefficients_1_1_values<R: Real>(x: R, y: R, z: R, k: int)
    requires
        exact_field::<R>(),
        exact_integers::<R>(),
        0 <= k < 2,
    ensures
        low_functions(1, 1, x, y, z, 3)(k) == coefficients_1_1_values()(k).at(x, y, z),
{
    lemma_over(R::one_val(), R::one_val());
    lemma_int_units::<R>();
    lemma_affine_units(-1, x, y, z);
    lemma_first_coordinate(x, y, z);
}

proof fn lemma_coefficients_1_1_x<R: Real>(x: R, y: R, z: R, k: int)
    requires
        exact_field::<R>(),
        exact_integers::<R>(),
        0 <= k < 2,
    ensures
        low_functions(1, 1, x, y, z, 0)(k) == coefficients_1_1_x()(k).at(x, y, z),
{
    lemma_over(R::one_val(), R::one_val());
    lemma_int_units::<R>();
    lemma_affine_units(-1, x, y, z);
    lemma_first_coordinate(x, y, z);
}

proof fn lemma_coefficients_1_2_x<R: Real>(x: R, y: R, z: R, k: int)
    requires
        exact_field::<R>(),
        exact_integers::<R>(),
        0 <= k < 3,
    ensures
        low_functions(1, 2, x, y, z, 0)(k) == coefficients_1_2_x()(k).at(x, y, z),
{
    lemma_over(R::one_val(), R::one_val());
    lemma_int_units::<R>();
    lemma_affine_units(-1, x, y, z);
    lemma_first_coordinate(x, y, z);
    lemma_line_slopes(x, y, z);
}

proof fn lemma_coefficients_2_1_values<R: Real>(x: R, y: R, z: R, k: int)
    requires
        exact_field::<R>(),
        exact_integers::<R>(),
        0 <= k < 3,
    ensures
        low_functions(2, 1, x, y, z, 3)(k) == coefficients_2_1_values()(k).at(x, y, z),
{
    lemma_over(R::one_val(), R::one_val());
    lemma_int_units::<R>();
    lemma_affine_units(-1, x, y, z);
    lemma_first_coordinate(x, y, z);
}

proof fn lemma_coefficients_2_1_x<R: Real>(x: R, y: R, z: R, k: int)
    requires
        exact_field::<R>(),
        exact_integers::<R>(),
        0 <= k < 3,
    ensures
        low_functions(2, 1, x, y, z, 0)(k) == coefficients_2_1_x()(k).at(x, y, z),
{
    lemma_over(R::one_val(), R::one_val());
    lemma_int_units::<R>();
    lemma_affine_units(-1, x, y, z);
    lemma_first_coordinate(x, y, z);
}

proof fn lemma_coefficients_2_1_y<R: Real>(x: R, y: R, z: R, k: int)
    requires
        exact_field::<R>(),
        exact_integers::<R>(),
        0 <= k < 3,
    ensures
        low_functions(2, 1, x, y, z, 1)(k) == coefficients_2_1_y()(k).at(x, y, z),
{
    lemma_over(R::one_val(), R::one_val());
    lemma_int_units::<R>();
    lemma_affine_units(-1, x, y, z);
    lemma_first_coordinate(x, y, z);
}

proof fn lemma_coefficients_2_2_x<R: Real>(x: R, y: R, z: R, k: int)
    requires
        exact_field::<R>(),
        exact_integers::<R>(),
        0 <= k < 6,
    ensures
        low_functions(2, 2, x, y, z, 0)(k) == coefficients_2_2_x()(k).at(x, y, z),
{
    lemma_over(R::one_val(), R::one_val());
    lemma_int_units::<R>();
    lemma_affine_units(-1, x, y, z);
    lemma_first_coordinate(x, y, z);
    lemma_forms(aff(1, -1, -1, 0), aff(0, 1, 0, 0), x, y, z);
    lemma_forms(aff(1, -1, -1, 0), aff(0, 0, 1, 0), x, y, z);
}

proof fn lemma_coefficients_2_2_y<R: Real>(x: R, y: R, z: R, k: int)
    requires
        exact_field::<R>(),
        exact_integers::<R>(),
        0 <= k < 6,
    ensures
        low_functions(2, 2, x, y, z, 1)(k) == coefficients_2_2_y()(k).at(x, y, z),
{
    lemma_over(R::one_val(), R::one_val());
    lemma_int_units::<R>();
    lemma_affine_units(-1, x, y, z);
    lemma_first_coordinate(x, y, z);
    lemma_forms(aff(1, -1, -1, 0), aff(0, 1, 0, 0), x, y, z);
    lemma_forms(aff(1, -1, -1, 0), aff(0, 0, 1, 0), x, y, z);
}

proof fn lemma_coefficients_3_1_values<R: Real>(x: R, y: R, z: R, k: int)
    requires
        exact_field::<R>(),
        exact_integers::<R>(),
        0 <= k < 4,
    ensures
        low_functions(3, 1, x, y, z, 3)(k) == coefficients_3_1_values()(k).at(x, y, z),
{
    lemma_over(R::one_val(), R::one_val());
    lemma_int_units::<R>();
    lemma_affine_units(-1, x, y, z);
    lemma_first_coordinate(x, y, z);
}

proof fn lemma_coefficients_3_1_x<R: Real>(x: R, y: R, z: R, k: int)
    requires
        exact_field::<R>(),
        exact_integers::<R>(),
        0 <= k < 4,
    ensures
        low_functions(3, 1, x, y, z, 0)(k) == coefficients_3_1_x()(k).at(x, y, z),
{
    lemma_over(R::one_val(), R::one_val());
    lemma_int_units::<R>();
    lemma_affine_units(-1, x, y, z);
    lemma_first_coordinate(x, y, z);
}

proof fn lemma_coefficients_3_1_y<R: Real>(x: R, y: R, z: R, k: int)
    requires
        exact_field::<R>(),
        exact_integers::<R>(),
        0 <= k < 4,
    ensures
        low_functions(3, 1, x, y, z, 1)(k) == coefficients_3_1_y()(k).at(x, y, z),
{
    lemma_over(R::one_val(), R::one_val());
    lemma_int_units::<R>();
    lemma_affine_units(-1, x, y, z);
    lemma_first_coordinate(x, y, z);
}

proof fn lemma_coefficients_3_1_z<R: Real>(x: R, y: R, z: R, k: int)
    requires
        exact_field::<R>(),
        exact_integers::<R>(),
        0 <= k < 4,
    ensures
        low_functions(3, 1, x, y, z, 2)(k) == coefficients_3_1_z()(k).at(x, y, z),
{
    lemma_over(R::one_val(), R::one_val());
    lemma_int_units::<R>();
    lemma_affine_units(-1, x, y, z);
    lemma_first_coordinate(x, y, z);
}

proof fn lemma_coefficients_3_2_x<R: Real>(x: R, y: R, z: R, k: int)
    requires
        exact_field::<R>(),
        exact_integers::<R>(),
        0 <= k < 10,
    ensures
        low_functions(3, 2, x, y, z, 0)(k) == coefficients_3_2_x()(k).at(x, y, z),
{
    lemma_over(R::one_val(), R::one_val());
    lemma_int_units::<R>();
    lemma_affine_units(-1, x, y, z);
    lemma_first_coordinate(x, y, z);
    lemma_forms(aff(1, -1, -1, -1), aff(0, 1, 0, 0), x, y, z);
    lemma_forms(aff(1, -1, -1, -1), aff(0, 0, 1, 0), x, y, z);
    lemma_forms(aff(1, -1, -1, -1), aff(0, 0, 0, 1), x, y, z);
}

proof fn lemma_coefficients_3_2_y<R: Real>(x: R, y: R, z: R, k: int)
    requires
        exact_field::<R>(),
        exact_integers::<R>(),
        0 <= k < 10,
    ensures
        low_functions(3, 2, x, y, z, 1)(k) == coefficients_3_2_y()(k).at(x, y, z),
{
    lemma_over(R::one_val(), R::one_val());
    lemma_int_units::<R>();
    lemma_affine_units(-1, x, y, z);
    lemma_first_coordinate(x, y, z);
    lemma_forms(aff(1, -1, -1, -1), aff(0, 1, 0, 0), x, y, z);
    lemma_forms(aff(1, -1, -1, -1), aff(0, 0, 1, 0), x, y, z);
    lemma_forms(aff(1, -1, -1, -1), aff(0, 0, 0, 1), x, y, z);
}

proof fn lemma_coefficients_3_2_z<R: Real>(x: R, y: R, z: R, k: int)
    requires
        exact_field::<R>(),
        exact_integers::<R>(),
        0 <= k < 10,
    ensures
        low_functions(3, 2, x, y, z, 2)(k) == coefficients_3_2_z()(k).at(x, y, z),
{
    lemma_over(R::one_val(), R::one_val());
    lemma_int_units::<R>();
    lemma_affine_units(-1, x, y, z);
    lemma_first_coordinate(x, y, z);
    lemma_forms(aff(1, -1, -1, -1), aff(0, 1, 0, 0), x, y, z);
    lemma_forms(aff(1, -1, -1, -1), aff(0, 0, 1, 0), x, y, z);
    lemma_forms(aff(1, -1, -1, -1), aff(0, 0, 0, 1), x, y, z);
}

proof fn lemma_line_slopes<R: Real>(x: R, y: R, z: R)
    requires
        exact_field::<R>(),
        exact_integers::<R>(),
    ensures
        line_p2_slopes(x)[0] == aff(-3, 4, 0, 0).at(x, y, z),
        line_p2_slopes(x)[1] == aff(4, -8, 0, 0).at(x, y, z),
        line_p2_slopes(x)[2] == aff(-1, 4, 0, 0).at(x, y, z),
{
    lemma_over(R::one_val(), R::one_val());
    let (two, h) = (R::int_val(2), ratio_val::<R>(3, 2));
    lemma_int_units::<R>();
    lemma_affine_units(-3, x, y, z);
    lemma_affine_units(3, x, y, z);
    lemma_affine_units(4, x, y, z);
    lemma_affine_units(1, x, y, z);
    // 2 (2 x - 3/2) == 4 x - 3
    lemma_int_nonzero::<R>(2);
    lemma_quotient(R::int_val(3), two);
    lemma_distribute_minus(two, two.times(x), h);
    lemma_times_assoc(two, two, x);
    lemma_int_times::<R>(2, 2);
    lemma_times_comm(h, two);
    lemma_affine_scaled(4, aff(0, 1, 0, 0), x, y, z);
    lemma_affine_minus(aff(0, 4, 0, 0), aff(3, 0, 0, 0), x, y, z);
    lemma_affine_minus(aff(0, 4, 0, 0), aff(1, 0, 0, 0), x, y, z);
    lemma_affine_scaled(-8, aff(0, 1, 0, 0), x, y, z);
    lemma_affine_plus(aff(0, -8, 0, 0), aff(4, 0, 0, 0), x, y, z);
}

proof fn lemma_sums_1_1_values(t: int)
    requires
        0 <= t < 2,
    ensures
        sums_to(1, 1, 2, t, coefficients_1_1_values(), goal(1, t, 3)),
{
    reveal_with_fuel(affine_sum, 3);
    assert(sums_to(1, 1, 2, 0, coefficients_1_1_values(), goal(1, 0, 3)));
    assert(sums_to(1, 1, 2, 1, coefficients_1_1_values(), goal(1, 1, 3)));
}

proof fn lemma_sums_1_1_x(t: int)
    requires
        0 <= t < 2,
    ensures
        sums_to(1, 1, 2, t, coefficients_1_1_x(), goal(1, t, 0)),
{
    reveal_with_fuel(affine_sum, 3);
    assert(sums_to(1, 1, 2, 0, coefficients_1_1_x(), goal(1, 0, 0)));
    assert(sums_to(1, 1, 2, 1, coefficients_1_1_x(), goal(1, 1, 0)));
}

proof fn lemma_sums_1_2_x(t: int)
    requires
        0 <= t < 3,
    ensures
        sums_to(1, 2, 3, t, coefficients_1_2_x(), goal(1, t, 0)),
{
    reveal_with_fuel(affine_sum, 4);
    assert(sums_to(1, 2, 3, 0, coefficients_1_2_x(), goal(1, 0, 0)));
    assert(sums_to(1, 2, 3, 1, coefficients_1_2_x(), goal(1, 1, 0)));
    assert(sums_to(1, 2, 3, 2, coefficients_1_2_x(), goal(1, 2, 0)));
}

proof fn lemma_sums_2_1_values(t: int)
    requires
        0 <= t < 3,
    ensures
        sums_to(2, 1, 3, t, coefficients_2_1_values(), goal(2, t, 3)),
{
    reveal_with_fuel(affine_sum, 4);
    assert(sums_to(2, 1, 3, 0, coefficients_2_1_values(), goal(2, 0, 3)));
    assert(sums_to(2, 1, 3, 1, coefficients_2_1_values(), goal(2, 1, 3)));
    assert(sums_to(2, 1, 3, 2, coefficients_2_1_values(), goal(2, 2, 3)));
}

proof fn lemma_sums_2_1_x(t: int)
    requires
        0 <= t < 3,
    ensures
        sums_to(2, 1, 3, t, coefficients_2_1_x(), goal(2, t, 0)),
{
    reveal_with_fuel(affine_sum, 4);
    assert(sums_to(2, 1, 3, 0, coefficients_2_1_x(), goal(2, 0, 0)));
    assert(sums_to(2, 1, 3, 1, coefficients_2_1_x(), goal(2, 1, 0)));
    assert(sums_to(2, 1, 3, 2, coefficients_2_1_x(), goal(2, 2, 0)));
}

proof fn lemma_sums_2_1_y(t: int)
    requires
        0 <= t < 3,
    ensures
        sums_to(2, 1, 3, t, coefficients_2_1_y(), goal(2, t, 1)),
{
    reveal_with_fuel(affine_sum, 4);
    assert(sums_to(2, 1, 3, 0, coefficients_2_1_y(), goal(2, 0, 1)));
    assert(sums_to(2, 1, 3, 1, coefficients_2_1_y(), goal(2, 1, 1)));
    assert(sums_to(2, 1, 3, 2, coefficients_2_1_y(), goal(2, 2, 1)));
}

proof fn lemma_sums_2_2_x(t: int)
    requires
        0 <= t < 6,
    ensures
        sums_to(2, 2, 6, t, coefficients_2_2_x(), goal(2, t, 0)),
{
    reveal_with_fuel(affine_sum, 7);
    assert(sums_to(2, 2, 6, 0, coefficients_2_2_x(), goal(2, 0, 0)));
    assert(sums_to(2, 2, 6, 1, coefficients_2_2_x(), goal(2, 1, 0)));
    assert(sums_to(2, 2, 6, 2, coefficients_2_2_x(), goal(2, 2, 0)));
    assert(sums_to(2, 2, 6, 3, coefficients_2_2_x(), goal(2, 3, 0)));
    assert(sums_to(2, 2, 6, 4, coefficients_2_2_x(), goal(2, 4, 0)));
    assert(sums_to(2, 2, 6, 5, coefficients_2_2_x(), goal(2, 5, 0)));
}

proof fn lemma_sums_2_2_y(t: int)
    requires
        0 <= t < 6,
    ensures
        sums_to(2, 2, 6, t, coefficients_2_2_y(), goal(2, t, 1)),
{
    reveal_with_fuel(affine_sum, 7);
    assert(sums_to(2, 2, 6, 0, coefficients_2_2_y(), goal(2, 0, 1)));
    assert(sums_to(2, 2, 6, 1, coefficients_2_2_y(), goal(2, 1, 1)));
    assert(sums_to(2, 2, 6, 2, coefficients_2_2_y(), goal(2, 2, 1)));
    assert(sums_to(2, 2, 6, 3, coefficients_2_2_y(), goal(2, 3, 1)));
    assert(sums_to(2, 2, 6, 4, coefficients_2_2_y(), goal(2, 4, 1)));
    assert(sums_to(2, 2, 6, 5, coefficients_2_2_y(), goal(2, 5, 1)));
}

proof fn lemma_sums_3_1_values(t: int)
    requires
        0 <= t < 4,
    ensures
        sums_to(3, 1, 4, t, coefficients_3_1_values(), goal(3, t, 3)),
{
    reveal_with_fuel(affine_sum, 5);
    assert(sums_to(3, 1, 4, 0, coefficients_3_1_values(), goal(3, 0, 3)));
    assert(sums_to(3, 1, 4, 1, coefficients_3_1_values(), goal(3, 1, 3)));
    assert(sums_to(3, 1, 4, 2, coefficients_3_1_values(), goal(3, 2, 3)));
    assert(sums_to(3, 1, 4, 3, coefficients_3_1_values(), goal(3, 3, 3)));
}

proof fn lemma_sums_3_1_x(t: int)
    requires
        0 <= t < 4,
    ensures
        sums_to(3, 1, 4, t, coefficients_3_1_x(), goal(3, t, 0)),
{
    reveal_with_fuel(affine_sum, 5);
    assert(sums_to(3, 1, 4, 0, coefficients_3_1_x(), goal(3, 0, 0)));
    assert(sums_to(3, 1, 4, 1, coefficients_3_1_x(), goal(3, 1, 0)));
    assert(sums_to(3, 1, 4, 2, coefficients_3_1_x(), goal(3, 2, 0)));
    assert(sums_to(3, 1, 4, 3, coefficients_3_1_x(), goal(3, 3, 0)));
}

proof fn lemma_sums_3_1_y(t: int)
    requires
        0 <= t < 4,
    ensures
        sums_to(3, 1, 4, t, coefficients_3_1_y(), goal(3, t, 1)),
{
    reveal_with_fuel(affine_sum, 5);
    assert(sums_to(3, 1, 4, 0, coefficients_3_1_y(), goal(3, 0, 1)));
    assert(sums_to(3, 1, 4, 1, coefficients_3_1_y(), goal(3, 1, 1)));
    assert(sums_to(3, 1, 4, 2, coefficients_3_1_y(), goal(3, 2, 1)));
    assert(sums_to(3, 1, 4, 3, coefficients_3_1_y(), goal(3, 3, 1)));
}

proof fn lemma_sums_3_1_z(t: int)
    requires
        0 <= t < 4,
    ensures
        sums_to(3, 1, 4, t, coefficients_3_1_z(), goal(3, t, 2)),
{
    reveal_with_fuel(affine_sum, 5);
    assert(sums_to(3, 1, 4, 0, coefficients_3_1_z(), goal(3, 0, 2)));
    assert(sums_to(3, 1, 4, 1, coefficients_3_1_z(), goal(3, 1, 2)));
    assert(sums_to(3, 1, 4, 2, coefficients_3_1_z(), goal(3, 2, 2)));
    assert(sums_to(3, 1, 4, 3, coefficients_3_1_z(), goal(3, 3, 2)));
}

proof fn lemma_sums_3_2_x(t: int)
    requires
        0 <= t < 10,
    ensures
        sums_to(3, 2, 10, t, coefficients_3_2_x(), goal(3, t, 0)),
{
    reveal_with_fuel(affine_sum, 11);
    assert(sums_to(3, 2, 10, 0, coefficients_3_2_x(), goal(3, 0, 0)));
    assert(sums_to(3, 2, 10, 1, coefficients_3_2_x(), goal(3, 1, 0)));
    assert(sums_to(3, 2, 10, 2, coefficients_3_2_x(), goal(3, 2, 0)));
    assert(sums_to(3, 2, 10, 3, coefficients_3_2_x(), goal(3, 3, 0)));
    assert(sums_to(3, 2, 10, 4, coefficients_3_2_x(), goal(3, 4, 0)));
    assert(sums_to(3, 2, 10, 5, coefficients_3_2_x(), goal(3, 5, 0)));
    assert(sums_to(3, 2, 10, 6, coefficients_3_2_x(), goal(3, 6, 0)));
    assert(sums_to(3, 2, 10, 7, coefficients_3_2_x(), goal(3, 7, 0)));
    assert(sums_to(3, 2, 10, 8, coefficients_3_2_x(), goal(3, 8, 0)));
    assert(sums_to(3, 2, 10, 9, coefficients_3_2_x(), goal(3, 9, 0)));
}

proof fn lemma_sums_3_2_y(t: int)
    requires
        0 <= t < 10,
    ensures
        sums_to(3, 2, 10, t, coefficients_3_2_y(), goal(3, t, 1)),
{
    reveal_with_fuel(affine_sum, 11);
    assert(sums_to(3, 2, 10, 0, coefficients_3_2_y(), goal(3, 0, 1)));
    assert(sums_to(3, 2, 10, 1, coefficients_3_2_y(), goal(3, 1, 1)));
    assert(sums_to(3, 2, 10, 2, coefficients_3_2_y(), goal(3, 2, 1)));
    assert(sums_to(3, 2, 10, 3, coefficients_3_2_y(), goal(3, 3, 1)));
    assert(sums_to(3, 2, 10, 4, coefficients_3_2_y(), goal(3, 4, 1)));
    assert(sums_to(3, 2, 10, 5, coefficients_3_2_y(), goal(3, 5, 1)));
    assert(sums_to(3, 2, 10, 6, coefficients_3_2_y(), goal(3, 6, 1)));
    assert(sums_to(3, 2, 10, 7, coefficients_3_2_y(), goal(3, 7, 1)));
    assert(sums_to(3, 2, 10, 8, coefficients_3_2_y(), goal(3, 8, 1)));
    assert(sums_to(3, 2, 10, 9, coefficients_3_2_y(), goal(3, 9, 1)));
}

proof fn lemma_sums_3_2_z(t: int)
    requires
        0 <= t < 10,
    ensures
        sums_to(3, 2, 10, t, coefficients_3_2_z(), goal(3, t, 2)),
{
    reveal_with_fuel(affine_sum, 11);
    assert(sums_to(3, 2, 10, 0, coefficients_3_2_z(), goal(3, 0, 2)));
    assert(sums_to(3, 2, 10, 1, coefficients_3_2_z(), goal(3, 1, 2)));
    assert(sums_to(3, 2, 10, 2, coefficients_3_2_z(), goal(3, 2, 2)));
    assert(sums_to(3, 2, 10, 3, coefficients_3_2_z(), goal(3, 3, 2)));
    assert(sums_to(3, 2, 10, 4, coefficients_3_2_z(), goal(3, 4, 2)));
    assert(sums_to(3, 2, 10, 5, coefficients_3_2_z(), goal(3, 5, 2)));
    assert(sums_to(3, 2, 10, 6, coefficients_3_2_z(), goal(3, 6, 2)));
    assert(sums_to(3, 2, 10, 7, coefficients_3_2_z(), goal(3, 7, 2)));
    assert(sums_to(3, 2, 10, 8, coefficients_3_2_z(), goal(3, 8, 2)));
    assert(sums_to(3, 2, 10, 9, coefficients_3_2_z(), goal(3, 9, 2)));
}

/// The coefficients of what the sum over the nodes gives: those of a monomial of degree at most one
/// for `d == 3`, else those of a derivative.
spec fn goal(dim: int, t: int, d: int) -> Affine {
    let e = exponents(dim, t);
    if d == 3 {
        aff(
            if t == 0 {
                1
            } else {
                0
            },
            e.0,
            e.1,
            e.2,
        )
    } else {
        slope_coefficients(e, d)
    }
}

/// The coefficients sum to four times the goal.
spec fn sums_to(
    dim: int,
    poly: int,
    n: int,
    t: int,
    a: spec_fn(int) -> Affine,
    goal: Affine,
) -> bool {
    affine_sum(n, |k: int| picked(a(k), quadrupled_samples(dim, poly, t)(k))) == aff(
        4 * goal.one,
        4 * goal.x,
        4 * goal.y,
        4 * goal.z,
    )
}

/// Number of nodes of the linear or quadratic basis in `dim` coordinates.
pub open spec fn low_count(dim: int, poly: int) -> int {
    if poly == 1 {
        dim + 1
    } else if dim == 1 {
        3
    } else if dim == 2 {
        6
    } else {
        10
    }
}

/// The linear shape functions reproduce linear polynomials from their values at the nodes.
pub proof fn law_linear_values_reproduce<R: Real>(dim: int, x: R, y: R, z: R, t: int)
    requires
        exact_field::<R>(),
        exact_integers::<R>(),
        1 <= dim <= 3,
        0 <= t <= dim,
    ensures
        sum(
            dim + 1,
            sampled(low_functions(dim, 1, x, y, z, 3), low_samples::<R>(dim, 1, t)),
        ) == low_monomial(exponents(dim, t), x, y, z),
{
    lemma_over(R::one_val(), R::one_val());
    let f = low_functions(dim, 1, x, y, z, 3);
    lemma_affine_units(1, x, y, z);
    if dim == 1 {
        let a = coefficients_1_1_values();
        assert forall|k: int| 0 <= k < 2 implies #[trigger] f(k) == a(k).at(x, y, z) by {
            lemma_coefficients_1_1_values(x, y, z, k);
        }
        lemma_sums_1_1_values(t);
        lemma_low_sum(1, 1, 2, t, f, a, goal(1, t, 3), x, y, z);
    } else if dim == 2 {
        let a = coefficients_2_1_values();
        assert forall|k: int| 0 <= k < 3 implies #[trigger] f(k) == a(k).at(x, y, z) by {
            lemma_coefficients_2_1_values(x, y, z, k);
        }
        lemma_sums_2_1_values(t);
        lemma_low_sum(2, 1, 3, t, f, a, goal(2, t, 3), x, y, z);
    } else {
        let a = coefficients_3_1_values();
        assert forall|k: int| 0 <= k < 4 implies #[trigger] f(k) == a(k).at(x, y, z) by {
            lemma_coefficients_3_1_values(x, y, z, k);
        }
        lemma_sums_3_1_values(t);
        lemma_low_sum(3, 1, 4, t, f, a, goal(3, t, 3), x, y, z);
    }
}

/// The gradients of the linear and quadratic shape functions reproduce the gradients of the
/// polynomials of their degree.
pub proof fn law_low_gradients_reproduce<R: Real>(
    dim: int,
    poly: int,
    x: R,
    y: R,
    z: R,
    t: int,
    d: int,
)
    requires
        exact_field::<R>(),
        exact_integers::<R>(),
        1 <= dim <= 3,
        1 <= poly <= 2,
        0 <= t < low_count(dim, poly),
        0 <= d < dim,
    ensures
        sum(
            low_count(dim, poly),
            sampled(low_functions(dim, poly, x, y, z, d), low_samples::<R>(dim, poly, t)),
        ) == low_slope(exponents(dim, t), x, y, z, d),
{
    let f = low_functions(dim, poly, x, y, z, d);
    if dim == 1 && poly == 1 && d == 0 {
        let a = coefficients_1_1_x();
        assert forall|k: int| 0 <= k < 2 implies #[trigger] f(k) == a(k).at(x, y, z) by {
            lemma_coefficients_1_1_x(x, y, z, k);
        }
        lemma_sums_1_1_x(t);
        lemma_low_sum(1, 1, 2, t, f, a, goal(1, t, 0), x, y, z);
    } else if dim == 1 && poly == 2 && d == 0 {
        let a = coefficients_1_2_x();
        assert forall|k: int| 0 <= k < 3 implies #[trigger] f(k) == a(k).at(x, y, z) by {
            lemma_coefficients_1_2_x(x, y, z, k);
        }
        lemma_sums_1_2_x(t);
        lemma_low_sum(1, 2, 3, t, f, a, goal(1, t, 0), x, y, z);
    } else if dim == 2 && poly == 1 && d == 0 {
        let a = coefficients_2_1_x();
        assert forall|k: int| 0 <= k < 3 implies #[trigger] f(k) == a(k).at(x, y, z) by {
            lemma_coefficients_2_1_x(x, y, z, k);
        }
        lemma_sums_2_1_x(t);
        lemma_low_sum(2, 1, 3, t, f, a, goal(2, t, 0), x, y, z);
    } else if dim == 2 && poly == 1 && d == 1 {
        let a = coefficients_2_1_y();
        assert forall|k: int| 0 <= k < 3 implies #[trigger] f(k) == a(k).at(x, y, z) by {
            lemma_coefficients_2_1_y(x, y, z, k);
        }
        lemma_sums_2_1_y(t);
        lemma_low_sum(2, 1, 3, t, f, a, goal(2, t, 1), x, y, z);
    } else if dim == 2 && poly == 2 && d == 0 {
        let a = coefficients_2_2_x();
        assert forall|k: int| 0 <= k < 6 implies #[trigger] f(k) == a(k).at(x, y, z) by {
            lemma_coefficients_2_2_x(x, y, z, k);
        }
        lemma_sums_2_2_x(t);
        lemma_low_sum(2, 2, 6, t, f, a, goal(2, t, 0), x, y, z);
    } else if dim == 2 && poly == 2 && d == 1 {
        let a = coefficients_2_2_y();
        assert forall|k: int| 0 <= k < 6 implies #[trigger] f(k) == a(k).at(x, y, z) by {
            lemma_coefficients_2_2_y(x, y, z, k);
        }
        lemma_sums_2_2_y(t);
        lemma_low_sum(2, 2, 6, t, f, a, goal(2, t, 1), x, y, z);
    } else if dim == 3 && poly == 1 && d == 0 {
        let a = coefficients_3_1_x();
        assert forall|k: int| 0 <= k < 4 implies #[trigger] f(k) == a(k).at(x, y, z) by {
            lemma_coefficients_3_1_x(x, y, z, k);
        }
        lemma_sums_3_1_x(t);
        lemma_low_sum(3, 1, 4, t, f, a, goal(3, t, 0), x, y, z);
    } else if dim == 3 && poly == 1 && d == 1 {
        let a = coefficients_3_1_y();
        assert forall|k: int| 0 <= k < 4 implies #[trigger] f(k) == a(k).at(x, y, z) by {
            lemma_coefficients_3_1_y(x, y, z, k);
        }
        lemma_sums_3_1_y(t);
        lemma_low_sum(3, 1, 4, t, f, a, goal(3, t, 1), x, y, z);
    } else if dim == 3 && poly == 1 && d == 2 {
        let a = coefficients_3_1_z();
        assert forall|k: int| 0 <= k < 4 implies #[trigger] f(k) == a(k).at(x, y, z) by {
            lemma_coefficients_3_1_z(x, y, z, k);
        }
        lemma_sums_3_1_z(t);
        lemma_low_sum(3, 1, 4, t, f, a, goal(3, t, 2), x, y, z);
    } else if dim == 3 && poly == 2 && d == 0 {
        let a = coefficients_3_2_x();
        assert forall|k: int| 0 <= k < 10 implies #[trigger] f(k) == a(k).at(x, y, z) by {
            lemma_coefficients_3_2_x(x, y, z, k);
        }
        lemma_sums_3_2_x(t);
        lemma_low_sum(3, 2, 10, t, f, a, goal(3, t, 0), x, y, z);
    } else if dim == 3 && poly == 2 && d == 1 {
        let a = coefficients_3_2_y();
        assert forall|k: int| 0 <= k < 10 implies #[trigger] f(k) == a(k).at(x, y, z) by {
            lemma_coefficients_3_2_y(x, y, z, k);
        }
        lemma_sums_3_2_y(t);
        lemma_low_sum(3, 2, 10, t, f, a, goal(3, t, 1), x, y, z);
    } else {
        let a = coefficients_3_2_z();
        assert forall|k: int| 0 <= k < 10 implies #[trigger] f(k) == a(k).at(x, y, z) by {
            lemma_coefficients_3_2_z(x, y, z, k);
        }
        lemma_sums_3_2_z(t);
        lemma_low_sum(3, 2, 10, t, f, a, goal(3, t, 2), x, y, z);
    }
}

} // verus!
