//! The quadrature rules on the triangle and the tetrahedron integrate polynomials up to their
//! degree exactly, where the arithmetic of the numbers is exact.
//!
//! The coordinates and weights of a rule are numbers `(a + b √n) / d` with integers `a`, `b` and
//! one denominator for all coordinates and one for all weights. A monomial is summed over the
//! points as a pair of integers, which is then held against the integral.

use vstd::prelude::*;

#[allow(unused_imports)]
use crate::cpu::lagrange_tables::tensor_weights;
#[allow(unused_imports)]
use crate::cpu::simplex_laws::entries;
#[allow(unused_imports)]
use crate::cpu::simplex_shapes::{
    tet_rule_points, tet_rule_weights, tri_rule_points, tri_rule_weights,
};
#[allow(unused_imports)]
use crate::exact::{
    exact_integers, lemma_distribute_minus, lemma_int_minus, lemma_int_negated, lemma_int_nonzero,
    lemma_int_plus, lemma_int_times, lemma_int_units, lemma_negated_sum, lemma_quotient,
    lemma_recip, lemma_times_cross, lemma_times_swap, recip,
};
#[allow(unused_imports)]
use crate::index::{lemma_mul_le, lemma_split};
#[allow(unused_imports)]
use crate::linear::lemma_sum_product;
use crate::scalar::Real;
#[allow(unused_imports)]
use crate::scalar::{
    exact_field, exact_ring, lemma_distribute, lemma_minus, lemma_over, lemma_plus_assoc,
    lemma_plus_comm, lemma_sum_ext, lemma_times_assoc, lemma_times_comm, lemma_times_negated,
    lemma_times_one, lemma_times_zero, ratio_val, sum,
};

verus! {

// ── statements ──────────────────────────────────────────────────────────────

/// `v xⁿ`.
pub open spec fn raised<R: Real>(v: R, x: R, n: int) -> R
    decreases n,
{
    if n <= 0 {
        v
    } else {
        raised(v, x, n - 1).times(x)
    }
}

/// `n!`.
pub open spec fn factorial(n: int) -> int
    decreases n,
{
    if n <= 1 {
        1
    } else {
        n * factorial(n - 1)
    }
}

/// Weighted values of the monomial `xᵃ yᵇ` at points with two coordinates.
pub open spec fn plane_moments<R: Real>(points: Seq<R>, weights: Seq<R>, a: int, b: int) -> spec_fn(
    int,
) -> R {
    |i: int| raised(raised(weights[i], points[2 * i], a), points[2 * i + 1], b)
}

/// Weighted values of the monomial `xᵃ yᵇ zᶜ` at points with three coordinates.
pub open spec fn space_moments<R: Real>(
    points: Seq<R>,
    weights: Seq<R>,
    a: int,
    b: int,
    c: int,
) -> spec_fn(int) -> R {
    |i: int|
        raised(
            raised(raised(weights[i], points[3 * i], a), points[3 * i + 1], b),
            points[3 * i + 2],
            c,
        )
}

/// The square root of the integer `n` is exact.
pub open spec fn root_is_exact<R: Real>(n: int) -> bool {
    R::int_val(n).root().times(R::int_val(n).root()) == R::int_val(n)
}

/// Degree up to which a rule on the triangle is exact; the rule with six points is not among
/// these, as its coordinates and weights are rounded.
pub open spec fn tri_degree(q: int) -> int {
    if q == 1 {
        1
    } else if q == 3 {
        2
    } else if q == 4 {
        3
    } else if q == 7 {
        5
    } else {
        -1
    }
}

/// Degree up to which a rule on the tetrahedron is exact.
pub open spec fn tet_degree(q: int) -> int {
    if q == 1 {
        1
    } else if q == 4 {
        2
    } else if q == 5 {
        3
    } else {
        -1
    }
}

// ── numbers with a root ─────────────────────────────────────────────────────

/// `u.0 + u.1 s`.
spec fn surd<R: Real>(s: R, u: (int, int)) -> R {
    R::int_val(u.0).plus(R::int_val(u.1).times(s))
}

/// `v` is `(u.0 + u.1 s) / d`.
spec fn is_surd<R: Real>(v: R, s: R, u: (int, int), d: int) -> bool {
    v.times(R::int_val(d)) == surd(s, u)
}

/// Product of numbers with the root of `n`.
spec fn surd_product(n: int, u: (int, int), c: (int, int)) -> (int, int) {
    (u.0 * c.0 + n * (u.1 * c.1), u.0 * c.1 + u.1 * c.0)
}

/// Products are as defined.
proof fn lemma_surd_product<R: Real>(s: R, n: int, u: (int, int), c: (int, int))
    requires
        exact_ring::<R>(),
        exact_integers::<R>(),
        s.times(s) == R::int_val(n),
    ensures
        surd(s, u).times(surd(s, c)) == surd(s, surd_product(n, u, c)),
{
    let (u0, u1) = (R::int_val(u.0), R::int_val(u.1));
    let (c0, c1) = (R::int_val(c.0), R::int_val(c.1));
    let (x, y) = (u1.times(s), c1.times(s));
    // (u0 + x)(c0 + y) == (u0 c0 + x c0) + (u0 y + x y)
    lemma_distribute(u0.plus(x), c0, y);
    lemma_times_comm(u0.plus(x), c0);
    lemma_distribute(c0, u0, x);
    lemma_times_comm(c0, u0);
    lemma_times_comm(u0.plus(x), y);
    lemma_distribute(y, u0, x);
    lemma_times_comm(y, u0);
    lemma_times_comm(y, x);
    let (p, q) = (u0.times(c0), x.times(y));
    let (g, h) = (c0.times(x), u0.times(y));
    // x y == n u1 c1
    lemma_times_cross(u1, s, c1, s);
    lemma_times_comm(u1.times(c1), s.times(s));
    lemma_int_times::<R>(u.1, c.1);
    lemma_int_times::<R>(n, u.1 * c.1);
    assert(q == R::int_val(n * (u.1 * c.1)));
    lemma_int_times::<R>(u.0, c.0);
    lemma_int_plus::<R>(u.0 * c.0, n * (u.1 * c.1));
    // g + h == (u0 c1 + u1 c0) s
    lemma_times_assoc(c0, u1, s);
    lemma_times_comm(c0, u1);
    lemma_times_assoc(u0, c1, s);
    lemma_int_times::<R>(u.0, c.1);
    lemma_int_times::<R>(u.1, c.0);
    lemma_int_plus::<R>(u.0 * c.1, u.1 * c.0);
    lemma_times_comm(u0.times(c1).plus(u1.times(c0)), s);
    lemma_distribute(s, u0.times(c1), u1.times(c0));
    lemma_times_comm(s, u0.times(c1));
    lemma_times_comm(s, u1.times(c0));
    assert(h.plus(g) == R::int_val(u.0 * c.1 + u.1 * c.0).times(s));
    // (p + g) + (h + q) == (p + q) + (h + g)
    lemma_plus_assoc(p.plus(g), h, q);
    lemma_plus_assoc(p, g, h);
    lemma_plus_comm(g, h);
    lemma_plus_assoc(p, h.plus(g), q);
    lemma_plus_comm(h.plus(g), q);
    lemma_plus_assoc(p, q, h.plus(g));
}

/// Products of quotients.
proof fn lemma_surd_times<R: Real>(
    v: R,
    x: R,
    s: R,
    n: int,
    u: (int, int),
    c: (int, int),
    d: int,
    e: int,
)
    requires
        exact_ring::<R>(),
        exact_integers::<R>(),
        s.times(s) == R::int_val(n),
        is_surd(v, s, u, d),
        is_surd(x, s, c, e),
    ensures
        is_surd(v.times(x), s, surd_product(n, u, c), e * d),
{
    lemma_surd_product(s, n, u, c);
    lemma_int_times::<R>(e, d);
    lemma_times_comm(R::int_val(e), R::int_val(d));
    lemma_times_cross(v, x, R::int_val(d), R::int_val(e));
}

/// An integer quotient.
proof fn lemma_ratio_surd<R: Real>(p: int, d: int, s: R, r: int, e: int)
    requires
        exact_field::<R>(),
        exact_integers::<R>(),
        d != 0,
        p * e == r * d,
    ensures
        is_surd(ratio_val::<R>(p, d), s, (r, 0), e),
{
    lemma_over(R::one_val(), R::one_val());
    let (ip, id, ie) = (R::int_val(p), R::int_val(d), R::int_val(e));
    lemma_int_nonzero::<R>(d);
    lemma_quotient(ip, id);
    lemma_times_swap(ip, recip(id), ie);
    lemma_int_times::<R>(p, e);
    lemma_int_times::<R>(r, d);
    lemma_recip(id);
    lemma_times_assoc(R::int_val(r), id, recip(id));
    lemma_times_one(R::int_val(r));
    lemma_whole_surd(s, (r, 0));
}

/// A quotient by an integer.
proof fn lemma_over_surd<R: Real>(v: R, s: R, u: (int, int), d: int)
    requires
        exact_field::<R>(),
        exact_integers::<R>(),
        d != 0,
        v == surd(s, u),
    ensures
        is_surd(v.over(R::int_val(d)), s, u, d),
{
    lemma_over(R::one_val(), R::one_val());
    lemma_int_nonzero::<R>(d);
    let id = R::int_val(d);
    lemma_quotient(v, id);
    lemma_times_swap(v, recip(id), id);
    lemma_recip(id);
    lemma_times_assoc(v, id, recip(id));
    lemma_times_one(v);
}

/// An integer less the root.
proof fn lemma_surd_less<R: Real>(s: R, a: int)
    requires
        exact_ring::<R>(),
        exact_integers::<R>(),
    ensures
        R::int_val(a).minus(s) == surd(s, (a, -1)),
        R::int_val(a).plus(s) == surd(s, (a, 1)),
{
    lemma_int_units::<R>();
    lemma_int_negated::<R>(1);
    lemma_times_one(s);
    lemma_times_comm(s, R::one_val());
    lemma_times_comm(R::int_val(-1), s);
    lemma_times_negated(s, R::one_val());
    lemma_minus(R::int_val(a), s);
}

/// One less twice a number.
proof fn lemma_surd_rest<R: Real>(v: R, s: R, u: (int, int), d: int)
    requires
        exact_ring::<R>(),
        exact_integers::<R>(),
        is_surd(v, s, u, d),
    ensures
        is_surd(
            R::one_val().minus(R::int_val(2).times(v)),
            s,
            (d - 2 * u.0, -(2 * u.1)),
            d,
        ),
{
    let (one, two, id) = (R::one_val(), R::int_val(2), R::int_val(d));
    let w = two.times(v);
    // (1 - w) d == d - 2 (v d)
    lemma_times_comm(one.minus(w), id);
    lemma_distribute_minus(id, one, w);
    lemma_times_one(id);
    lemma_times_comm(id, w);
    lemma_times_assoc(two, v, id);
    // 2 (u0 + u1 s) == 2 u0 + (2 u1) s
    let (u0, y) = (R::int_val(u.0), R::int_val(u.1).times(s));
    lemma_distribute(two, u0, y);
    lemma_int_times::<R>(2, u.0);
    lemma_int_times::<R>(2, u.1);
    lemma_times_assoc(two, R::int_val(u.1), s);
    let (g, h) = (R::int_val(2 * u.0), R::int_val(2 * u.1).times(s));
    assert(one.minus(w).times(id) == id.minus(g.plus(h)));
    // d - (g + h) == (d - g) + (-h)
    lemma_minus(id, g.plus(h));
    lemma_minus(id, g);
    lemma_int_minus::<R>(d, 2 * u.0);
    lemma_int_negated::<R>(2 * u.1);
    lemma_times_comm(R::int_val(-(2 * u.1)), s);
    lemma_times_comm(R::int_val(2 * u.1), s);
    lemma_times_negated(s, R::int_val(2 * u.1));
    lemma_negated_sum(g, h);
    lemma_plus_assoc(id, g.negated(), h.negated());
}

// ── sums in integers ────────────────────────────────────────────────────────

/// The product with a coordinate of one of the rules, spelled out.
spec fn stepped(n: int, u: (int, int), c: (int, int)) -> (int, int) {
    if c == (1int, 0int) {
        u
    } else if c == (2int, 0int) {
        (2 * u.0, 2 * u.1)
    } else if c == (3int, 0int) {
        (3 * u.0, 3 * u.1)
    } else if c == (4int, 0int) {
        (4 * u.0, 4 * u.1)
    } else if c == (5int, 0int) {
        (5 * u.0, 5 * u.1)
    } else if c == (6int, 0int) {
        (6 * u.0, 6 * u.1)
    } else if c == (7int, 0int) {
        (7 * u.0, 7 * u.1)
    } else if c == (9int, 0int) {
        (9 * u.0, 9 * u.1)
    } else if n == 15 && c == (6int, 1int) {
        (6 * u.0 + 15 * u.1, u.0 + 6 * u.1)
    } else if n == 15 && c == (6int, -1int) {
        (6 * u.0 - 15 * u.1, 6 * u.1 - u.0)
    } else if n == 15 && c == (9int, 2int) {
        (9 * u.0 + 30 * u.1, 2 * u.0 + 9 * u.1)
    } else if n == 15 && c == (9int, -2int) {
        (9 * u.0 - 30 * u.1, 9 * u.1 - 2 * u.0)
    } else if n == 5 && c == (5int, -1int) {
        (5 * u.0 - 5 * u.1, 5 * u.1 - u.0)
    } else if n == 5 && c == (5int, 3int) {
        (5 * u.0 + 15 * u.1, 3 * u.0 + 5 * u.1)
    } else {
        surd_product(n, u, c)
    }
}

/// The product is the product.
proof fn lemma_stepped(n: int, u: (int, int), c: (int, int))
    ensures
        stepped(n, u, c) == surd_product(n, u, c),
{
    lemma_stepped_parts(n, u.0, u.1, c.0, c.1);
}

proof fn lemma_stepped_parts(n: int, a: int, b: int, c: int, d: int)
    by (nonlinear_arith)
    ensures
        stepped(n, (a, b), (c, d)) == surd_product(n, (a, b), (c, d)),
{
}

/// Powers in integers: `u cᵏ`.
spec fn raised_pair(n: int, u: (int, int), c: (int, int), k: int) -> (int, int)
    decreases k,
{
    if k <= 0 {
        u
    } else {
        stepped(n, raised_pair(n, u, c, k - 1), c)
    }
}

/// Multiplication by the denominator of the coordinates of a rule, spelled out.
spec fn widened(d: int, e: int) -> int {
    if e == 3 {
        3 * d
    } else if e == 4 {
        4 * d
    } else if e == 6 {
        6 * d
    } else if e == 12 {
        12 * d
    } else if e == 15 {
        15 * d
    } else if e == 20 {
        20 * d
    } else if e == 21 {
        21 * d
    } else {
        e * d
    }
}

/// `d eᵏ`.
spec fn denominator(d: int, e: int, k: int) -> int
    decreases k,
{
    if k <= 0 {
        d
    } else {
        widened(denominator(d, e, k - 1), e)
    }
}

proof fn lemma_denominator_sum(d: int, e: int, j: int, k: int)
    requires
        0 <= j,
        0 <= k,
    ensures
        denominator(denominator(d, e, j), e, k) == denominator(d, e, j + k),
    decreases k,
{
    if k > 0 {
        lemma_denominator_sum(d, e, j, k - 1);
    }
}

proof fn lemma_denominator_positive(d: int, e: int, k: int)
    requires
        0 < d,
        0 < e,
    ensures
        0 < denominator(d, e, k),
    decreases k,
{
    if k > 0 {
        lemma_denominator_positive(d, e, k - 1);
        let p = denominator(d, e, k - 1);
        assert(0 < e * p) by (nonlinear_arith)
            requires
                0 < e,
                0 < p,
        ;
    }
}

/// Powers of a coordinate.
proof fn lemma_raised<R: Real>(
    v: R,
    x: R,
    s: R,
    n: int,
    u: (int, int),
    c: (int, int),
    d: int,
    e: int,
    k: int,
)
    requires
        exact_ring::<R>(),
        exact_integers::<R>(),
        s.times(s) == R::int_val(n),
        is_surd(v, s, u, d),
        is_surd(x, s, c, e),
    ensures
        is_surd(raised(v, x, k), s, raised_pair(n, u, c, k), denominator(d, e, k)),
    decreases k,
{
    if k > 0 {
        lemma_raised(v, x, s, n, u, c, d, e, k - 1);
        let (w, p) = (raised_pair(n, u, c, k - 1), denominator(d, e, k - 1));
        lemma_surd_times(raised(v, x, k - 1), x, s, n, w, c, p, e);
        lemma_stepped(n, w, c);
        assert(widened(p, e) == e * p) by (nonlinear_arith);
    }
}

/// Sums of pairs.
spec fn pair_sum(k: int, f: spec_fn(int) -> (int, int)) -> (int, int)
    decreases k,
{
    if k <= 0 {
        (0, 0)
    } else {
        let s = pair_sum(k - 1, f);
        (s.0 + f(k - 1).0, s.1 + f(k - 1).1)
    }
}

/// Sums of numbers over one denominator.
proof fn lemma_surd_sum<R: Real>(
    k: int,
    f: spec_fn(int) -> R,
    s: R,
    g: spec_fn(int) -> (int, int),
    d: int,
)
    requires
        exact_ring::<R>(),
        exact_integers::<R>(),
        forall|i: int| 0 <= i < k ==> is_surd(#[trigger] f(i), s, g(i), d),
    ensures
        is_surd(sum(k, f), s, pair_sum(k, g), d),
    decreases k,
{
    let id = R::int_val(d);
    lemma_int_units::<R>();
    if k <= 0 {
        lemma_times_zero(id);
        lemma_times_comm(id, R::zero_val());
        lemma_whole_surd(s, (0, 0));
    } else {
        lemma_surd_sum(k - 1, f, s, g, d);
        let (t, v) = (sum(k - 1, f), f(k - 1));
        lemma_times_comm(t.plus(v), id);
        lemma_distribute(id, t, v);
        lemma_times_comm(id, t);
        lemma_times_comm(id, v);
        lemma_surd_plus(s, pair_sum(k - 1, g), g(k - 1));
    }
}

/// Sums of numbers with a root.
proof fn lemma_surd_plus<R: Real>(s: R, u: (int, int), c: (int, int))
    requires
        exact_ring::<R>(),
        exact_integers::<R>(),
    ensures
        surd(s, u).plus(surd(s, c)) == surd(s, (u.0 + c.0, u.1 + c.1)),
{
    let (u0, u1) = (R::int_val(u.0), R::int_val(u.1));
    let (c0, c1) = (R::int_val(c.0), R::int_val(c.1));
    let (x, y) = (u1.times(s), c1.times(s));
    lemma_int_plus::<R>(u.0, c.0);
    lemma_int_plus::<R>(u.1, c.1);
    lemma_times_comm(u1.plus(c1), s);
    lemma_distribute(s, u1, c1);
    lemma_times_comm(s, u1);
    lemma_times_comm(s, c1);
    // (u0 + x) + (c0 + y) == (u0 + c0) + (x + y)
    lemma_plus_assoc(u0.plus(x), c0, y);
    lemma_plus_assoc(u0, x, c0);
    lemma_plus_comm(x, c0);
    lemma_plus_assoc(u0, c0, x);
    lemma_plus_assoc(u0.plus(c0), x, y);
}

/// A number without a root.
proof fn lemma_whole_surd<R: Real>(s: R, u: (int, int))
    requires
        exact_ring::<R>(),
        exact_integers::<R>(),
        u.1 == 0,
    ensures
        surd(s, u) == R::int_val(u.0),
{
    lemma_int_units::<R>();
    lemma_times_zero(s);
    lemma_times_comm(s, R::zero_val());
    lemma_int_plus::<R>(u.0, 0);
}

/// Products of three integers.
proof fn lemma_factors(a: int, b: int, c: int)
    ensures
        a * (b * c) == a * b * c,
{
    assert(a * (b * c) == a * b * c) by (nonlinear_arith);
}

// ── integrals ───────────────────────────────────────────────────────────────

/// Multiplication by a small number, spelled out.
pub open spec fn multiplied(n: int, v: int) -> int {
    if n == 2 {
        2 * v
    } else if n == 3 {
        3 * v
    } else if n == 4 {
        4 * v
    } else if n == 5 {
        5 * v
    } else if n == 6 {
        6 * v
    } else if n == 7 {
        7 * v
    } else {
        n * v
    }
}

/// `n! v`.
pub open spec fn arranged(n: int, v: int) -> int
    decreases n,
{
    if n <= 1 {
        v
    } else {
        multiplied(n, arranged(n - 1, v))
    }
}

pub(crate) proof fn lemma_arranged(n: int, v: int)
    ensures
        arranged(n, v) == factorial(n) * v,
        0 < factorial(n),
    decreases n,
{
    if n <= 1 {
        assert(1 * v == v);
    } else {
        lemma_arranged(n - 1, v);
        let f = factorial(n - 1);
        assert(multiplied(n, f * v) == n * f * v && 0 < n * f) by (nonlinear_arith)
            requires
                0 < f,
                1 < n,
        ;
    }
}

/// A number is known from its product with an integer.
pub(crate) proof fn lemma_from_product<R: Real>(v: R, m: int, d: int, num: int, den: int)
    requires
        exact_field::<R>(),
        exact_integers::<R>(),
        d != 0,
        den != 0,
        v.times(R::int_val(d)) == R::int_val(m),
        den * m == num * d,
    ensures
        v == ratio_val::<R>(num, den),
{
    lemma_over(R::one_val(), R::one_val());
    let (id, ie, im, ip) = (R::int_val(d), R::int_val(den), R::int_val(m), R::int_val(num));
    lemma_int_nonzero::<R>(d);
    lemma_int_nonzero::<R>(den);
    lemma_int_times::<R>(den, m);
    lemma_int_times::<R>(num, d);
    lemma_recip(id);
    lemma_recip(ie);
    // ip == (ie im) / id == (ie v)
    lemma_times_assoc(ip, id, recip(id));
    lemma_times_one(ip);
    lemma_times_assoc(ie, v, id);
    lemma_times_assoc(ie.times(v), id, recip(id));
    lemma_times_one(ie.times(v));
    assert(ip == ie.times(v));
    lemma_times_comm(ie, v);
    lemma_times_assoc(v, ie, recip(ie));
    lemma_times_one(v);
    lemma_quotient(ip, ie);
}

// ── the triangle ────────────────────────────────────────────────────────────

/// What stands under the root in the numbers of a rule.
spec fn tri_radicand(q: int) -> int {
    if q == 7 {
        15
    } else {
        0
    }
}

/// The root in the numbers of a rule.
spec fn tri_root<R: Real>(q: int) -> R {
    if q == 7 {
        R::int_val(15).root()
    } else {
        R::zero_val()
    }
}

/// Denominator of the coordinates.
spec fn tri_scale(q: int) -> int {
    if q == 1 {
        3
    } else if q == 3 {
        6
    } else if q == 4 {
        15
    } else {
        21
    }
}

/// Denominator of the weights.
spec fn tri_unit(q: int) -> int {
    if q == 1 {
        2
    } else if q == 3 {
        6
    } else if q == 4 {
        96
    } else {
        2400
    }
}

/// Numerator of a weight.
spec fn tri_weight(q: int, i: int) -> (int, int) {
    if q == 1 || q == 3 {
        (1, 0)
    } else if q == 4 {
        if i == 0 {
            (-27, 0)
        } else {
            (25, 0)
        }
    } else if i == 0 {
        (270, 0)
    } else if i < 4 {
        (155, 1)
    } else {
        (155, -1)
    }
}

/// Numerator of a coordinate of a point, `t` for the axis.
spec fn tri_coordinate(q: int, i: int, t: int) -> (int, int) {
    if q == 1 {
        (1, 0)
    } else if q == 3 {
        if i == t + 1 {
            (4, 0)
        } else {
            (1, 0)
        }
    } else if q == 4 {
        if i == 0 {
            (5, 0)
        } else if i == t + 2 {
            (9, 0)
        } else {
            (3, 0)
        }
    } else if i == 0 {
        (7, 0)
    } else if i < 4 {
        if i == t + 2 {
            (9, -2)
        } else {
            (6, 1)
        }
    } else if i == t + 5 {
        (9, 2)
    } else {
        (6, -1)
    }
}

/// The numerators are those of the rule.
proof fn lemma_tri_numerators<R: Real>(q: int, i: int)
    requires
        exact_field::<R>(),
        exact_integers::<R>(),
        0 <= tri_degree(q),
        0 <= i < q,
    ensures
        ({
            let s = tri_root::<R>(q);
            let (m, w) = (tri_scale(q), tri_unit(q));
            &&& is_surd(tri_rule_weights::<R>(q)[i], s, tri_weight(q, i), w)
            &&& is_surd(tri_rule_points::<R>(q)[2 * i], s, tri_coordinate(q, i, 0), m)
            &&& is_surd(tri_rule_points::<R>(q)[2 * i + 1], s, tri_coordinate(q, i, 1), m)
        }),
{
    lemma_over(R::one_val(), R::one_val());
    let s = tri_root::<R>(q);
    if q == 1 {
        lemma_ratio_surd(1, 2, s, 1, 2);
        lemma_ratio_surd(1, 3, s, 1, 3);
    } else if q == 3 {
        lemma_ratio_surd(1, 6, s, 1, 6);
        lemma_ratio_surd(2, 3, s, 4, 6);
    } else if q == 4 {
        lemma_ratio_surd(-27, 96, s, -27, 96);
        lemma_ratio_surd(25, 96, s, 25, 96);
        lemma_ratio_surd(1, 3, s, 5, 15);
        lemma_ratio_surd(1, 5, s, 3, 15);
        lemma_ratio_surd(3, 5, s, 9, 15);
    } else {
        lemma_ratio_surd(9, 80, s, 270, 2400);
        lemma_ratio_surd(1, 3, s, 7, 21);
        lemma_surd_less(s, 6);
        lemma_surd_less(s, 155);
        let (less, more) = (R::int_val(6).minus(s), R::int_val(6).plus(s));
        let d = R::int_val(21);
        lemma_over_surd(less, s, (6, -1), 21);
        lemma_over_surd(more, s, (6, 1), 21);
        lemma_surd_rest(less.over(d), s, (6, -1), 21);
        lemma_surd_rest(more.over(d), s, (6, 1), 21);
        lemma_over_surd(R::int_val(155).minus(s), s, (155, -1), 2400);
        lemma_over_surd(R::int_val(155).plus(s), s, (155, 1), 2400);
    }
}

/// Numerators of the weighted values of a monomial.
spec fn tri_numerators(q: int, a: int, b: int) -> spec_fn(int) -> (int, int) {
    |i: int|
        raised_pair(
            tri_radicand(q),
            raised_pair(tri_radicand(q), tri_weight(q, i), tri_coordinate(q, i, 0), a),
            tri_coordinate(q, i, 1),
            b,
        )
}

/// The rule integrates a monomial exactly, in integers.
spec fn tri_exact(q: int, a: int, b: int) -> bool {
    let t = pair_sum(q, tri_numerators(q, a, b));
    let d = denominator(tri_unit(q), tri_scale(q), a + b);
    t.1 == 0 && arranged(a + b + 2, t.0) == arranged(a, arranged(b, d))
}

// The conditions are evaluated monomial by monomial.

#[verifier::rlimit(100)]
#[verifier::spinoff_prover]
proof fn lemma_tri_exact_1(a: int, b: int)
    requires
        0 <= a,
        0 <= b,
        a + b <= 1,
    ensures
        tri_exact(1, a, b),
{
    reveal_with_fuel(raised_pair, 2);
    reveal_with_fuel(denominator, 2);
    reveal_with_fuel(pair_sum, 2);
    reveal_with_fuel(arranged, 3);
    assert(tri_exact(1, 0, 0));
    assert(tri_exact(1, 0, 1));
    assert(tri_exact(1, 1, 0));
}

#[verifier::rlimit(100)]
#[verifier::spinoff_prover]
proof fn lemma_tri_exact_3(a: int, b: int)
    requires
        0 <= a,
        0 <= b,
        a + b <= 2,
    ensures
        tri_exact(3, a, b),
{
    reveal_with_fuel(raised_pair, 3);
    reveal_with_fuel(denominator, 3);
    reveal_with_fuel(pair_sum, 4);
    reveal_with_fuel(arranged, 4);
    assert(tri_exact(3, 0, 0));
    assert(tri_exact(3, 0, 1));
    assert(tri_exact(3, 0, 2));
    assert(tri_exact(3, 1, 0));
    assert(tri_exact(3, 1, 1));
    assert(tri_exact(3, 2, 0));
}

#[verifier::rlimit(100)]
#[verifier::spinoff_prover]
proof fn lemma_tri_exact_4(a: int, b: int)
    requires
        0 <= a,
        0 <= b,
        a + b <= 3,
    ensures
        tri_exact(4, a, b),
{
    reveal_with_fuel(raised_pair, 4);
    reveal_with_fuel(denominator, 4);
    reveal_with_fuel(pair_sum, 5);
    reveal_with_fuel(arranged, 5);
    assert(tri_exact(4, 0, 0));
    assert(tri_exact(4, 0, 1));
    assert(tri_exact(4, 0, 2));
    assert(tri_exact(4, 0, 3));
    assert(tri_exact(4, 1, 0));
    assert(tri_exact(4, 1, 1));
    assert(tri_exact(4, 1, 2));
    assert(tri_exact(4, 2, 0));
    assert(tri_exact(4, 2, 1));
    assert(tri_exact(4, 3, 0));
}

#[verifier::rlimit(100)]
#[verifier::spinoff_prover]
proof fn lemma_tri_exact_7(a: int, b: int)
    requires
        0 <= a,
        0 <= b,
        a + b <= 5,
    ensures
        tri_exact(7, a, b),
{
    reveal_with_fuel(raised_pair, 6);
    reveal_with_fuel(denominator, 6);
    reveal_with_fuel(pair_sum, 8);
    reveal_with_fuel(arranged, 7);
    assert(tri_exact(7, 0, 0));
    assert(tri_exact(7, 0, 1));
    assert(tri_exact(7, 0, 2));
    assert(tri_exact(7, 0, 3));
    assert(tri_exact(7, 0, 4));
    assert(tri_exact(7, 0, 5));
    assert(tri_exact(7, 1, 0));
    assert(tri_exact(7, 1, 1));
    assert(tri_exact(7, 1, 2));
    assert(tri_exact(7, 1, 3));
    assert(tri_exact(7, 1, 4));
    assert(tri_exact(7, 2, 0));
    assert(tri_exact(7, 2, 1));
    assert(tri_exact(7, 2, 2));
    assert(tri_exact(7, 2, 3));
    assert(tri_exact(7, 3, 0));
    assert(tri_exact(7, 3, 1));
    assert(tri_exact(7, 3, 2));
    assert(tri_exact(7, 4, 0));
    assert(tri_exact(7, 4, 1));
    assert(tri_exact(7, 5, 0));
}

/// A rule on the triangle integrates the monomials up to its degree exactly: the integral of
/// `xᵃ yᵇ` over the reference triangle is `a! b! / (a + b + 2)!`.
pub proof fn law_tri_rules_are_exact<R: Real>(q: int, a: int, b: int)
    requires
        exact_field::<R>(),
        exact_integers::<R>(),
        q == 7 ==> root_is_exact::<R>(15),
        0 <= a,
        0 <= b,
        a + b <= tri_degree(q),
    ensures
        sum(q, plane_moments(tri_rule_points::<R>(q), tri_rule_weights::<R>(q), a, b))
            == ratio_val::<R>(factorial(a) * factorial(b), factorial(a + b + 2)),
{
    lemma_over(R::one_val(), R::one_val());
    lemma_int_units::<R>();
    lemma_times_zero(R::zero_val());
    let (points, weights) = (tri_rule_points::<R>(q), tri_rule_weights::<R>(q));
    let (f, g) = (plane_moments(points, weights, a, b), tri_numerators(q, a, b));
    let (s, n) = (tri_root::<R>(q), tri_radicand(q));
    let (w, m) = (tri_unit(q), tri_scale(q));
    let d = denominator(w, m, a + b);
    assert forall|i: int| 0 <= i < q implies is_surd(#[trigger] f(i), s, g(i), d) by {
        lemma_tri_numerators::<R>(q, i);
        let (v, u) = (weights[i], tri_weight(q, i));
        let (x, y) = (points[2 * i], points[2 * i + 1]);
        let (cx, cy) = (tri_coordinate(q, i, 0), tri_coordinate(q, i, 1));
        lemma_raised(v, x, s, n, u, cx, w, m, a);
        let (vx, ux, dx) = (raised(v, x, a), raised_pair(n, u, cx, a), denominator(w, m, a));
        lemma_raised(vx, y, s, n, ux, cy, dx, m, b);
        lemma_denominator_sum(w, m, a, b);
    }
    lemma_surd_sum(q, f, s, g, d);
    if q == 1 {
        lemma_tri_exact_1(a, b);
    } else if q == 3 {
        lemma_tri_exact_3(a, b);
    } else if q == 4 {
        lemma_tri_exact_4(a, b);
    } else {
        lemma_tri_exact_7(a, b);
    }
    let t = pair_sum(q, g);
    lemma_whole_surd(s, t);
    lemma_denominator_positive(w, m, a + b);
    lemma_arranged(a + b + 2, t.0);
    lemma_arranged(b, d);
    lemma_arranged(a, arranged(b, d));
    lemma_factors(factorial(a), factorial(b), d);
    lemma_from_product(sum(q, f), t.0, d, factorial(a) * factorial(b), factorial(a + b + 2));
}

// ── the tetrahedron ─────────────────────────────────────────────────────────

/// What stands under the root in the numbers of a rule.
spec fn tet_radicand(q: int) -> int {
    if q == 4 {
        5
    } else {
        0
    }
}

/// The root in the numbers of a rule.
spec fn tet_root<R: Real>(q: int) -> R {
    if q == 4 {
        R::int_val(5).root()
    } else {
        R::zero_val()
    }
}

/// Denominator of the coordinates.
spec fn tet_scale(q: int) -> int {
    if q == 1 {
        4
    } else if q == 4 {
        20
    } else {
        12
    }
}

/// Denominator of the weights.
spec fn tet_unit(q: int) -> int {
    if q == 1 {
        6
    } else if q == 4 {
        24
    } else {
        120
    }
}

/// Numerator of a weight.
spec fn tet_weight(q: int, i: int) -> (int, int) {
    if q == 1 || q == 4 {
        (1, 0)
    } else if i == 0 {
        (-16, 0)
    } else {
        (9, 0)
    }
}

/// Numerator of a coordinate of a point, `t` for the axis.
spec fn tet_coordinate(q: int, i: int, t: int) -> (int, int) {
    if q == 1 {
        (1, 0)
    } else if q == 4 {
        if i == t + 1 {
            (5, 3)
        } else {
            (5, -1)
        }
    } else if i == 0 {
        (3, 0)
    } else if i == t + 2 {
        (6, 0)
    } else {
        (2, 0)
    }
}

/// The numerators are those of the rule.
proof fn lemma_tet_numerators<R: Real>(q: int, i: int)
    requires
        exact_field::<R>(),
        exact_integers::<R>(),
        0 <= tet_degree(q),
        0 <= i < q,
    ensures
        ({
            let s = tet_root::<R>(q);
            let (m, w) = (tet_scale(q), tet_unit(q));
            &&& is_surd(tet_rule_weights::<R>(q)[i], s, tet_weight(q, i), w)
            &&& is_surd(tet_rule_points::<R>(q)[3 * i], s, tet_coordinate(q, i, 0), m)
            &&& is_surd(tet_rule_points::<R>(q)[3 * i + 1], s, tet_coordinate(q, i, 1), m)
            &&& is_surd(tet_rule_points::<R>(q)[3 * i + 2], s, tet_coordinate(q, i, 2), m)
        }),
{
    lemma_over(R::one_val(), R::one_val());
    let s = tet_root::<R>(q);
    if q == 1 {
        lemma_ratio_surd(1, 6, s, 1, 6);
        lemma_ratio_surd(1, 4, s, 1, 4);
    } else if q == 4 {
        lemma_ratio_surd(1, 24, s, 1, 24);
        lemma_surd_less(s, 5);
        lemma_over_surd(R::int_val(5).minus(s), s, (5, -1), 20);
        lemma_over_surd(R::int_val(5).plus(R::int_val(3).times(s)), s, (5, 3), 20);
    } else {
        lemma_ratio_surd(-4, 30, s, -16, 120);
        lemma_ratio_surd(9, 120, s, 9, 120);
        lemma_ratio_surd(1, 4, s, 3, 12);
        lemma_ratio_surd(1, 6, s, 2, 12);
        lemma_ratio_surd(1, 2, s, 6, 12);
    }
}

/// Numerators of the weighted values of a monomial.
spec fn tet_numerators(q: int, a: int, b: int, c: int) -> spec_fn(int) -> (int, int) {
    |i: int|
        raised_pair(
            tet_radicand(q),
            raised_pair(
                tet_radicand(q),
                raised_pair(tet_radicand(q), tet_weight(q, i), tet_coordinate(q, i, 0), a),
                tet_coordinate(q, i, 1),
                b,
            ),
            tet_coordinate(q, i, 2),
            c,
        )
}

/// The rule integrates a monomial exactly, in integers.
spec fn tet_exact(q: int, a: int, b: int, c: int) -> bool {
    let t = pair_sum(q, tet_numerators(q, a, b, c));
    let d = denominator(tet_unit(q), tet_scale(q), a + b + c);
    t.1 == 0 && arranged(a + b + c + 3, t.0) == arranged(a, arranged(b, arranged(c, d)))
}

// The conditions are evaluated monomial by monomial.

#[verifier::rlimit(100)]
#[verifier::spinoff_prover]
proof fn lemma_tet_exact_1(a: int, b: int, c: int)
    requires
        0 <= a,
        0 <= b,
        0 <= c,
        a + b + c <= 1,
    ensures
        tet_exact(1, a, b, c),
{
    reveal_with_fuel(raised_pair, 2);
    reveal_with_fuel(denominator, 2);
    reveal_with_fuel(pair_sum, 2);
    reveal_with_fuel(arranged, 4);
    assert(tet_exact(1, 0, 0, 0));
    assert(tet_exact(1, 0, 0, 1));
    assert(tet_exact(1, 0, 1, 0));
    assert(tet_exact(1, 1, 0, 0));
}

#[verifier::rlimit(100)]
#[verifier::spinoff_prover]
proof fn lemma_tet_exact_4(a: int, b: int, c: int)
    requires
        0 <= a,
        0 <= b,
        0 <= c,
        a + b + c <= 2,
    ensures
        tet_exact(4, a, b, c),
{
    reveal_with_fuel(raised_pair, 3);
    reveal_with_fuel(denominator, 3);
    reveal_with_fuel(pair_sum, 5);
    reveal_with_fuel(arranged, 5);
    assert(tet_exact(4, 0, 0, 0));
    assert(tet_exact(4, 0, 0, 1));
    assert(tet_exact(4, 0, 0, 2));
    assert(tet_exact(4, 0, 1, 0));
    assert(tet_exact(4, 0, 1, 1));
    assert(tet_exact(4, 0, 2, 0));
    assert(tet_exact(4, 1, 0, 0));
    assert(tet_exact(4, 1, 0, 1));
    assert(tet_exact(4, 1, 1, 0));
    assert(tet_exact(4, 2, 0, 0));
}

#[verifier::rlimit(100)]
#[verifier::spinoff_prover]
proof fn lemma_tet_exact_5(a: int, b: int, c: int)
    requires
        0 <= a,
        0 <= b,
        0 <= c,
        a + b + c <= 3,
    ensures
        tet_exact(5, a, b, c),
{
    reveal_with_fuel(raised_pair, 4);
    reveal_with_fuel(denominator, 4);
    reveal_with_fuel(pair_sum, 6);
    reveal_with_fuel(arranged, 6);
    assert(tet_exact(5, 0, 0, 0));
    assert(tet_exact(5, 0, 0, 1));
    assert(tet_exact(5, 0, 0, 2));
    assert(tet_exact(5, 0, 0, 3));
    assert(tet_exact(5, 0, 1, 0));
    assert(tet_exact(5, 0, 1, 1));
    assert(tet_exact(5, 0, 1, 2));
    assert(tet_exact(5, 0, 2, 0));
    assert(tet_exact(5, 0, 2, 1));
    assert(tet_exact(5, 0, 3, 0));
    assert(tet_exact(5, 1, 0, 0));
    assert(tet_exact(5, 1, 0, 1));
    assert(tet_exact(5, 1, 0, 2));
    assert(tet_exact(5, 1, 1, 0));
    assert(tet_exact(5, 1, 1, 1));
    assert(tet_exact(5, 1, 2, 0));
    assert(tet_exact(5, 2, 0, 0));
    assert(tet_exact(5, 2, 0, 1));
    assert(tet_exact(5, 2, 1, 0));
    assert(tet_exact(5, 3, 0, 0));
}

/// A rule on the tetrahedron integrates the monomials up to its degree exactly: the integral of
/// `xᵃ yᵇ zᶜ` over the reference tetrahedron is `a! b! c! / (a + b + c + 3)!`.
pub proof fn law_tet_rules_are_exact<R: Real>(q: int, a: int, b: int, c: int)
    requires
        exact_field::<R>(),
        exact_integers::<R>(),
        q == 4 ==> root_is_exact::<R>(5),
        0 <= a,
        0 <= b,
        0 <= c,
        a + b + c <= tet_degree(q),
    ensures
        sum(q, space_moments(tet_rule_points::<R>(q), tet_rule_weights::<R>(q), a, b, c))
            == ratio_val::<R>(
            factorial(a) * (factorial(b) * factorial(c)),
            factorial(a + b + c + 3),
        ),
{
    lemma_over(R::one_val(), R::one_val());
    lemma_int_units::<R>();
    lemma_times_zero(R::zero_val());
    let (points, weights) = (tet_rule_points::<R>(q), tet_rule_weights::<R>(q));
    let (f, g) = (space_moments(points, weights, a, b, c), tet_numerators(q, a, b, c));
    let (s, n) = (tet_root::<R>(q), tet_radicand(q));
    let (w, m) = (tet_unit(q), tet_scale(q));
    let d = denominator(w, m, a + b + c);
    assert forall|i: int| 0 <= i < q implies is_surd(#[trigger] f(i), s, g(i), d) by {
        lemma_tet_numerators::<R>(q, i);
        let (v, u) = (weights[i], tet_weight(q, i));
        let (x, y, z) = (points[3 * i], points[3 * i + 1], points[3 * i + 2]);
        let (cx, cy) = (tet_coordinate(q, i, 0), tet_coordinate(q, i, 1));
        lemma_raised(v, x, s, n, u, cx, w, m, a);
        let (vx, ux, dx) = (raised(v, x, a), raised_pair(n, u, cx, a), denominator(w, m, a));
        lemma_raised(vx, y, s, n, ux, cy, dx, m, b);
        let (vy, uy, dy) = (raised(vx, y, b), raised_pair(n, ux, cy, b), denominator(dx, m, b));
        lemma_raised(vy, z, s, n, uy, tet_coordinate(q, i, 2), dy, m, c);
        lemma_denominator_sum(w, m, a, b);
        lemma_denominator_sum(w, m, a + b, c);
    }
    lemma_surd_sum(q, f, s, g, d);
    if q == 1 {
        lemma_tet_exact_1(a, b, c);
    } else if q == 4 {
        lemma_tet_exact_4(a, b, c);
    } else {
        lemma_tet_exact_5(a, b, c);
    }
    let t = pair_sum(q, g);
    lemma_whole_surd(s, t);
    lemma_denominator_positive(w, m, a + b + c);
    lemma_arranged(a + b + c + 3, t.0);
    lemma_arranged(c, d);
    lemma_arranged(b, arranged(c, d));
    lemma_arranged(a, arranged(b, arranged(c, d)));
    lemma_factors(factorial(b), factorial(c), d);
    lemma_factors(factorial(a), factorial(b) * factorial(c), d);
    lemma_from_product(
        sum(q, f),
        t.0,
        d,
        factorial(a) * (factorial(b) * factorial(c)),
        factorial(a + b + c + 3),
    );
}

// ── products of rules ───────────────────────────────────────────────────────

/// The weights of the tensor-product points add up to the power of the sum of the weights along
/// one axis.
pub proof fn law_tensor_weights_multiply<R: Real>(weights: Seq<R>)
    requires
        exact_ring::<R>(),
        1 <= weights.len(),
    ensures
        ({
            let q = weights.len() as int;
            let s = sum(q, entries(weights));
            &&& sum(q, entries(tensor_weights(weights, q, 1))) == s
            &&& sum(q * q, entries(tensor_weights(weights, q * q, 2))) == s.times(s)
            &&& sum(q * q * q, entries(tensor_weights(weights, q * q * q, 3))) == s.times(s).times(
                s,
            )
        }),
{
    let q = weights.len() as int;
    let (n, m) = (q * q, q * q * q);
    lemma_mul_le(0, q, 0, q);
    lemma_mul_le(0, n, 0, q);
    let w = entries(weights);
    let (line, plane, space) = (
        entries(tensor_weights(weights, q, 1)),
        entries(tensor_weights(weights, n, 2)),
        entries(tensor_weights(weights, m, 3)),
    );
    lemma_sum_ext(q, line, w);
    assert forall|t: int| 0 <= t < n implies #[trigger] plane(t) == w(t / q).times(w(t % q)) by {
        lemma_split(t, q, q);
        lemma_times_comm(weights[t % q], weights[t / q]);
    }
    lemma_sum_product(q, q, w, w, plane);
    assert forall|t: int| 0 <= t < m implies #[trigger] space(t) == plane(t / q).times(w(t % q)) by {
        lemma_split(t, n, q);
        let j = t / q;
        lemma_split(j, q, q);
        let (a, b, c) = (weights[t % q], weights[j % q], weights[j / q]);
        lemma_times_assoc(a, b, c);
        lemma_times_comm(a, b.times(c));
    }
    lemma_sum_product(n, q, plane, w, space);
}

} // verus!
