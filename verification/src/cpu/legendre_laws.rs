//! Laws of the Legendre polynomials and of the one-dimensional rules built on them.

use vstd::prelude::*;

#[allow(unused_imports)]
use crate::cpu::quadrature::{
    gauss_newton, legendre_slope, legendre_value, lobatto_newton, tolerance,
};
#[allow(unused_imports)]
use crate::exact::{
    exact_integers, lemma_distribute_minus, lemma_int_minus, lemma_int_nonzero, lemma_int_plus,
    lemma_int_times, lemma_int_units, lemma_minus_flip, lemma_minus_plus, lemma_minus_zero,
    lemma_negated_sum, lemma_negated_twice, lemma_plus_swap, lemma_quotient, recip,
};
use crate::scalar::Real;
#[allow(unused_imports)]
use crate::scalar::{
    exact_field, exact_ring, lemma_distribute, lemma_minus, lemma_negated, lemma_over,
    lemma_plus_assoc, lemma_plus_comm, lemma_plus_cross, lemma_plus_zero, lemma_times_assoc,
    lemma_times_comm, lemma_times_negated, lemma_times_one, lemma_times_zero,
};

verus! {

// ── polynomials ─────────────────────────────────────────────────────────────

/// The Legendre polynomials begin with `1` and `x`, and
/// `(k + 1) P(k + 1) + k P(k − 1) = (2 k + 1) x P(k)`.
pub proof fn law_legendre_recurrence<R: Real>(k: int, x: R)
    requires
        exact_field::<R>(),
        exact_integers::<R>(),
        1 <= k,
    ensures
        legendre_value(0, x) == R::one_val(),
        legendre_value(1, x) == x,
        R::int_val(k + 1).times(legendre_value(k + 1, x)).plus(
            R::int_val(k).times(legendre_value(k - 1, x)),
        ) == R::int_val(2 * k + 1).times(x).times(legendre_value(k, x)),
{
    let kf = R::int_val(k + 1);
    let a = R::int_val(2).times(kf).minus(R::one_val());
    let b = kf.minus(R::one_val());
    lemma_over(R::one_val(), kf);
    lemma_int_units::<R>();
    lemma_int_times::<R>(2, k + 1);
    lemma_int_minus::<R>(2 * (k + 1), 1);
    lemma_int_minus::<R>(k + 1, 1);
    lemma_int_nonzero::<R>(k + 1);
    assert(a == R::int_val(2 * k + 1));
    assert(b == R::int_val(k));
    let top = a.times(x).times(legendre_value(k, x));
    let low = b.times(legendre_value(k - 1, x));
    let next = legendre_value(k + 1, x);
    assert(next == top.minus(low).over(kf));
    lemma_quotient(top.minus(low), kf);
    lemma_times_comm(kf, next);
    lemma_minus_plus(top, low);
}

/// Every Legendre polynomial is one at the right end of the interval.
pub proof fn law_legendre_at_one<R: Real>(n: int)
    requires
        exact_field::<R>(),
        exact_integers::<R>(),
    ensures
        legendre_value(n, R::one_val()) == R::one_val(),
    decreases n,
{
    let one = R::one_val();
    lemma_over(one, one);
    if n >= 2 {
        let k = n - 1;
        law_legendre_at_one::<R>(n - 1);
        law_legendre_at_one::<R>(n - 2);
        law_legendre_recurrence(k, one);
        let (a, c) = (R::int_val(n), R::int_val(k));
        let v = legendre_value(n, one);
        lemma_times_one(c);
        lemma_times_one(R::int_val(2 * k + 1));
        lemma_int_plus::<R>(n, k);
        // a v + c == a + c
        lemma_minus_plus(a.times(v), c);
        lemma_minus_plus(a, c);
        assert(a.times(v) == a);
        lemma_int_nonzero::<R>(n);
        lemma_quotient(v, a);
        lemma_quotient(a, a);
        lemma_times_comm(a, v);
    }
}

/// `x` or `−x`.
pub open spec fn signed<R: Real>(negative: bool, x: R) -> R {
    if negative {
        x.negated()
    } else {
        x
    }
}

/// A sign moves out of a product.
pub(crate) proof fn lemma_signed_times<R: Real>(s: bool, a: R, b: R)
    requires
        exact_ring::<R>(),
    ensures
        a.times(signed(s, b)) == signed(s, a.times(b)),
        signed(s, a).times(b) == signed(s, a.times(b)),
        signed(s, a).times(signed(s, b)) == a.times(b),
        signed(!s, a) == signed(s, a).negated(),
{
    lemma_times_negated(a, b);
    lemma_times_negated(a, b.negated());
    lemma_negated_twice(a.times(b));
    lemma_negated_twice(a);
}

/// Signs move out of a difference.
pub(crate) proof fn lemma_signed_minus<R: Real>(s: bool, a: R, b: R)
    requires
        exact_ring::<R>(),
    ensures
        signed(s, a).minus(signed(s, b)) == signed(s, a.minus(b)),
{
    lemma_minus(a.negated(), b.negated());
    lemma_minus(a, b);
    lemma_negated_sum(a, b.negated());
}

/// The Legendre polynomials of even degree are even, those of odd degree odd.
pub proof fn law_legendre_parity<R: Real>(n: int, x: R)
    requires
        exact_field::<R>(),
        exact_integers::<R>(),
        0 <= n,
    ensures
        legendre_value(n, x.negated()) == signed(n % 2 == 1, legendre_value(n, x)),
    decreases n,
{
    if n >= 2 {
        let s = n % 2 == 1;
        law_legendre_parity(n - 1, x);
        law_legendre_parity(n - 2, x);
        assert((n - 2) % 2 == n % 2);
        assert(((n - 1) % 2 == 1) == !s);
        let kf = R::int_val(n);
        lemma_over(R::one_val(), kf);
        let a = R::int_val(2).times(kf).minus(R::one_val());
        let b = kf.minus(R::one_val());
        let (p, q) = (legendre_value(n - 1, x), legendre_value(n - 2, x));
        // a (−x) (∓p) == ± a x p
        lemma_times_negated(a, x);
        lemma_signed_times(!s, a.times(x).negated(), p);
        lemma_times_negated(a.times(x), p);
        lemma_signed_times(s, a.times(x), p);
        lemma_negated_twice(a.times(x).times(p));
        assert(a.times(x.negated()).times(signed(!s, p)) == signed(s, a.times(x).times(p)));
        lemma_signed_times(s, b, q);
        lemma_signed_minus(s, a.times(x).times(p), b.times(q));
        let t = a.times(x).times(p).minus(b.times(q));
        lemma_over(signed(s, t), kf);
        lemma_over(t, kf);
        lemma_signed_times(s, t, recip(kf));
    }
}

// ── derivatives ─────────────────────────────────────────────────────────────

/// Derivative of the Legendre polynomial of degree `k`: the recurrence
/// `k P(k) = (2 k − 1) x P(k − 1) − (k − 1) P(k − 2)`, differentiated.
pub open spec fn legendre_derivative<R: Real>(k: int, x: R) -> R
    decreases k,
{
    if k <= 0 {
        R::zero_val()
    } else if k == 1 {
        R::one_val()
    } else {
        R::int_val(2 * k - 1).times(
            legendre_value(k - 1, x).plus(x.times(legendre_derivative(k - 1, x))),
        ).minus(R::int_val(k - 1).times(legendre_derivative(k - 2, x))).over(R::int_val(k))
    }
}

/// `(k + m) (p + u) − m e == k (k p + u)` where `u − e == m p` and `k + m + m m == k k`.
proof fn lemma_collect<R: Real>(k: R, m: R, p: R, u: R, e: R)
    requires
        exact_ring::<R>(),
        u.minus(e) == m.times(p),
        k.plus(m).plus(m.times(m)) == k.times(k),
    ensures
        k.plus(m).times(p.plus(u)).minus(m.times(e)) == k.times(k.times(p).plus(u)),
{
    let s = k.plus(m);
    // s (p + u) == s p + (k u + m u)
    lemma_distribute(s, p, u);
    lemma_distribute(u, k, m);
    lemma_times_comm(u, s);
    lemma_times_comm(u, k);
    lemma_times_comm(u, m);
    let (sp, ku, mu, me) = (s.times(p), k.times(u), m.times(u), m.times(e));
    // (sp + (ku + mu)) − me == (sp + ku) + (mu − me)
    lemma_plus_assoc(sp, ku, mu);
    lemma_minus(sp.plus(ku).plus(mu), me);
    lemma_plus_assoc(sp.plus(ku), mu, me.negated());
    lemma_minus(mu, me);
    lemma_distribute_minus(m, u, e);
    // mu − me == m (m p)
    lemma_times_assoc(m, m, p);
    let mmp = m.times(m).times(p);
    assert(mu.minus(me) == mmp);
    // (sp + ku) + mmp == (sp + mmp) + ku == k k p + ku
    lemma_plus_swap(sp, ku, mmp);
    lemma_distribute(p, s, m.times(m));
    lemma_times_comm(p, s);
    lemma_times_comm(p, m.times(m));
    lemma_times_comm(p, k.times(k));
    lemma_times_assoc(k, k, p);
    lemma_distribute(k, k.times(p), u);
}

/// The relations between neighbouring polynomials and their derivatives.
pub(crate) proof fn lemma_derivative_relations<R: Real>(k: int, x: R)
    requires
        exact_field::<R>(),
        exact_integers::<R>(),
        1 <= k,
    ensures
        x.times(legendre_derivative(k, x)).minus(legendre_derivative(k - 1, x)) == R::int_val(
            k,
        ).times(legendre_value(k, x)),
        legendre_derivative(k, x) == R::int_val(k).times(legendre_value(k - 1, x)).plus(
            x.times(legendre_derivative(k - 1, x)),
        ),
        x.times(x).minus(R::one_val()).times(legendre_derivative(k, x)) == R::int_val(k).times(
            x.times(legendre_value(k, x)).minus(legendre_value(k - 1, x)),
        ),
    decreases k,
{
    let one = R::one_val();
    lemma_over(one, one);
    lemma_int_units::<R>();
    if k == 1 {
        lemma_times_one(x);
        lemma_times_one(one);
        lemma_times_zero(x);
        lemma_plus_zero(one);
        lemma_minus_zero(x, R::zero_val());
        lemma_minus_plus(x, R::zero_val());
        lemma_plus_zero(x);
        lemma_plus_zero(x.minus(R::zero_val()));
        lemma_times_one(x.times(x).minus(one));
    } else {
        lemma_derivative_relations(k - 1, x);
        let (d, c, e) = (
            legendre_derivative(k, x),
            legendre_derivative(k - 1, x),
            legendre_derivative(k - 2, x),
        );
        let (p, q, r) = (
            legendre_value(k, x),
            legendre_value(k - 1, x),
            legendre_value(k - 2, x),
        );
        let (kf, m) = (R::int_val(k), R::int_val(k - 1));
        let u = x.times(c);
        // the middle relation
        lemma_int_plus::<R>(k, k - 1);
        lemma_int_times::<R>(k - 1, k - 1);
        lemma_int_times::<R>(k, k);
        lemma_int_plus::<R>(2 * k - 1, (k - 1) * (k - 1));
        assert(2 * k - 1 + (k - 1) * (k - 1) == k * k) by (nonlinear_arith);
        lemma_collect(kf, m, q, u, e);
        let t = kf.times(q).plus(u);
        lemma_int_nonzero::<R>(k);
        lemma_times_comm(kf, t);
        lemma_quotient(t, kf);
        assert(d == t);
        // x d − c == k x q + (x x − 1) c
        lemma_distribute(x, kf.times(q), u);
        lemma_times_assoc(x, x, c);
        let xkq = x.times(kf.times(q));
        let xxc = x.times(x).times(c);
        lemma_minus(xkq.plus(xxc), c);
        lemma_plus_assoc(xkq, xxc, c.negated());
        lemma_minus(xxc, c);
        lemma_distribute_minus(c, x.times(x), one);
        lemma_times_one(c);
        assert(x.times(d).minus(c) == xkq.plus(x.times(x).minus(one).times(c)));
        // == k x q + m (x q − r) == (2 k − 1) x q − m r == k p
        let xq = x.times(q);
        lemma_times_assoc(x, kf, q);
        lemma_times_comm(x, kf);
        lemma_times_assoc(kf, x, q);
        assert(xkq == kf.times(xq));
        lemma_distribute_minus(m, xq, r);
        lemma_minus(m.times(xq), m.times(r));
        lemma_plus_assoc(kf.times(xq), m.times(xq), m.times(r).negated());
        lemma_distribute(xq, kf, m);
        lemma_times_comm(xq, kf.plus(m));
        lemma_times_comm(xq, kf);
        lemma_times_comm(xq, m);
        let f = R::int_val(2 * k - 1);
        lemma_minus(f.times(xq), m.times(r));
        assert(x.times(d).minus(c) == f.times(xq).minus(m.times(r)));
        law_legendre_recurrence(k - 1, x);
        lemma_times_assoc(f, x, q);
        assert(2 * (k - 1) + 1 == 2 * k - 1);
        lemma_minus_plus(kf.times(p), m.times(r));
        assert(x.times(d).minus(c) == kf.times(p));
        // (x x − 1) d == x (x d) − d == x (c + k p) − (k q + x c)
        lemma_distribute_minus(d, x.times(x), one);
        lemma_times_one(d);
        lemma_times_assoc(x, x, d);
        lemma_minus_plus(x.times(d), c);
        let kp = kf.times(p);
        let kq = kf.times(q);
        lemma_distribute(x, kp, c);
        assert(x.times(x).minus(one).times(d) == x.times(kp).plus(u).minus(kq.plus(u)));
        lemma_cancel(x.times(kp), kq, u);
        lemma_times_assoc(x, kf, p);
        lemma_times_assoc(kf, x, p);
        lemma_distribute_minus(kf, x.times(p), q);
    }
}

/// A term on both sides of a difference.
proof fn lemma_cancel<R: Real>(a: R, b: R, u: R)
    requires
        exact_ring::<R>(),
    ensures
        a.plus(u).minus(b.plus(u)) == a.minus(b),
{
    lemma_minus(a.plus(u), b.plus(u));
    lemma_negated_sum(b, u);
    lemma_plus_cross(a, u, b.negated(), u.negated());
    lemma_negated(u);
    lemma_plus_zero(a.plus(b.negated()));
    lemma_minus(a, b);
}

/// Away from the ends of the interval the slope is the derivative.
pub proof fn law_legendre_slope_is_derivative<R: Real>(n: int, x: R)
    requires
        exact_field::<R>(),
        exact_integers::<R>(),
        x.times(x) != R::one_val(),
    ensures
        legendre_slope(n, x) == legendre_derivative(n, x),
{
    if n >= 1 {
        let s = x.times(x).minus(R::one_val());
        lemma_over(R::one_val(), s);
        lemma_derivative_relations(n, x);
        lemma_minus_zero(x.times(x), R::one_val());
        lemma_times_comm(s, legendre_derivative(n, x));
        lemma_quotient(legendre_derivative(n, x), s);
    }
}

/// Second derivative of the Legendre polynomial of degree `k`: the recurrence differentiated twice.
pub open spec fn legendre_second<R: Real>(k: int, x: R) -> R
    decreases k,
{
    if k <= 1 {
        R::zero_val()
    } else {
        let d = legendre_derivative(k - 1, x);
        R::int_val(2 * k - 1).times(d.plus(d).plus(x.times(legendre_second(k - 1, x)))).minus(
            R::int_val(k - 1).times(legendre_second(k - 2, x)),
        ).over(R::int_val(k))
    }
}

/// `(k + m) (d + d + u) − m e == k ((k + 1) d + u)` where `u − e == (m − 1) d` and `k == m + 1`.
proof fn lemma_collect_second<R: Real>(k: int, d: R, u: R, e: R)
    requires
        exact_ring::<R>(),
        exact_integers::<R>(),
        u.minus(e) == R::int_val(k - 2).times(d),
    ensures
        R::int_val(2 * k - 1).times(d.plus(d).plus(u)).minus(R::int_val(k - 1).times(e))
            == R::int_val(k).times(R::int_val(k + 1).times(d).plus(u)),
{
    let (kf, m, s) = (R::int_val(k), R::int_val(k - 1), R::int_val(2 * k - 1));
    lemma_int_units::<R>();
    // d + d == 2 d, so s (d + d) == (4 k − 2) d
    let two = R::int_val(2);
    lemma_int_plus::<R>(1, 1);
    lemma_distribute(d, R::one_val(), R::one_val());
    lemma_times_one(d);
    lemma_times_comm(d, two);
    lemma_times_assoc(s, two, d);
    lemma_int_times::<R>(2 * k - 1, 2);
    let sd = R::int_val((2 * k - 1) * 2).times(d);
    assert(s.times(d.plus(d)) == sd);
    lemma_distribute(s, d.plus(d), u);
    // s u == k u + m u
    lemma_int_plus::<R>(k, k - 1);
    lemma_distribute(u, kf, m);
    lemma_times_comm(u, s);
    lemma_times_comm(u, kf);
    lemma_times_comm(u, m);
    let (ku, mu, me) = (kf.times(u), m.times(u), m.times(e));
    lemma_plus_assoc(sd, ku, mu);
    lemma_minus(sd.plus(ku).plus(mu), me);
    lemma_plus_assoc(sd.plus(ku), mu, me.negated());
    lemma_minus(mu, me);
    lemma_distribute_minus(m, u, e);
    lemma_times_assoc(m, R::int_val(k - 2), d);
    lemma_int_times::<R>(k - 1, k - 2);
    let md = R::int_val((k - 1) * (k - 2)).times(d);
    assert(mu.minus(me) == md);
    lemma_plus_swap(sd, ku, md);
    lemma_distribute(d, R::int_val((2 * k - 1) * 2), R::int_val((k - 1) * (k - 2)));
    lemma_times_comm(d, R::int_val((2 * k - 1) * 2));
    lemma_times_comm(d, R::int_val((k - 1) * (k - 2)));
    lemma_times_comm(d, R::int_val(k * (k + 1)));
    lemma_int_plus::<R>((2 * k - 1) * 2, (k - 1) * (k - 2));
    assert((2 * k - 1) * 2 + (k - 1) * (k - 2) == k * (k + 1)) by (nonlinear_arith);
    lemma_int_times::<R>(k, k + 1);
    lemma_times_assoc(kf, R::int_val(k + 1), d);
    lemma_distribute(kf, R::int_val(k + 1).times(d), u);
}

/// The relations between neighbouring derivatives.
proof fn lemma_second_relations<R: Real>(k: int, x: R)
    requires
        exact_field::<R>(),
        exact_integers::<R>(),
        1 <= k,
    ensures
        x.times(legendre_second(k, x)).minus(legendre_second(k - 1, x)) == R::int_val(k - 1).times(
            legendre_derivative(k, x),
        ),
        x.times(x).minus(R::one_val()).times(legendre_second(k, x)) == R::int_val(
            k * (k + 1),
        ).times(legendre_value(k, x)).minus(
            R::int_val(2).times(x).times(legendre_derivative(k, x)),
        ),
    decreases k,
{
    let (one, zero) = (R::one_val(), R::zero_val());
    lemma_over(one, one);
    lemma_int_units::<R>();
    if k == 1 {
        lemma_times_zero(x);
        lemma_times_zero(one);
        lemma_times_zero(x.times(x).minus(one));
        lemma_minus_zero(zero, zero);
        lemma_times_one(R::int_val(2).times(x));
        lemma_minus_zero(R::int_val(2).times(x), R::int_val(2).times(x));
        assert(1 * (1 + 1) == 2int);
    } else {
        lemma_second_relations(k - 1, x);
        lemma_derivative_relations(k, x);
        let (t, c, e) = (
            legendre_second(k, x),
            legendre_second(k - 1, x),
            legendre_second(k - 2, x),
        );
        let (d, b) = (legendre_derivative(k, x), legendre_derivative(k - 1, x));
        let (p, q) = (legendre_value(k, x), legendre_value(k - 1, x));
        let (kf, m, l) = (R::int_val(k), R::int_val(k - 1), R::int_val(k + 1));
        let u = x.times(c);
        lemma_collect_second::<R>(k, b, u, e);
        lemma_int_nonzero::<R>(k);
        lemma_times_comm(kf, l.times(b).plus(u));
        lemma_quotient(l.times(b).plus(u), kf);
        assert(t == l.times(b).plus(u));
        // x t − c == x l b + (x x − 1) c
        lemma_distribute(x, l.times(b), u);
        lemma_times_assoc(x, x, c);
        let (xlb, xxc) = (x.times(l.times(b)), x.times(x).times(c));
        lemma_minus(xlb.plus(xxc), c);
        lemma_plus_assoc(xlb, xxc, c.negated());
        lemma_minus(xxc, c);
        lemma_distribute_minus(c, x.times(x), one);
        lemma_times_one(c);
        let xb = x.times(b);
        lemma_times_assoc(x, l, b);
        lemma_times_comm(x, l);
        lemma_times_assoc(l, x, b);
        assert(x.times(t).minus(c) == l.times(xb).plus(x.times(x).minus(one).times(c)));
        // == l x b + (m k q − 2 x b) == m (x b + k q)
        let two = R::int_val(2);
        assert((k - 1) * (k - 1 + 1) == (k - 1) * k);
        lemma_int_times::<R>(k - 1, k);
        let mkq = R::int_val((k - 1) * k).times(q);
        lemma_times_assoc(m, kf, q);
        lemma_times_assoc(two, x, b);
        let txb = two.times(xb);
        lemma_minus(mkq, txb);
        lemma_plus_comm(mkq, txb.negated());
        lemma_plus_assoc(l.times(xb), txb.negated(), mkq);
        lemma_minus(l.times(xb), txb);
        lemma_distribute_minus(xb, l, two);
        lemma_times_comm(xb, l);
        lemma_times_comm(xb, two);
        lemma_int_minus::<R>(k + 1, 2);
        lemma_times_comm(xb, m);
        assert(l.times(xb).minus(txb) == m.times(xb));
        lemma_distribute(m, xb, kf.times(q));
        lemma_plus_comm(xb, kf.times(q));
        assert(x.times(t).minus(c) == m.times(d));
        // (x x − 1) t == x (m d + c) − (l b + x c) == m x d − l b
        lemma_distribute_minus(t, x.times(x), one);
        lemma_times_one(t);
        lemma_times_assoc(x, x, t);
        lemma_minus_plus(x.times(t), c);
        lemma_distribute(x, m.times(d), c);
        let xd = x.times(d);
        lemma_times_assoc(x, m, d);
        lemma_times_comm(x, m);
        lemma_times_assoc(m, x, d);
        lemma_cancel(m.times(xd), l.times(b), u);
        assert(x.times(x).minus(one).times(t) == m.times(xd).minus(l.times(b)));
        // k l p − 2 x d == l (x d − b) − 2 x d
        lemma_int_times::<R>(k + 1, k);
        assert((k + 1) * k == k * (k + 1)) by (nonlinear_arith);
        lemma_times_assoc(l, kf, p);
        lemma_distribute_minus(l, xd, b);
        lemma_times_assoc(two, x, d);
        let (lxd, lb, txd) = (l.times(xd), l.times(b), two.times(xd));
        lemma_minus(lxd, lb);
        lemma_minus(lxd.minus(lb), txd);
        lemma_plus_swap(lxd, lb.negated(), txd.negated());
        lemma_minus(lxd, txd);
        lemma_distribute_minus(xd, l, two);
        lemma_times_comm(xd, l);
        lemma_times_comm(xd, two);
        lemma_times_comm(xd, m);
        lemma_minus(m.times(xd), lb);
    }
}

/// The Legendre polynomials solve `(1 − x²) P″ = 2 x P′ − k (k + 1) P`.
pub proof fn law_legendre_equation<R: Real>(k: int, x: R)
    requires
        exact_field::<R>(),
        exact_integers::<R>(),
        1 <= k,
    ensures
        R::one_val().minus(x.times(x)).times(legendre_second(k, x)) == R::int_val(2).times(x).times(
            legendre_derivative(k, x),
        ).minus(R::int_val(k * (k + 1)).times(legendre_value(k, x))),
{
    let one = R::one_val();
    lemma_over(one, one);
    lemma_second_relations(k, x);
    lemma_minus_flip(one, x.times(x));
    lemma_times_negated(x.times(x).minus(one), legendre_second(k, x));
    lemma_minus_flip(
        R::int_val(2).times(x).times(legendre_derivative(k, x)),
        R::int_val(k * (k + 1)).times(legendre_value(k, x)),
    );
}

// ── points ──────────────────────────────────────────────────────────────────

/// One step towards a root of a Legendre polynomial goes to where the tangent vanishes:
/// `P(x) + P′(x) (y − x) = 0`.
pub proof fn law_gauss_step_follows_tangent<R: Real>(n: int, x: R)
    requires
        exact_field::<R>(),
        exact_integers::<R>(),
        1 <= n,
        x.times(x) != R::one_val(),
        legendre_derivative(n, x) != R::zero_val(),
    ensures
        legendre_value(n, x).plus(
            legendre_derivative(n, x).times(gauss_newton(n, x, 1).minus(x)),
        ) == R::zero_val(),
{
    reveal_with_fuel(gauss_newton, 2);
    law_legendre_slope_is_derivative(n, x);
    let (p, d) = (legendre_value(n, x), legendre_derivative(n, x));
    let dx = p.negated().over(d);
    lemma_over(p.negated(), d);
    lemma_plus_comm(x, dx);
    lemma_minus_plus(dx, x);
    lemma_quotient(p.negated(), d);
    lemma_times_comm(d, dx);
    lemma_negated(p);
    lemma_plus_comm(p, p.negated());
}

/// Steps are repeated until one is shorter than the tolerance or the allowance is spent.
pub proof fn law_gauss_steps_repeat<R: Real>(n: int, x: R, steps: int)
    requires
        exact_ring::<R>(),
        1 <= steps,
    ensures
        ({
            let y = gauss_newton(n, x, 1);
            gauss_newton(n, x, steps) == if y.minus(x).magnitude().less(tolerance::<R>()) {
                y
            } else {
                gauss_newton(n, y, steps - 1)
            }
        }),
{
    reveal_with_fuel(gauss_newton, 2);
    let dx = legendre_value(n, x).negated().over(legendre_slope(n, x));
    lemma_plus_comm(x, dx);
    lemma_minus_plus(dx, x);
}

/// One step towards a root of the derivative of a Legendre polynomial goes to where the tangent of
/// the derivative vanishes.
pub proof fn law_lobatto_step_follows_tangent<R: Real>(n: int, x: R)
    requires
        exact_field::<R>(),
        exact_integers::<R>(),
        2 <= n,
        x.times(x) != R::one_val(),
        legendre_second(n - 1, x) != R::zero_val(),
    ensures
        legendre_derivative(n - 1, x).plus(
            legendre_second(n - 1, x).times(lobatto_newton(n, x, 1).minus(x)),
        ) == R::zero_val(),
{
    reveal_with_fuel(lobatto_newton, 2);
    let one = R::one_val();
    let k = n - 1;
    law_legendre_slope_is_derivative(k, x);
    law_legendre_equation(k, x);
    let (p, d, t) = (legendre_value(k, x), legendre_derivative(k, x), legendre_second(k, x));
    lemma_over(one, one);
    lemma_int_units::<R>();
    lemma_int_minus::<R>(n, 1);
    lemma_int_times::<R>(n - 1, n);
    let s = one.minus(x.times(x));
    lemma_minus_zero(one, x.times(x));
    lemma_times_comm(s, t);
    lemma_quotient(t, s);
    let dx = d.negated().over(t);
    lemma_plus_comm(x, dx);
    lemma_minus_plus(dx, x);
    lemma_quotient(d.negated(), t);
    lemma_times_comm(t, dx);
    lemma_negated(d);
    lemma_plus_comm(d, d.negated());
}

/// Steps are repeated until one is shorter than the tolerance or the allowance is spent.
pub proof fn law_lobatto_steps_repeat<R: Real>(n: int, x: R, steps: int)
    requires
        exact_ring::<R>(),
        1 <= steps,
    ensures
        ({
            let y = lobatto_newton(n, x, 1);
            lobatto_newton(n, x, steps) == if y.minus(x).magnitude().less(tolerance::<R>()) {
                y
            } else {
                lobatto_newton(n, y, steps - 1)
            }
        }),
{
    reveal_with_fuel(lobatto_newton, 2);
    let value = legendre_value(n - 1, x);
    let slope = legendre_slope(n - 1, x);
    let nf = R::int_val(n);
    let bend = R::int_val(2).times(x).times(slope).minus(
        nf.minus(R::one_val()).times(nf).times(value),
    ).over(R::one_val().minus(x.times(x)));
    let dx = slope.negated().over(bend);
    lemma_plus_comm(x, dx);
    lemma_minus_plus(dx, x);
}

} // verus!
