//! Laws of the one-dimensional rules: what their weights are, and how they mirror.

use vstd::prelude::*;

#[allow(unused_imports)]
use crate::cpu::legendre_laws::{
    law_legendre_parity, law_legendre_slope_is_derivative, legendre_derivative, lemma_signed_minus,
    lemma_signed_times, signed,
};
#[allow(unused_imports)]
use crate::cpu::quadrature::{
    gauss_newton, gauss_points, gauss_root, gauss_weights, legendre_slope, legendre_value,
    lobatto_newton, lobatto_points, lobatto_weights, NEWTON_STEPS,
};
#[allow(unused_imports)]
use crate::exact::{
    exact_integers, lemma_int_minus, lemma_int_negated, lemma_int_nonzero, lemma_int_plus,
    lemma_int_times, lemma_int_units, lemma_minus_plus, lemma_minus_zero, lemma_negated_sum,
    lemma_negated_twice, lemma_product_nonzero, lemma_quotient, lemma_ratio_plus, lemma_ratio_whole,
    recip,
};
use crate::scalar::Real;
#[allow(unused_imports)]
use crate::scalar::{
    exact_field, exact_ring, lemma_distribute, lemma_over, lemma_plus_assoc, lemma_plus_comm,
    lemma_plus_cross, lemma_plus_zero, lemma_times_assoc, lemma_times_comm, lemma_times_negated,
    lemma_times_one, ratio_val,
};

verus! {

// ── weights ─────────────────────────────────────────────────────────────────

/// Gauss–Lobatto weights: `w n (n − 1) P(n − 1)² = 2`, each weight with its own point.
pub proof fn law_lobatto_weights<R: Real>(n: int, i: int)
    requires
        exact_field::<R>(),
        exact_integers::<R>(),
        2 <= n,
        0 <= i < n,
        legendre_value(n - 1, lobatto_points::<R>(n)[i]) != R::zero_val(),
    ensures
        ({
            let v = legendre_value(n - 1, lobatto_points::<R>(n)[i]);
            lobatto_weights::<R>(n)[i].times(R::int_val(n * (n - 1)).times(v.times(v)))
                == R::int_val(2)
        }),
{
    let v = legendre_value(n - 1, lobatto_points::<R>(n)[i]);
    let nf = R::int_val(n);
    lemma_over(nf, nf);
    lemma_int_units::<R>();
    lemma_int_minus::<R>(n, 1);
    lemma_int_times::<R>(n, n - 1);
    assert(n * (n - 1) != 0) by (nonlinear_arith)
        requires
            2 <= n,
    ;
    lemma_int_nonzero::<R>(n * (n - 1));
    let c = R::int_val(n * (n - 1));
    lemma_times_assoc(c, v, v);
    lemma_product_nonzero(v, v);
    lemma_product_nonzero(c, v.times(v));
    lemma_quotient(R::int_val(2), c.times(v.times(v)));
}

/// The slope of a polynomial of even degree is odd, of one of odd degree even.
proof fn lemma_slope_parity<R: Real>(n: int, x: R)
    requires
        exact_field::<R>(),
        exact_integers::<R>(),
        1 <= n,
    ensures
        legendre_slope(n, x.negated()) == signed(n % 2 == 0, legendre_slope(n, x)),
{
    let s = n % 2 == 0;
    let one = R::one_val();
    lemma_over(one, one);
    law_legendre_parity(n, x);
    law_legendre_parity(n - 1, x);
    assert((n % 2 == 1) == !s);
    assert(((n - 1) % 2 == 1) == s);
    let (p, q) = (legendre_value(n, x), legendre_value(n - 1, x));
    // (−x) (∓p) == ± x p
    lemma_signed_times(!s, x.negated(), p);
    lemma_times_negated(x, p);
    lemma_negated_twice(x.times(p));
    assert(x.negated().times(signed(!s, p)) == signed(s, x.times(p)));
    lemma_signed_minus(s, x.times(p), q);
    let t = x.times(p).minus(q);
    let kf = R::int_val(n);
    lemma_signed_times(s, kf, t);
    lemma_square(x);
    let e = x.times(x).minus(one);
    lemma_over(signed(s, kf.times(t)), e);
    lemma_over(kf.times(t), e);
    lemma_signed_times(s, kf.times(t), recip(e));
}

/// The square of a negation.
proof fn lemma_square<R: Real>(x: R)
    requires
        exact_ring::<R>(),
    ensures
        x.negated().times(x.negated()) == x.times(x),
{
    lemma_signed_times(true, x, x);
}

/// Gauss weights: `w (1 − x²) P(n)′² = 2`, each weight with its own point.
pub proof fn law_gauss_weights<R: Real>(n: int, i: int)
    requires
        exact_field::<R>(),
        exact_integers::<R>(),
        0 <= i < n,
        ({
            let x = gauss_points::<R>(n)[i];
            x.times(x) != R::one_val() && legendre_derivative(n, x) != R::zero_val()
        }),
    ensures
        ({
            let x = gauss_points::<R>(n)[i];
            let d = legendre_derivative(n, x);
            gauss_weights::<R>(n)[i].times(R::one_val().minus(x.times(x)).times(d.times(d)))
                == R::int_val(2)
        }),
{
    let one = R::one_val();
    lemma_over(one, one);
    let x = gauss_points::<R>(n)[i];
    let j = if 2 * i + 1 < n {
        i
    } else {
        n - 1 - i
    };
    let y = gauss_root::<R>(n, j);
    lemma_negated_twice(y);
    lemma_square(y);
    lemma_slope_parity(n, y);
    law_legendre_slope_is_derivative(n, x);
    let (d, e) = (legendre_slope(n, x), legendre_slope(n, y));
    lemma_square(e);
    assert(d.times(d) == e.times(e));
    let c = one.minus(x.times(x));
    lemma_minus_zero(one, x.times(x));
    lemma_times_assoc(c, e, e);
    lemma_product_nonzero(d, d);
    lemma_product_nonzero(c, d.times(d));
    lemma_quotient(R::int_val(2), c.times(d.times(d)));
}

// ── mirrored points ─────────────────────────────────────────────────────────

/// Magnitudes, reciprocals and cosines respect the mirror image of a number.
#[verifier::opaque]
pub open spec fn exact_mirror<R: Real>() -> bool {
    &&& forall|a: R| #[trigger] a.negated().magnitude() == a.magnitude()
    &&& forall|a: R| #[trigger] recip(a.negated()) == recip(a).negated()
    &&& forall|a: R| #[trigger] R::pi_val().minus(a).cosine() == a.cosine().negated()
}

/// The quotient of a signed number by one with the other sign.
proof fn lemma_opposite_signs<R: Real>(s: bool, a: R, b: R)
    requires
        exact_field::<R>(),
        exact_mirror::<R>(),
    ensures
        signed(s, a).negated().over(signed(!s, b)) == a.negated().over(b).negated(),
{
    reveal(exact_mirror);
    lemma_over(signed(s, a).negated(), signed(!s, b));
    lemma_over(a.negated(), b);
    assert(recip(signed(!s, b)) == signed(!s, recip(b)));
    let r = recip(b);
    lemma_negated_twice(a);
    lemma_times_negated(a.negated(), r);
    lemma_times_negated(a, r);
    lemma_negated_twice(a.times(r));
}

/// Newton's method from the mirrored start gives the mirrored point.
proof fn lemma_gauss_newton_mirrors<R: Real>(n: int, x: R, steps: int)
    requires
        exact_field::<R>(),
        exact_integers::<R>(),
        exact_mirror::<R>(),
        1 <= n,
    ensures
        gauss_newton(n, x.negated(), steps) == gauss_newton(n, x, steps).negated(),
    decreases steps,
{
    if steps > 0 {
        lemma_over(x, x);
        law_legendre_parity(n, x);
        lemma_slope_parity(n, x);
        let s = n % 2 == 1;
        assert((n % 2 == 0) == !s);
        let (p, d) = (legendre_value(n, x), legendre_slope(n, x));
        lemma_opposite_signs(s, p, d);
        let dx = p.negated().over(d);
        assert(dx.negated().magnitude() == dx.magnitude()) by {
            reveal(exact_mirror);
        }
        lemma_negated_sum(x, dx);
        lemma_gauss_newton_mirrors(n, x.plus(dx), steps - 1);
    }
}

/// Angles that add up to half a turn have opposite cosines.
proof fn lemma_supplement<R: Real>(a: R, b: R)
    requires
        exact_ring::<R>(),
        exact_mirror::<R>(),
        a.plus(b) == R::pi_val(),
    ensures
        b.cosine() == a.cosine().negated(),
{
    reveal(exact_mirror);
    lemma_plus_comm(a, b);
    lemma_minus_plus(b, a);
    assert(R::pi_val().minus(a).cosine() == a.cosine().negated());
}

/// Parts of an angle: `t a / d + t b / d == t` where `a + b == d`.
proof fn lemma_whole_angle<R: Real>(t: R, a: R, b: R, d: R)
    requires
        exact_field::<R>(),
        a.plus(b) == d,
        d != R::zero_val(),
    ensures
        t.times(a).over(d).plus(t.times(b).over(d)) == t,
{
    lemma_over(t.times(a), d);
    lemma_over(t.times(b), d);
    let r = recip(d);
    lemma_distribute(r, t.times(a), t.times(b));
    lemma_times_comm(r, t.times(a));
    lemma_times_comm(r, t.times(b));
    lemma_distribute(t, a, b);
    lemma_times_comm(r, t.times(d));
    lemma_over(t.times(d), d);
    lemma_quotient(t, d);
}

/// The roots mirror about zero: root `n − 1 − i`, which is searched on its own, is the negation of
/// root `i`.
pub proof fn law_gauss_roots_mirror<R: Real>(n: int, i: int)
    requires
        exact_field::<R>(),
        exact_integers::<R>(),
        exact_mirror::<R>(),
        0 <= i < n,
    ensures
        gauss_root::<R>(n, n - 1 - i) == gauss_root::<R>(n, i).negated(),
{
    let pi = R::pi_val();
    lemma_over(pi, pi);
    lemma_int_units::<R>();
    let (q, h) = (ratio_val::<R>(3, 4), ratio_val::<R>(1, 2));
    let (a, b) = (R::int_val(i), R::int_val(n - 1 - i));
    let d = R::int_val(n).plus(h);
    // (a + 3/4) + (b + 3/4) == (n − 1) + 3/2 == n + 1/2
    lemma_plus_cross(a, q, b, q);
    lemma_int_plus::<R>(i, n - 1 - i);
    lemma_three_halves::<R>();
    lemma_int_plus::<R>(n - 1, 1);
    lemma_plus_assoc(R::int_val(n - 1), R::int_val(1), h);
    assert(a.plus(q).plus(b.plus(q)) == d);
    // n + 1/2 is not zero: twice it is 2 n + 1
    lemma_int_plus::<R>(1, 1);
    lemma_ratio_plus::<R>(1, 1, 2);
    lemma_ratio_whole::<R>(1, 2);
    lemma_plus_cross(R::int_val(n), h, R::int_val(n), h);
    lemma_int_plus::<R>(n, n);
    lemma_int_plus::<R>(2 * n, 1);
    lemma_int_nonzero::<R>(2 * n + 1);
    lemma_plus_zero(R::zero_val());
    assert(d.plus(d) == R::int_val(2 * n + 1));
    lemma_whole_angle(pi, a.plus(q), b.plus(q), d);
    let (u, v) = (pi.times(a.plus(q)).over(d), pi.times(b.plus(q)).over(d));
    lemma_supplement(u, v);
    lemma_gauss_newton_mirrors(n, u.cosine(), NEWTON_STEPS as int);
}

/// Two times three quarters.
proof fn lemma_three_halves<R: Real>()
    requires
        exact_field::<R>(),
        exact_integers::<R>(),
    ensures
        ratio_val::<R>(3, 4).plus(ratio_val::<R>(3, 4)) == R::int_val(1).plus(ratio_val::<R>(1, 2)),
{
    lemma_over(R::one_val(), R::one_val());
    lemma_ratio_plus::<R>(3, 3, 4);
    lemma_ratio_plus::<R>(4, 2, 4);
    lemma_ratio_whole::<R>(1, 4);
    let (h, q) = (ratio_val::<R>(1, 2), ratio_val::<R>(2, 4));
    lemma_int_times::<R>(2, 2);
    lemma_int_nonzero::<R>(2);
    lemma_int_nonzero::<R>(4);
    lemma_quotient(R::int_val(1), R::int_val(2));
    lemma_int_units::<R>();
    // h == (h 4) / 4 and h 4 == 2
    lemma_quotient(h, R::int_val(4));
    lemma_times_assoc(h, R::int_val(2), R::int_val(2));
    lemma_times_one(R::int_val(2));
    assert(h == q);
}

/// Newton's method from the mirrored start gives the mirrored point.
proof fn lemma_lobatto_newton_mirrors<R: Real>(n: int, x: R, steps: int)
    requires
        exact_field::<R>(),
        exact_integers::<R>(),
        exact_mirror::<R>(),
        2 <= n,
    ensures
        lobatto_newton(n, x.negated(), steps) == lobatto_newton(n, x, steps).negated(),
    decreases steps,
{
    if steps > 0 {
        let one = R::one_val();
        lemma_over(x, x);
        let k = n - 1;
        law_legendre_parity(k, x);
        lemma_slope_parity(k, x);
        let s = k % 2 == 0;
        assert((k % 2 == 1) == !s);
        let (p, d) = (legendre_value(k, x), legendre_slope(k, x));
        let nf = R::int_val(n);
        let (two, c) = (R::int_val(2), nf.minus(one).times(nf));
        // 2 (−x) (± d) == ∓ 2 x d
        lemma_times_negated(two, x);
        let tx = two.times(x);
        lemma_signed_times(s, tx.negated(), d);
        lemma_times_negated(tx, d);
        lemma_negated_twice(tx.times(d));
        assert(two.times(x.negated()).times(signed(s, d)) == signed(!s, tx.times(d)));
        lemma_signed_times(!s, c, p);
        lemma_signed_minus(!s, tx.times(d), c.times(p));
        lemma_square(x);
        let t = tx.times(d).minus(c.times(p));
        let e = one.minus(x.times(x));
        lemma_over(signed(!s, t), e);
        lemma_over(t, e);
        lemma_signed_times(!s, t, recip(e));
        let bend = t.over(e);
        lemma_opposite_signs(s, d, bend);
        let dx = d.negated().over(bend);
        assert(dx.negated().magnitude() == dx.magnitude()) by {
            reveal(exact_mirror);
        }
        lemma_negated_sum(x, dx);
        lemma_lobatto_newton_mirrors(n, x.plus(dx), steps - 1);
    }
}

/// Gauss–Lobatto points lie symmetrically about zero and mirrored points have equal weights.
pub proof fn law_lobatto_symmetric<R: Real>(n: int, i: int)
    requires
        exact_field::<R>(),
        exact_integers::<R>(),
        exact_mirror::<R>(),
        2 <= n,
        0 <= i < n,
    ensures
        lobatto_points::<R>(n)[n - 1 - i] == lobatto_points::<R>(n)[i].negated(),
        lobatto_weights::<R>(n)[n - 1 - i] == lobatto_weights::<R>(n)[i],
{
    let (one, pi) = (R::one_val(), R::pi_val());
    lemma_over(one, one);
    lemma_int_units::<R>();
    lemma_int_negated::<R>(1);
    lemma_negated_twice(one);
    if 0 < i < n - 1 {
        let (a, b) = (R::int_val(i), R::int_val(n - 1 - i));
        lemma_int_minus::<R>(n, 1);
        lemma_int_nonzero::<R>(n - 1);
        lemma_int_plus::<R>(i, n - 1 - i);
        let d = R::int_val(n - 1);
        lemma_whole_angle(pi, a, b, d);
        let (u, v) = (pi.times(a).over(d), pi.times(b).over(d));
        lemma_supplement(u, v);
        lemma_lobatto_newton_mirrors(n, u.cosine().negated(), NEWTON_STEPS as int);
    }
    law_lobatto_weights_mirror::<R>(n, i, n - 1 - i);
}

/// Gauss–Lobatto weights at opposite points are equal.
pub proof fn law_lobatto_weights_mirror<R: Real>(n: int, i: int, j: int)
    requires
        exact_field::<R>(),
        exact_integers::<R>(),
        2 <= n,
        0 <= i < n,
        0 <= j < n,
        lobatto_points::<R>(n)[j] == lobatto_points::<R>(n)[i].negated(),
    ensures
        lobatto_weights::<R>(n)[j] == lobatto_weights::<R>(n)[i],
{
    let x = lobatto_points::<R>(n)[i];
    lemma_over(x, x);
    law_legendre_parity(n - 1, x);
    let v = legendre_value(n - 1, x);
    lemma_square(v);
    let nf = R::int_val(n);
    let c = nf.times(nf.minus(R::one_val()));
    lemma_times_assoc(c, v, v);
    lemma_times_assoc(c, v.negated(), v.negated());
}

} // verus!
