//! The one-dimensional rules integrate polynomials exactly.

use vstd::prelude::*;

#[allow(unused_imports)]
use crate::cpu::lagrange_laws::distinct;
#[allow(unused_imports)]
use crate::cpu::legendre_laws::{
    law_legendre_recurrence, legendre_derivative, lemma_derivative_relations,
};
#[allow(unused_imports)]
use crate::cpu::quadrature::{
    gauss_points, gauss_weights, legendre_value, lobatto_points, lobatto_weights,
};
#[allow(unused_imports)]
use crate::cpu::quadrature_laws::{law_gauss_weights, law_lobatto_weights};
#[allow(unused_imports)]
use crate::cpu::reproduction_laws::to_power;
#[allow(unused_imports)]
use crate::exact::{
    exact_integers, lemma_distribute_minus, lemma_int_nonzero, lemma_int_plus, lemma_int_times,
    lemma_int_units, lemma_minus_flip, lemma_minus_plus, lemma_minus_self, lemma_minus_zero,
    lemma_negated_sum, lemma_negated_twice, lemma_plus_swap, lemma_product_nonzero, lemma_quotient,
    lemma_times_swap,
};
use crate::scalar::Real;
#[allow(unused_imports)]
use crate::scalar::{
    col_sums, exact_field, exact_ring, lemma_distribute, lemma_minus, lemma_negated, lemma_over,
    lemma_plus_comm, lemma_plus_cross, lemma_plus_zero, lemma_sum_ext, lemma_sum_plus,
    lemma_sum_scale, lemma_sum_single, lemma_sum_swap, lemma_sum_zero, lemma_times_assoc,
    lemma_times_comm, lemma_times_negated, lemma_times_one, lemma_times_zero, ratio_val, row_sums,
    sum,
};

verus! {

/// A number times a nonzero number determines it.
proof fn lemma_cancel_factor<R: Real>(c: R, a: R, b: R)
    requires
        exact_field::<R>(),
        c != R::zero_val(),
        c.times(a) == c.times(b),
    ensures
        a == b,
{
    lemma_over(c, c);
    lemma_times_comm(c, a);
    lemma_times_comm(c, b);
    lemma_quotient(a, c);
    lemma_quotient(b, c);
}

/// A product with a nonzero factor is zero only if the other factor is.
proof fn lemma_other_factor<R: Real>(c: R, a: R)
    requires
        exact_field::<R>(),
        c != R::zero_val(),
        c.times(a) == R::zero_val(),
    ensures
        a == R::zero_val(),
{
    lemma_over(c, c);
    lemma_times_zero(c);
    lemma_cancel_factor(c, a, R::zero_val());
}

// ── polynomials by their coefficients ───────────────────────────────────────

/// Terms of a polynomial.
pub open spec fn power_terms<R: Real>(c: spec_fn(int) -> R, x: R) -> spec_fn(int) -> R {
    |m: int| c(m).times(to_power(x, m))
}

/// The polynomial of degree below `n` with the coefficients `c`.
pub open spec fn polynomial_at<R: Real>(c: spec_fn(int) -> R, n: int, x: R) -> R {
    sum(n, power_terms(c, x))
}

/// A sum of terms that begin one place later.
proof fn lemma_shifted_sum<R: Real>(n: int, x: R, f: spec_fn(int) -> R, h: spec_fn(int) -> R)
    requires
        exact_ring::<R>(),
        1 <= n,
        h(0) == R::zero_val(),
        forall|m: int| 1 <= m < n ==> #[trigger] h(m) == x.times(f(m - 1)),
    ensures
        sum(n, h) == x.times(sum(n - 1, f)),
    decreases n,
{
    lemma_times_zero(x);
    if n == 1 {
        assert(sum(1, h) == sum(0, h).plus(h(0)));
        lemma_plus_zero(R::zero_val());
    } else {
        lemma_shifted_sum(n - 1, x, f, h);
        assert(h(n - 1) == x.times(f(n - 2)));
        lemma_distribute(x, sum(n - 2, f), f(n - 2));
    }
}

/// Coefficients of the quotient by `x − r` of the polynomial of degree below `n`.
spec fn quotient<R: Real>(c: spec_fn(int) -> R, n: int, r: R, m: int) -> R
    decreases n - m,
{
    if m >= n - 1 {
        R::zero_val()
    } else {
        c(m + 1).plus(r.times(quotient(c, n, r, m + 1)))
    }
}

/// A polynomial is its quotient by `x − r` times `x − r`, and a remainder.
proof fn lemma_division<R: Real>(c: spec_fn(int) -> R, n: int, r: R, x: R)
    requires
        exact_ring::<R>(),
        1 <= n,
    ensures
        ({
            let q = |m: int| quotient(c, n, r, m);
            polynomial_at(c, n, x) == x.minus(r).times(polynomial_at(q, n - 1, x)).plus(
                c(0).plus(r.times(q(0))),
            )
        }),
{
    let q = |m: int| quotient(c, n, r, m);
    let (f, g) = (power_terms(c, x), power_terms(q, x));
    let rest = c(0).plus(r.times(q(0)));
    let first = |m: int|
        if m == 0 {
            rest
        } else {
            R::zero_val()
        };
    let up = |m: int|
        if m == 0 {
            R::zero_val()
        } else {
            x.times(g(m - 1))
        };
    let down = |m: int| r.times(g(m));
    let total = |m: int| f(m).plus(down(m));
    let parts = |m: int| up(m).plus(first(m));
    // f + r g == x g shifted + the remainder
    assert forall|m: int| 0 <= m < n implies #[trigger] total(m) == parts(m) by {
        let p = to_power(x, m);
        // r (q p) + c p == (c + r q) p
        lemma_times_assoc(r, q(m), p);
        lemma_distribute(p, c(m), r.times(q(m)));
        lemma_times_comm(p, c(m));
        lemma_times_comm(p, r.times(q(m)));
        lemma_times_comm(p, c(m).plus(r.times(q(m))));
        if m == 0 {
            lemma_times_one(rest);
            lemma_plus_zero(rest);
        } else {
            assert(q(m - 1) == c(m).plus(r.times(q(m))));
            let o = to_power(x, m - 1);
            // q(m − 1) (o x) == x (q(m − 1) o)
            lemma_times_assoc(q(m - 1), o, x);
            lemma_times_comm(q(m - 1).times(o), x);
            lemma_plus_zero(up(m));
        }
    }
    lemma_sum_ext(n, total, parts);
    lemma_sum_plus(n, f, down, total);
    lemma_sum_plus(n, up, first, parts);
    lemma_sum_single(n, 0, first);
    lemma_shifted_sum(n, x, g, up);
    lemma_sum_scale(n, r, g, down);
    // the last quotient coefficient is zero
    let (s, t) = (sum(n - 1, g), sum(n, f));
    lemma_times_zero(to_power(x, n - 1));
    lemma_plus_zero(s);
    assert(sum(n, g) == s);
    // t + r s == x s + rest
    lemma_distribute_minus(s, x, r);
    lemma_times_comm(s, x);
    lemma_times_comm(s, r);
    let (xs, rs) = (x.times(s), r.times(s));
    lemma_minus_plus(t, rs);
    lemma_minus(xs.plus(rest), rs);
    lemma_plus_swap(xs, rest, rs.negated());
    lemma_minus(xs, rs);
    lemma_times_comm(x.minus(r), s);
}

/// A polynomial of degree below `n` with `n` distinct roots has no coefficients but zero.
proof fn lemma_roots<R: Real>(c: spec_fn(int) -> R, n: int, nodes: Seq<R>)
    requires
        exact_field::<R>(),
        0 <= n,
        distinct(nodes, n),
        forall|i: int|
            0 <= i < n ==> polynomial_at(c, n, #[trigger] nodes[i]) == R::zero_val(),
    ensures
        forall|m: int| 0 <= m < n ==> #[trigger] c(m) == R::zero_val(),
    decreases n,
{
    let zero = R::zero_val();
    lemma_over(zero, zero);
    if n >= 1 {
        let r = nodes[n - 1];
        let q = |m: int| quotient(c, n, r, m);
        let rest = c(0).plus(r.times(q(0)));
        // the remainder is the value at r
        lemma_division(c, n, r, r);
        lemma_minus_self(r);
        lemma_times_zero(polynomial_at(q, n - 1, r));
        lemma_plus_zero(rest);
        assert(rest == zero);
        assert forall|i: int| 0 <= i < n - 1 implies polynomial_at(q, n - 1, #[trigger] nodes[i])
            == zero by {
            let x = nodes[i];
            lemma_division(c, n, r, x);
            let v = polynomial_at(q, n - 1, x);
            lemma_plus_zero(x.minus(r).times(v));
            lemma_minus_zero(x, r);
            assert(nodes[i] != nodes[n - 1]);
            lemma_other_factor(x.minus(r), v);
        }
        lemma_roots(q, n - 1, nodes);
        lemma_times_zero(r);
        assert forall|m: int| 0 <= m < n implies #[trigger] c(m) == zero by {
            // q vanishes at m and at m − 1
            assert(q(m) == zero) by {
                if m < n - 1 {
                    assert(q(m) == zero);
                }
            }
            lemma_plus_zero(c(m));
            if m > 0 {
                assert(q(m - 1) == c(m).plus(r.times(q(m))));
            }
        }
    }
}

// ── Legendre polynomials by their coefficients ──────────────────────────────

/// The coefficient of `xᵐ` in the Legendre polynomial of degree `k`.
pub open spec fn legendre_coefficient<R: Real>(k: int, m: int) -> R
    decreases k,
{
    if m < 0 || m > k {
        R::zero_val()
    } else if k <= 1 {
        if m == k {
            R::one_val()
        } else {
            R::zero_val()
        }
    } else {
        R::int_val(2 * k - 1).times(legendre_coefficient(k - 1, m - 1)).minus(
            R::int_val(k - 1).times(legendre_coefficient(k - 2, m)),
        ).over(R::int_val(k))
    }
}

/// The coefficients of a Legendre polynomial.
pub open spec fn coefficients<R: Real>(k: int) -> spec_fn(int) -> R {
    |m: int| legendre_coefficient(k, m)
}

/// The recurrence of the coefficients.
proof fn lemma_coefficient<R: Real>(k: int, m: int)
    requires
        exact_field::<R>(),
        exact_integers::<R>(),
        2 <= k,
    ensures
        R::int_val(k).times(legendre_coefficient(k, m)).plus(
            R::int_val(k - 1).times(legendre_coefficient(k - 2, m)),
        ) == R::int_val(2 * k - 1).times(legendre_coefficient(k - 1, m - 1)),
{
    let (a, b, c) = (
        legendre_coefficient::<R>(k, m),
        legendre_coefficient::<R>(k - 1, m - 1),
        legendre_coefficient::<R>(k - 2, m),
    );
    let (kf, p, q) = (R::int_val(k), R::int_val(2 * k - 1), R::int_val(k - 1));
    lemma_over(a, a);
    lemma_int_nonzero::<R>(k);
    if m < 0 || m > k {
        lemma_times_zero(kf);
        lemma_times_zero(p);
        lemma_times_zero(q);
        lemma_plus_zero(R::zero_val());
    } else {
        lemma_quotient(p.times(b).minus(q.times(c)), kf);
        lemma_times_comm(kf, a);
        lemma_minus_plus(p.times(b), q.times(c));
    }
}

/// A Legendre polynomial is the polynomial with its coefficients.
pub proof fn law_legendre_coefficients<R: Real>(k: int, n: int, x: R)
    requires
        exact_field::<R>(),
        exact_integers::<R>(),
        0 <= k < n,
    ensures
        legendre_value(k, x) == polynomial_at(coefficients(k), n, x),
    decreases k,
{
    let zero = R::zero_val();
    lemma_over(zero, zero);
    let c = coefficients::<R>(k);
    let f = power_terms(c, x);
    if k <= 1 {
        assert forall|m: int| 0 <= m < n && m != k implies #[trigger] f(m) == zero by {
            lemma_times_zero(to_power(x, m));
        }
        lemma_sum_single(n, k, f);
        assert(to_power(x, 0) == R::one_val());
        assert(to_power(x, 1) == to_power(x, 0).times(x));
        lemma_times_one(R::one_val());
        lemma_times_one(x);
    } else {
        law_legendre_coefficients(k - 1, n - 1, x);
        law_legendre_coefficients(k - 2, n, x);
        law_legendre_recurrence(k - 1, x);
        let (kf, p, q) = (R::int_val(k), R::int_val(2 * k - 1), R::int_val(k - 1));
        let (g, h) = (power_terms(coefficients(k - 1), x), power_terms(coefficients(k - 2), x));
        let up = |m: int| legendre_coefficient::<R>(k - 1, m - 1).times(to_power(x, m));
        let (kf_f, q_h, p_up) = (
            |m: int| kf.times(f(m)),
            |m: int| q.times(h(m)),
            |m: int| p.times(up(m)),
        );
        assert forall|m: int| 0 <= m < n implies #[trigger] p_up(m) == kf_f(m).plus(q_h(m)) by {
            lemma_coefficient::<R>(k, m);
            let o = to_power(x, m);
            let (a, b, d) = (
                legendre_coefficient::<R>(k, m),
                legendre_coefficient::<R>(k - 1, m - 1),
                legendre_coefficient::<R>(k - 2, m),
            );
            lemma_times_assoc(kf, a, o);
            lemma_times_assoc(q, d, o);
            lemma_times_assoc(p, b, o);
            lemma_distribute(o, kf.times(a), q.times(d));
            lemma_times_comm(o, kf.times(a));
            lemma_times_comm(o, q.times(d));
            lemma_times_comm(o, p.times(b));
        }
        lemma_sum_plus(n, kf_f, q_h, p_up);
        lemma_sum_scale(n, kf, f, kf_f);
        lemma_sum_scale(n, q, h, q_h);
        lemma_sum_scale(n, p, up, p_up);
        assert(up(0) == zero) by {
            lemma_times_zero(to_power(x, 0));
        }
        assert forall|m: int| 1 <= m < n implies #[trigger] up(m) == x.times(g(m - 1)) by {
            let b = legendre_coefficient::<R>(k - 1, m - 1);
            let o = to_power(x, m - 1);
            lemma_times_assoc(b, o, x);
            lemma_times_comm(b.times(o), x);
        }
        lemma_shifted_sum(n, x, g, up);
        // k sum f + (k − 1) P(k − 2) == (2 k − 1) x P(k − 1) == k P(k) + (k − 1) P(k − 2)
        let (pk, s) = (legendre_value(k, x), sum(n, f));
        let low = q.times(legendre_value(k - 2, x));
        lemma_times_assoc(p, x, legendre_value(k - 1, x));
        assert(2 * (k - 1) + 1 == 2 * k - 1);
        assert(kf.times(s).plus(low) == kf.times(pk).plus(low));
        lemma_minus_plus(kf.times(s), low);
        lemma_minus_plus(kf.times(pk), low);
        lemma_int_nonzero::<R>(k);
        lemma_cancel_factor(kf, s, pk);
    }
}

/// The leading coefficient is not zero.
proof fn lemma_leading<R: Real>(k: int)
    requires
        exact_field::<R>(),
        exact_integers::<R>(),
        0 <= k,
    ensures
        legendre_coefficient::<R>(k, k) != R::zero_val(),
    decreases k,
{
    let zero = R::zero_val();
    lemma_over(zero, zero);
    if k >= 2 {
        lemma_leading::<R>(k - 1);
        lemma_coefficient::<R>(k, k);
        let (a, b) = (legendre_coefficient::<R>(k, k), legendre_coefficient::<R>(k - 1, k - 1));
        lemma_times_zero(R::int_val(k - 1));
        lemma_times_zero(R::int_val(k));
        lemma_plus_zero(R::int_val(k).times(a));
        lemma_int_nonzero::<R>(2 * k - 1);
        lemma_product_nonzero(R::int_val(2 * k - 1), b);
    }
}

/// Combinations of coefficients.
spec fn mixed<R: Real>(c: spec_fn(int) -> R, m: int) -> spec_fn(int) -> R {
    |k: int| c(k).times(legendre_coefficient(k, m))
}

/// The coefficients of Legendre polynomials form a triangle, so no combination of them vanishes.
proof fn lemma_triangle<R: Real>(c: spec_fn(int) -> R, n: int)
    requires
        exact_field::<R>(),
        exact_integers::<R>(),
        0 <= n,
        forall|m: int| 0 <= m < n ==> sum(n, #[trigger] mixed(c, m)) == R::zero_val(),
    ensures
        forall|k: int| 0 <= k < n ==> #[trigger] c(k) == R::zero_val(),
    decreases n,
{
    let zero = R::zero_val();
    lemma_over(zero, zero);
    if n >= 1 {
        let last = mixed(c, n - 1);
        assert forall|k: int| 0 <= k < n && k != n - 1 implies #[trigger] last(k) == zero by {
            lemma_times_zero(c(k));
        }
        lemma_sum_single(n, n - 1, last);
        assert(sum(n, mixed(c, n - 1)) == zero);
        lemma_leading::<R>(n - 1);
        let a = legendre_coefficient::<R>(n - 1, n - 1);
        lemma_times_comm(c(n - 1), a);
        lemma_other_factor(a, c(n - 1));
        assert forall|m: int| 0 <= m < n - 1 implies sum(n - 1, #[trigger] mixed(c, m)) == zero by {
            let f = mixed(c, m);
            assert(sum(n, f) == zero);
            lemma_times_zero(legendre_coefficient::<R>(n - 1, m));
            lemma_plus_zero(sum(n - 1, f));
        }
        lemma_triangle(c, n - 1);
    }
}

/// Terms of a combination of Legendre polynomials.
pub open spec fn legendre_terms<R: Real>(c: spec_fn(int) -> R, x: R) -> spec_fn(int) -> R {
    |k: int| c(k).times(legendre_value(k, x))
}

/// A combination of the first `n` Legendre polynomials that vanishes at `n` distinct points is
/// empty.
proof fn lemma_independent<R: Real>(c: spec_fn(int) -> R, n: int, nodes: Seq<R>)
    requires
        exact_field::<R>(),
        exact_integers::<R>(),
        0 <= n,
        distinct(nodes, n),
        forall|i: int|
            0 <= i < n ==> sum(n, legendre_terms(c, #[trigger] nodes[i])) == R::zero_val(),
    ensures
        forall|k: int| 0 <= k < n ==> #[trigger] c(k) == R::zero_val(),
{
    lemma_over(R::one_val(), R::one_val());
    let e = |m: int| sum(n, mixed(c, m));
    assert forall|i: int| 0 <= i < n implies polynomial_at(e, n, #[trigger] nodes[i])
        == R::zero_val() by {
        let x = nodes[i];
        let f = |k: int, m: int| c(k).times(legendre_coefficient(k, m)).times(to_power(x, m));
        lemma_sum_swap(n, n, f);
        let t = legendre_terms(c, x);
        assert forall|k: int| 0 <= k < n implies #[trigger] t(k) == row_sums(n, f)(k) by {
            law_legendre_coefficients(k, n, x);
            let (g, h) = (power_terms(coefficients(k), x), |m: int| f(k, m));
            assert forall|m: int| 0 <= m < n implies #[trigger] h(m) == c(k).times(g(m)) by {
                lemma_times_assoc(c(k), legendre_coefficient(k, m), to_power(x, m));
            }
            lemma_sum_scale(n, c(k), g, h);
        }
        lemma_sum_ext(n, t, row_sums(n, f));
        let s = power_terms(e, x);
        assert forall|m: int| 0 <= m < n implies #[trigger] s(m) == col_sums(n, f)(m) by {
            let (g, h) = (mixed(c, m), |k: int| f(k, m));
            let o = to_power(x, m);
            assert forall|k: int| 0 <= k < n implies #[trigger] h(k) == o.times(g(k)) by {
                lemma_times_comm(g(k), o);
            }
            lemma_sum_scale(n, o, g, h);
            lemma_times_comm(o, e(m));
        }
        lemma_sum_ext(n, s, col_sums(n, f));
        assert(sum(n, legendre_terms(c, nodes[i])) == R::zero_val());
    }
    lemma_roots(e, n, nodes);
    assert forall|m: int| 0 <= m < n implies sum(n, #[trigger] mixed(c, m)) == R::zero_val() by {
        assert(e(m) == R::zero_val());
    }
    lemma_triangle(c, n);
}

// ── sums over the points of a rule ──────────────────────────────────────────

/// Weighted products of two Legendre polynomials at the points.
pub open spec fn pair_terms<R: Real>(x: Seq<R>, w: Seq<R>, k: int, l: int) -> spec_fn(int) -> R {
    |j: int| w[j].times(legendre_value(k, x[j]).times(legendre_value(l, x[j])))
}

/// The sum of the product of two Legendre polynomials over a rule.
pub open spec fn pair_sum<R: Real>(x: Seq<R>, w: Seq<R>, n: int, k: int, l: int) -> R {
    sum(n, pair_terms(x, w, k, l))
}

/// Terms of the kernel with the factors `f` at two points.
spec fn kernel_terms<R: Real>(f: spec_fn(int) -> R, x: R, y: R) -> spec_fn(int) -> R {
    |k: int| f(k).times(legendre_value(k, x).times(legendre_value(k, y)))
}

/// The kernel is the inverse of the weights on the points.
spec fn inverts<R: Real>(x: Seq<R>, w: Seq<R>, n: int, f: spec_fn(int) -> R) -> bool {
    forall|i: int, j: int|
        0 <= i < n && 0 <= j < n ==> #[trigger] w[j].times(
            sum(n, kernel_terms(f, x[i], x[j])),
        ) == if i == j {
            R::int_val(2)
        } else {
            R::zero_val()
        }
}

/// Where the kernel inverts the weights, the Legendre polynomials are orthogonal over the rule.
proof fn lemma_orthogonal<R: Real>(
    x: Seq<R>,
    w: Seq<R>,
    n: int,
    f: spec_fn(int) -> R,
    k: int,
    l: int,
)
    requires
        exact_field::<R>(),
        exact_integers::<R>(),
        distinct(x, n),
        inverts(x, w, n, f),
        0 <= k < n,
        0 <= l < n,
    ensures
        f(k).times(pair_sum(x, w, n, k, l)) == if k == l {
            R::int_val(2)
        } else {
            R::zero_val()
        },
{
    let zero = R::zero_val();
    let two = R::int_val(2);
    lemma_over(zero, zero);
    let unit = |a: int|
        if a == l {
            two
        } else {
            zero
        };
    let c = |a: int| f(a).times(pair_sum(x, w, n, a, l)).minus(unit(a));
    assert forall|i: int| 0 <= i < n implies sum(n, legendre_terms(c, #[trigger] x[i])) == zero by {
        let y = x[i];
        let pl = |j: int| legendre_value(l, x[j]);
        // the sum over a of f(a) P(a, y) pair(a, l), by points
        let g = |a: int, j: int|
            f(a).times(legendre_value(a, y).times(legendre_value(a, x[j]))).times(
                w[j].times(pl(j)),
            );
        lemma_sum_swap(n, n, g);
        let t = |a: int| f(a).times(pair_sum(x, w, n, a, l)).times(legendre_value(a, y));
        assert forall|a: int| 0 <= a < n implies #[trigger] t(a) == row_sums(n, g)(a) by {
            let (p, q) = (pair_terms(x, w, a, l), |j: int| g(a, j));
            let s = f(a).times(legendre_value(a, y));
            assert forall|j: int| 0 <= j < n implies #[trigger] q(j) == s.times(p(j)) by {
                let (u, v) = (legendre_value(a, x[j]), w[j]);
                // f (Py u) (v pl) == (f Py) (v (u pl))
                lemma_times_assoc(f(a), legendre_value(a, y), u);
                lemma_times_assoc(s, u, v.times(pl(j)));
                lemma_times_assoc(u, v, pl(j));
                lemma_times_comm(u, v);
                lemma_times_assoc(v, u, pl(j));
            }
            lemma_sum_scale(n, s, p, q);
            lemma_times_swap(f(a), pair_sum(x, w, n, a, l), legendre_value(a, y));
        }
        lemma_sum_ext(n, t, row_sums(n, g));
        let cols = col_sums(n, g);
        assert forall|j: int| 0 <= j < n implies #[trigger] cols(j) == if i == j {
            two.times(pl(j))
        } else {
            zero
        } by {
            let (p, q) = (kernel_terms(f, y, x[j]), |a: int| g(a, j));
            let s = w[j].times(pl(j));
            assert forall|a: int| 0 <= a < n implies #[trigger] q(a) == s.times(p(a)) by {
                lemma_times_comm(p(a), s);
            }
            lemma_sum_scale(n, s, p, q);
            lemma_times_swap(w[j], pl(j), sum(n, p));
            assert(w[j].times(sum(n, kernel_terms(f, x[i], x[j]))) == if i == j {
                two
            } else {
                zero
            });
            lemma_times_zero(pl(j));
        }
        lemma_sum_single(n, i, cols);
        let d = |a: int| unit(a).times(legendre_value(a, y));
        assert forall|a: int| 0 <= a < n && a != l implies #[trigger] d(a) == zero by {
            lemma_times_zero(legendre_value(a, y));
        }
        lemma_sum_single(n, l, d);
        let e = legendre_terms(c, y);
        // e + d == t
        assert forall|a: int| 0 <= a < n implies #[trigger] t(a) == e(a).plus(d(a)) by {
            let (s, o) = (f(a).times(pair_sum(x, w, n, a, l)), legendre_value(a, y));
            lemma_minus_plus(s, unit(a));
            lemma_distribute(o, c(a), unit(a));
            lemma_times_comm(o, c(a));
            lemma_times_comm(o, unit(a));
            lemma_times_comm(o, s);
        }
        lemma_sum_plus(n, e, d, t);
        let top = two.times(pl(i));
        assert(sum(n, e).plus(top) == top);
        lemma_minus_plus(sum(n, e), top);
        lemma_minus_self(top);
    }
    lemma_independent(c, n, x);
    assert(c(k) == zero);
    lemma_minus_zero(f(k).times(pair_sum(x, w, n, k, l)), unit(k));
}

/// The pairing is symmetric.
proof fn lemma_pair_symmetric<R: Real>(x: Seq<R>, w: Seq<R>, n: int, k: int, l: int)
    requires
        exact_ring::<R>(),
    ensures
        pair_sum(x, w, n, k, l) == pair_sum(x, w, n, l, k),
{
    let (f, g) = (pair_terms(x, w, k, l), pair_terms(x, w, l, k));
    assert forall|j: int| 0 <= j < n implies #[trigger] f(j) == g(j) by {
        lemma_times_comm(legendre_value(k, x[j]), legendre_value(l, x[j]));
    }
    lemma_sum_ext(n, f, g);
}

/// Weighted values at the points of a function that a Legendre recurrence expands.
spec fn weighted<R: Real>(x: Seq<R>, w: Seq<R>, g: spec_fn(int) -> R, k: int) -> spec_fn(int) -> R {
    |j: int| w[j].times(legendre_value(k, x[j]).times(g(j)))
}

/// The recurrence under the sum: `(k + 1) S(k + 1) + k S(k − 1) = (2 k + 1) S(x P(k))`.
proof fn lemma_recurrence_sum<R: Real>(
    x: Seq<R>,
    w: Seq<R>,
    n: int,
    g: spec_fn(int) -> R,
    k: int,
)
    requires
        exact_field::<R>(),
        exact_integers::<R>(),
        1 <= k,
    ensures
        R::int_val(k + 1).times(sum(n, weighted(x, w, g, k + 1))).plus(
            R::int_val(k).times(sum(n, weighted(x, w, g, k - 1))),
        ) == R::int_val(2 * k + 1).times(
            sum(n, weighted(x, w, |j: int| x[j].times(g(j)), k)),
        ),
{
    lemma_over(R::one_val(), R::one_val());
    let (a, b, c) = (R::int_val(k + 1), R::int_val(k), R::int_val(2 * k + 1));
    let xg = |j: int| x[j].times(g(j));
    let (f, h, e) = (weighted(x, w, g, k + 1), weighted(x, w, g, k - 1), weighted(x, w, xg, k));
    let (fa, hb, ec) = (
        |j: int| a.times(f(j)),
        |j: int| b.times(h(j)),
        |j: int| c.times(e(j)),
    );
    assert forall|j: int| 0 <= j < n implies #[trigger] ec(j) == fa(j).plus(hb(j)) by {
        law_legendre_recurrence(k, x[j]);
        let (p, q, r) = (
            legendre_value(k + 1, x[j]),
            legendre_value(k - 1, x[j]),
            legendre_value(k, x[j]),
        );
        let (v, y, u) = (w[j], x[j], g(j));
        // a (v (p u)) == v ((a p) u), and so on
        lemma_lift(a, v, p, u);
        lemma_lift(b, v, q, u);
        lemma_lift(c, v, r, y.times(u));
        // (c r) (y u) == ((c y) r) u
        lemma_times_assoc(c.times(r), y, u);
        lemma_times_swap(c, r, y);
        lemma_distribute(u, a.times(p), b.times(q));
        lemma_times_comm(u, a.times(p));
        lemma_times_comm(u, b.times(q));
        lemma_times_comm(u, c.times(y).times(r));
        lemma_distribute(v, a.times(p).times(u), b.times(q).times(u));
    }
    lemma_sum_plus(n, fa, hb, ec);
    lemma_sum_scale(n, a, f, fa);
    lemma_sum_scale(n, b, h, hb);
    lemma_sum_scale(n, c, e, ec);
}

/// `a (v (p u)) == v ((a p) u)`.
proof fn lemma_lift<R: Real>(a: R, v: R, p: R, u: R)
    requires
        exact_ring::<R>(),
    ensures
        a.times(v.times(p.times(u))) == v.times(a.times(p).times(u)),
{
    lemma_times_assoc(a, v, p.times(u));
    lemma_times_comm(a, v);
    lemma_times_assoc(v, a, p.times(u));
    lemma_times_assoc(a, p, u);
}

/// Orthogonality of the polynomials up to `h`, all but the square of the last.
spec fn orthogonal_up_to<R: Real>(x: Seq<R>, w: Seq<R>, n: int, h: int) -> bool {
    forall|k: int, l: int|
        0 <= k <= h && 0 <= l < h ==> #[trigger] R::int_val(2 * k + 1).times(
            pair_sum(x, w, n, k, l),
        ) == if k == l {
            R::int_val(2)
        } else {
            R::zero_val()
        }
}

/// Orthogonality of the polynomials up to `h` spreads to all pairs whose product has degree below
/// `2 h`.
proof fn lemma_spread<R: Real>(x: Seq<R>, w: Seq<R>, n: int, h: int, k: int, l: int)
    requires
        exact_field::<R>(),
        exact_integers::<R>(),
        orthogonal_up_to(x, w, n, h),
        0 <= l <= k,
        k + l < 2 * h,
    ensures
        R::int_val(2 * k + 1).times(pair_sum(x, w, n, k, l)) == if k == l {
            R::int_val(2)
        } else {
            R::zero_val()
        },
    decreases k + l, k - l,
{
    let zero = R::zero_val();
    let two = R::int_val(2);
    lemma_over(zero, zero);
    if k - l >= 2 {
        let a = k - 1;
        lemma_spread(x, w, n, h, a, l + 1);
        lemma_spread(x, w, n, h, a - 1, l);
        let pl = |j: int| legendre_value(l, x[j]);
        let pa = |j: int| legendre_value(a, x[j]);
        let (s, t) = (pair_sum(x, w, n, k, l), pair_sum(x, w, n, a - 1, l));
        lemma_recurrence_sum(x, w, n, pl, a);
        lemma_sum_ext(n, weighted(x, w, pl, k), pair_terms(x, w, k, l));
        lemma_sum_ext(n, weighted(x, w, pl, a - 1), pair_terms(x, w, a - 1, l));
        let mid = sum(n, weighted(x, w, |j: int| x[j].times(pl(j)), a));
        // k s + a t == (2 a + 1) mid
        let up = pair_sum(x, w, n, a, l + 1);
        let (ci, co) = (R::int_val(2 * a + 1), R::int_val(2 * l + 1));
        lemma_pair_symmetric(x, w, n, a, l + 1);
        lemma_sum_ext(n, weighted(x, w, pa, l + 1), pair_terms(x, w, l + 1, a));
        let other = sum(n, weighted(x, w, |j: int| x[j].times(pa(j)), l));
        assert(mid == other) by {
            let (f, g) = (
                weighted(x, w, |j: int| x[j].times(pl(j)), a),
                weighted(x, w, |j: int| x[j].times(pa(j)), l),
            );
            assert forall|j: int| 0 <= j < n implies #[trigger] f(j) == g(j) by {
                let (p, q, y) = (pa(j), pl(j), x[j]);
                lemma_times_assoc(p, y, q);
                lemma_times_comm(p, y);
                lemma_times_comm(y.times(p), q);
            }
            lemma_sum_ext(n, f, g);
        }
        // (2 l + 1) mid == (l + 1) up
        assert(co.times(mid) == R::int_val(l + 1).times(up)) by {
            if l == 0 {
                let f = weighted(x, w, |j: int| x[j].times(pa(j)), 0);
                let g = pair_terms(x, w, 1, a);
                assert forall|j: int| 0 <= j < n implies #[trigger] f(j) == g(j) by {
                    lemma_times_one(x[j].times(pa(j)));
                }
                lemma_sum_ext(n, f, g);
            } else {
                lemma_recurrence_sum(x, w, n, pa, l);
                lemma_spread(x, w, n, h, a, l - 1);
                lemma_pair_symmetric(x, w, n, a, l - 1);
                lemma_sum_ext(n, weighted(x, w, pa, l - 1), pair_terms(x, w, l - 1, a));
                let low = pair_sum(x, w, n, a, l - 1);
                lemma_int_nonzero::<R>(2 * a + 1);
                lemma_other_factor(ci, low);
                lemma_times_zero(R::int_val(l));
                lemma_plus_zero(R::int_val(l + 1).times(up));
            }
        }
        // (2 a + 1) (2 l + 1) mid is 2 (l + 1) or zero; so is (2 l + 1) a t
        let both = ci.times(co).times(mid);
        lemma_times_assoc(ci, co, mid);
        lemma_times_assoc(ci, R::int_val(l + 1), up);
        lemma_times_comm(ci, R::int_val(l + 1));
        lemma_times_assoc(R::int_val(l + 1), ci, up);
        lemma_times_assoc(co, R::int_val(a), t);
        lemma_times_comm(co, R::int_val(a));
        lemma_times_assoc(R::int_val(a), co, t);
        assert(co.times(R::int_val(a).times(t)) == both) by {
            if a - 1 == l {
                assert(2 * (a - 1) + 1 == 2 * l + 1);
            } else {
                lemma_int_nonzero::<R>(2 * (a - 1) + 1);
                lemma_other_factor(R::int_val(2 * (a - 1) + 1), t);
                lemma_times_zero(co);
                lemma_times_zero(R::int_val(a));
                lemma_times_zero(R::int_val(l + 1));
            }
        }
        // (2 l + 1) (k s + a t) == both, so k s == 0
        let (ks, at) = (R::int_val(k).times(s), R::int_val(a).times(t));
        lemma_times_comm(ci, co);
        lemma_times_assoc(co, ci, mid);
        lemma_distribute(co, ks, at);
        lemma_minus_plus(co.times(ks), both);
        lemma_minus_self(both);
        assert(co.times(ks) == zero);
        lemma_int_nonzero::<R>(2 * l + 1);
        lemma_other_factor(co, ks);
        lemma_int_nonzero::<R>(k);
        lemma_other_factor(R::int_val(k), s);
        lemma_times_zero(R::int_val(2 * k + 1));
    } else {
        assert(k <= h && l < h);
    }
}

// ── integrals of powers ─────────────────────────────────────────────────────

/// The integral of `xᵐ P(k)` over `[-1, 1]`.
spec fn moment<R: Real>(m: int, k: int) -> R
    decreases m,
{
    if k <= 0 {
        if m % 2 == 0 {
            ratio_val(2, m + 1)
        } else {
            R::zero_val()
        }
    } else if m <= 0 {
        R::zero_val()
    } else {
        ratio_val::<R>(m, m + k + 1).times(moment(m - 1, k - 1))
    }
}

/// `(m + k + 1) I(m, k) == m I(m − 1, k − 1)`.
proof fn lemma_moment_down<R: Real>(m: int, k: int)
    requires
        exact_field::<R>(),
        exact_integers::<R>(),
        1 <= m,
        1 <= k,
    ensures
        R::int_val(m + k + 1).times(moment::<R>(m, k)) == R::int_val(m).times(
            moment::<R>(m - 1, k - 1),
        ),
{
    let (a, b) = (R::int_val(m), R::int_val(m + k + 1));
    let q = ratio_val::<R>(m, m + k + 1);
    lemma_over(a, b);
    lemma_int_nonzero::<R>(m + k + 1);
    lemma_quotient(a, b);
    lemma_times_assoc(b, q, moment::<R>(m - 1, k - 1));
    lemma_times_comm(b, q);
}

/// `(m − k) I(m, k) == m I(m − 1, k + 1)`.
proof fn lemma_moment_across<R: Real>(m: int, k: int)
    requires
        exact_field::<R>(),
        exact_integers::<R>(),
        1 <= m,
        0 <= k,
    ensures
        R::int_val(m - k).times(moment::<R>(m, k)) == R::int_val(m).times(
            moment::<R>(m - 1, k + 1),
        ),
    decreases m,
{
    let zero = R::zero_val();
    lemma_over(zero, zero);
    lemma_int_units::<R>();
    let (i, j) = (moment::<R>(m, k), moment::<R>(m - 1, k + 1));
    if m == 1 {
        assert(j == zero);
        lemma_times_zero(R::int_val(1));
        if k == 0 {
            assert(i == zero);
        } else if k == 1 {
            lemma_times_zero(i);
        } else {
            assert(moment::<R>(0, k - 1) == zero);
            lemma_times_zero(ratio_val::<R>(1, 1 + k + 1));
            lemma_times_zero(R::int_val(1 - k));
        }
    } else {
        lemma_moment_down::<R>(m - 1, k + 1);
        let d = R::int_val(m + k + 1);
        lemma_int_nonzero::<R>(m + k + 1);
        assert(m - 1 + (k + 1) + 1 == m + k + 1);
        if k == 0 {
            // (m + 1) j == (m − 1) I(m − 2, 0)
            let low = moment::<R>(m - 2, 0);
            let e = R::int_val(m - 1);
            if m % 2 == 0 {
                assert((m - 2) % 2 == 0);
                lemma_int_nonzero::<R>(m - 1);
                lemma_quotient(R::int_val(2), e);
                lemma_quotient(R::int_val(2), d);
                lemma_times_comm(e, low);
                lemma_times_comm(d, i);
                assert(d.times(i) == d.times(j));
            } else {
                assert((m - 2) % 2 != 0);
                lemma_times_zero(e);
                lemma_times_zero(d);
                assert(d.times(i) == d.times(j));
            }
            lemma_cancel_factor(d, i, j);
        } else {
            lemma_moment_down::<R>(m, k);
            lemma_moment_across::<R>(m - 1, k - 1);
            let (a, b, c) = (R::int_val(m), R::int_val(m - k), R::int_val(m - 1));
            let (p, q) = (moment::<R>(m - 1, k - 1), moment::<R>(m - 2, k));
            assert(m - 1 - (k - 1) == m - k);
            // d (b i) == b a p == a (c q) == d (a j)
            lemma_times_assoc(d, b, i);
            lemma_times_comm(d, b);
            lemma_times_assoc(b, d, i);
            lemma_times_assoc(b, a, p);
            lemma_times_comm(b, a);
            lemma_times_assoc(a, b, p);
            lemma_times_assoc(d, a, j);
            lemma_times_comm(d, a);
            lemma_times_assoc(a, d, j);
            lemma_cancel_factor(d, b.times(i), a.times(j));
        }
    }
}

/// `(2 k + 1) I(m, k) == (k + 1) I(m − 1, k + 1) + k I(m − 1, k − 1)`.
proof fn lemma_moment_recurrence<R: Real>(m: int, k: int)
    requires
        exact_field::<R>(),
        exact_integers::<R>(),
        1 <= m,
        1 <= k,
    ensures
        R::int_val(k + 1).times(moment::<R>(m - 1, k + 1)).plus(
            R::int_val(k).times(moment::<R>(m - 1, k - 1)),
        ) == R::int_val(2 * k + 1).times(moment::<R>(m, k)),
{
    lemma_over(R::one_val(), R::one_val());
    lemma_moment_down::<R>(m, k);
    lemma_moment_across::<R>(m, k);
    let (a, b, c) = (R::int_val(m), R::int_val(k + 1), R::int_val(k));
    let (i, up, low) = (moment::<R>(m, k), moment::<R>(m - 1, k + 1), moment::<R>(m - 1, k - 1));
    // a (b up) == ((k + 1) (m − k)) i, a (c low) == (k (m + k + 1)) i
    lemma_times_assoc(a, b, up);
    lemma_times_comm(a, b);
    lemma_times_assoc(b, a, up);
    lemma_times_assoc(b, R::int_val(m - k), i);
    lemma_int_times::<R>(k + 1, m - k);
    lemma_times_assoc(a, c, low);
    lemma_times_comm(a, c);
    lemma_times_assoc(c, a, low);
    lemma_times_assoc(c, R::int_val(m + k + 1), i);
    lemma_int_times::<R>(k, m + k + 1);
    lemma_int_plus::<R>((k + 1) * (m - k), k * (m + k + 1));
    assert((k + 1) * (m - k) + k * (m + k + 1) == m * (2 * k + 1)) by (nonlinear_arith);
    lemma_int_times::<R>(m, 2 * k + 1);
    let (p, q) = (R::int_val((k + 1) * (m - k)), R::int_val(k * (m + k + 1)));
    lemma_distribute(i, p, q);
    lemma_times_comm(i, p);
    lemma_times_comm(i, q);
    lemma_times_comm(i, p.plus(q));
    lemma_distribute(a, b.times(up), c.times(low));
    lemma_times_assoc(a, R::int_val(2 * k + 1), i);
    lemma_int_nonzero::<R>(m);
    lemma_cancel_factor(a, b.times(up).plus(c.times(low)), R::int_val(2 * k + 1).times(i));
}

/// A rule over which the polynomials up to `h` are orthogonal integrates products of powers and
/// Legendre polynomials of degree below `2 h` exactly.
proof fn lemma_moments_agree<R: Real>(x: Seq<R>, w: Seq<R>, n: int, h: int, m: int, k: int)
    requires
        exact_field::<R>(),
        exact_integers::<R>(),
        orthogonal_up_to(x, w, n, h),
        0 <= m,
        0 <= k,
        m + k < 2 * h,
    ensures
        sum(n, weighted(x, w, |j: int| to_power(x[j], m), k)) == moment::<R>(m, k),
    decreases m,
{
    let zero = R::zero_val();
    lemma_over(zero, zero);
    lemma_int_units::<R>();
    let p = |j: int| to_power(x[j], m);
    if m == 0 {
        lemma_spread(x, w, n, h, k, 0);
        let (f, g) = (weighted(x, w, p, k), pair_terms(x, w, k, 0));
        lemma_sum_ext(n, f, g);
        let s = pair_sum(x, w, n, k, 0);
        lemma_int_nonzero::<R>(2 * k + 1);
        if k == 0 {
            lemma_times_one(s);
            lemma_int_nonzero::<R>(1);
            lemma_quotient(R::int_val(2), R::int_val(1));
            lemma_times_one(ratio_val::<R>(2, 1));
        } else {
            lemma_other_factor(R::int_val(2 * k + 1), s);
        }
    } else {
        let o = |j: int| to_power(x[j], m - 1);
        let xo = |j: int| x[j].times(o(j));
        let (f, g) = (weighted(x, w, p, k), weighted(x, w, xo, k));
        assert forall|j: int| 0 <= j < n implies #[trigger] f(j) == g(j) by {
            lemma_times_comm(o(j), x[j]);
        }
        lemma_sum_ext(n, f, g);
        lemma_moments_agree(x, w, n, h, m - 1, k + 1);
        if k == 0 {
            // x P(0) is P(1)
            let e = weighted(x, w, o, 1);
            assert forall|j: int| 0 <= j < n implies #[trigger] g(j) == e(j) by {
                lemma_times_one(xo(j));
            }
            lemma_sum_ext(n, g, e);
            lemma_moment_across::<R>(m, 0);
            lemma_int_nonzero::<R>(m);
            lemma_cancel_factor(R::int_val(m), moment::<R>(m, 0), moment::<R>(m - 1, 1));
        } else {
            lemma_moments_agree(x, w, n, h, m - 1, k - 1);
            lemma_recurrence_sum(x, w, n, o, k);
            lemma_moment_recurrence::<R>(m, k);
            lemma_int_nonzero::<R>(2 * k + 1);
            lemma_cancel_factor(R::int_val(2 * k + 1), sum(n, g), moment::<R>(m, k));
        }
    }
}

// ── kernels of the rules ────────────────────────────────────────────────────

/// The factors `2 k + 1`.
spec fn odd_numbers<R: Real>() -> spec_fn(int) -> R {
    |k: int| R::int_val(2 * k + 1)
}

/// `x − y` times the kernel of the first `n` polynomials is
/// `n (P(n, x) P(n − 1, y) − P(n − 1, x) P(n, y))`.
proof fn lemma_kernel<R: Real>(n: int, x: R, y: R)
    requires
        exact_field::<R>(),
        exact_integers::<R>(),
        1 <= n,
    ensures
        x.minus(y).times(sum(n, kernel_terms(odd_numbers(), x, y))) == R::int_val(n).times(
            legendre_value(n, x).times(legendre_value(n - 1, y)).minus(
                legendre_value(n - 1, x).times(legendre_value(n, y)),
            ),
        ),
    decreases n,
{
    let one = R::one_val();
    lemma_over(one, one);
    lemma_int_units::<R>();
    let f = kernel_terms(odd_numbers::<R>(), x, y);
    let s = x.minus(y);
    if n == 1 {
        assert(sum(1, f) == sum(0, f).plus(f(0)));
        lemma_times_one(one);
        lemma_plus_zero(one);
        lemma_times_one(x);
        lemma_times_one(y);
        lemma_times_one(s);
    } else {
        let k = n - 1;
        lemma_kernel(k, x, y);
        law_legendre_recurrence(k, x);
        law_legendre_recurrence(k, y);
        let (c, a, b) = (R::int_val(2 * k + 1), R::int_val(k + 1), R::int_val(k));
        let (p, q, r) = (legendre_value(k + 1, x), legendre_value(k, x), legendre_value(k - 1, x));
        let (u, v, t) = (legendre_value(k + 1, y), legendre_value(k, y), legendre_value(k - 1, y));
        // s (c (q v)) == (c x q) v − (c y v) q == (a p + b r) v − (a u + b t) q
        let cqv = c.times(q.times(v));
        lemma_distribute_minus(cqv, x, y);
        lemma_times_comm(cqv, s);
        lemma_arrange(c, x, q, v);
        lemma_times_comm(q, v);
        lemma_arrange(c, y, v, q);
        let (ap, br, au, bt) = (a.times(p), b.times(r), a.times(u), b.times(t));
        lemma_distribute(v, ap, br);
        lemma_times_comm(v, ap);
        lemma_times_comm(v, br);
        lemma_times_comm(v, ap.plus(br));
        lemma_distribute(q, au, bt);
        lemma_times_comm(q, au);
        lemma_times_comm(q, bt);
        lemma_times_comm(q, au.plus(bt));
        assert(s.times(cqv) == ap.times(v).plus(br.times(v)).minus(au.times(q).plus(bt.times(q))));
        // == a (p v − q u) − b (q t − r v)
        lemma_times_assoc(a, p, v);
        lemma_times_assoc(b, r, v);
        lemma_times_assoc(a, u, q);
        lemma_times_assoc(b, t, q);
        lemma_times_comm(u, q);
        lemma_times_comm(t, q);
        let (apv, brv, aqu, bqt) = (
            a.times(p.times(v)),
            b.times(r.times(v)),
            a.times(q.times(u)),
            b.times(q.times(t)),
        );
        lemma_distribute_minus(a, p.times(v), q.times(u));
        lemma_distribute_minus(b, q.times(t), r.times(v));
        lemma_regroup(apv, brv, aqu, bqt);
        // the step and the kernel so far add up
        let before = sum(k, f);
        lemma_distribute(s, before, cqv);
        let low = b.times(q.times(t).minus(r.times(v)));
        lemma_plus_comm(low, s.times(cqv));
        lemma_minus_plus(a.times(p.times(v).minus(q.times(u))), low);
    }
}

/// `(c (q v)) x == (c x q) v`.
proof fn lemma_arrange<R: Real>(c: R, x: R, q: R, v: R)
    requires
        exact_ring::<R>(),
    ensures
        c.times(q.times(v)).times(x) == c.times(x).times(q).times(v),
        x.times(c.times(q.times(v))) == c.times(x).times(q).times(v),
{
    lemma_times_swap(c, q.times(v), x);
    lemma_times_assoc(c.times(x), q, v);
    lemma_times_comm(x, c.times(q.times(v)));
}

/// `(a + b) − (c + d) == (a − c) − (d − b)`.
proof fn lemma_regroup<R: Real>(a: R, b: R, c: R, d: R)
    requires
        exact_ring::<R>(),
    ensures
        a.plus(b).minus(c.plus(d)) == a.minus(c).minus(d.minus(b)),
{
    lemma_minus(a.plus(b), c.plus(d));
    lemma_negated_sum(c, d);
    lemma_plus_cross(a, b, c.negated(), d.negated());
    lemma_minus(a, c);
    lemma_minus(b, d);
    lemma_minus_flip(b, d);
    lemma_minus(a.minus(c), d.minus(b));
}

/// The kernel at one point: `n (P′(n) P(n − 1) − P′(n − 1) P(n))`.
proof fn lemma_kernel_at_point<R: Real>(n: int, x: R)
    requires
        exact_field::<R>(),
        exact_integers::<R>(),
        1 <= n,
    ensures
        sum(n, kernel_terms(odd_numbers(), x, x)) == R::int_val(n).times(
            legendre_derivative(n, x).times(legendre_value(n - 1, x)).minus(
                legendre_derivative(n - 1, x).times(legendre_value(n, x)),
            ),
        ),
    decreases n,
{
    let one = R::one_val();
    lemma_over(one, one);
    lemma_int_units::<R>();
    let f = kernel_terms(odd_numbers::<R>(), x, x);
    if n == 1 {
        assert(sum(1, f) == sum(0, f).plus(f(0)));
        lemma_times_one(one);
        lemma_plus_zero(one);
        lemma_times_zero(x);
        lemma_minus_plus(one, R::zero_val());
        lemma_plus_zero(one.minus(R::zero_val()));
    } else {
        let k = n - 1;
        lemma_kernel_at_point(k, x);
        law_legendre_recurrence(k, x);
        let (c, a, b) = (R::int_val(2 * k + 1), R::int_val(k + 1), R::int_val(k));
        let (p, q, r) = (legendre_value(k + 1, x), legendre_value(k, x), legendre_value(k - 1, x));
        let (u, v, t) = (
            legendre_derivative(k + 1, x),
            legendre_derivative(k, x),
            legendre_derivative(k - 1, x),
        );
        // a u + b t == c (q + x v)
        let top = c.times(q.plus(x.times(v)));
        assert(2 * (k + 1) - 1 == 2 * k + 1);
        assert(u == top.minus(b.times(t)).over(a));
        lemma_int_nonzero::<R>(k + 1);
        lemma_quotient(top.minus(b.times(t)), a);
        lemma_times_comm(a, u);
        lemma_minus_plus(top, b.times(t));
        let (ap, br, au, bt) = (a.times(p), b.times(r), a.times(u), b.times(t));
        assert(au.plus(bt) == top);
        // (a u + b t) q − (a p + b r) v == c q q
        lemma_distribute(q, au, bt);
        lemma_times_comm(q, au);
        lemma_times_comm(q, bt);
        lemma_times_comm(q, top);
        lemma_distribute(v, ap, br);
        lemma_times_comm(v, ap);
        lemma_times_comm(v, br);
        lemma_times_comm(v, ap.plus(br));
        let xv = x.times(v);
        // top q == c (q q) + c (xv q) and (c x q) v == c (xv q)
        lemma_times_assoc(c, q.plus(xv), q);
        lemma_distribute(q, q, xv);
        lemma_times_comm(q, q.plus(xv));
        lemma_distribute(c, q.times(q), q.times(xv));
        lemma_times_assoc(c.times(x), q, v);
        lemma_times_assoc(c, x, q.times(v));
        lemma_times_assoc(x, q, v);
        lemma_times_comm(x, q);
        lemma_times_assoc(q, x, v);
        let (cqq, rest) = (c.times(q.times(q)), c.times(q.times(xv)));
        lemma_minus_plus(cqq, rest);
        assert(au.times(q).plus(bt.times(q)).minus(ap.times(v).plus(br.times(v))) == cqq);
        // == a (u q − v p) − b (v r − t q)
        lemma_times_assoc(a, u, q);
        lemma_times_assoc(b, t, q);
        lemma_times_assoc(a, p, v);
        lemma_times_assoc(b, r, v);
        lemma_times_comm(p, v);
        lemma_times_comm(r, v);
        lemma_distribute_minus(a, u.times(q), v.times(p));
        lemma_distribute_minus(b, v.times(r), t.times(q));
        lemma_regroup(
            a.times(u.times(q)),
            b.times(t.times(q)),
            a.times(v.times(p)),
            b.times(v.times(r)),
        );
        let low = b.times(v.times(r).minus(t.times(q)));
        lemma_plus_comm(low, cqq);
        lemma_minus_plus(a.times(u.times(q).minus(v.times(p))), low);
    }
}

// ── the rules ───────────────────────────────────────────────────────────────

/// Neighbouring Legendre polynomials have no root in common.
proof fn lemma_no_common_root<R: Real>(n: int, x: R)
    requires
        exact_field::<R>(),
        exact_integers::<R>(),
        1 <= n,
        legendre_value(n, x) == R::zero_val(),
    ensures
        legendre_value(n - 1, x) != R::zero_val(),
    decreases n,
{
    let zero = R::zero_val();
    lemma_over(zero, zero);
    if legendre_value(n - 1, x) == zero && n >= 2 {
        law_legendre_recurrence(n - 1, x);
        let low = legendre_value(n - 2, x);
        let c = R::int_val(n - 1);
        lemma_times_zero(R::int_val(n));
        lemma_times_zero(R::int_val(2 * (n - 1) + 1).times(x));
        lemma_plus_zero(c.times(low));
        lemma_plus_comm(zero, c.times(low));
        lemma_int_nonzero::<R>(n - 1);
        lemma_other_factor(c, low);
        lemma_no_common_root(n - 1, x);
    }
}

/// At a root of the polynomial the kernel is `(1 − x²) P′²`, and neither factor is zero.
proof fn lemma_gauss_point<R: Real>(n: int, x: R)
    requires
        exact_field::<R>(),
        exact_integers::<R>(),
        1 <= n,
        legendre_value(n, x) == R::zero_val(),
    ensures
        x.times(x) != R::one_val(),
        legendre_derivative(n, x) != R::zero_val(),
        ({
            let d = legendre_derivative(n, x);
            sum(n, kernel_terms(odd_numbers(), x, x)) == R::one_val().minus(x.times(x)).times(
                d.times(d),
            )
        }),
{
    let (one, zero) = (R::one_val(), R::zero_val());
    lemma_over(one, one);
    lemma_no_common_root(n, x);
    lemma_derivative_relations(n, x);
    lemma_kernel_at_point(n, x);
    let (c, q, d, e) = (
        R::int_val(n),
        legendre_value(n - 1, x),
        legendre_derivative(n, x),
        legendre_derivative(n - 1, x),
    );
    let s = x.times(x).minus(one);
    lemma_times_zero(x);
    lemma_times_zero(e);
    lemma_times_zero(s);
    lemma_times_zero(d);
    // s d == c (0 − q) == −(c q)
    lemma_minus(zero, q);
    lemma_plus_zero(q.negated());
    lemma_plus_comm(zero, q.negated());
    lemma_times_negated(c, q);
    assert(s.times(d) == c.times(q).negated());
    lemma_int_nonzero::<R>(n);
    lemma_product_nonzero(c, q);
    lemma_negated_twice(c.times(q));
    lemma_zero_negated::<R>();
    assert(s.times(d) != zero);
    lemma_minus_zero(x.times(x), one);
    // the kernel is c (d q − 0) == d (c q) == d ((1 − x²) d)
    lemma_minus_plus(d.times(q), zero);
    lemma_plus_zero(d.times(q).minus(zero));
    lemma_times_assoc(c, d, q);
    lemma_times_comm(c, d);
    lemma_times_assoc(d, c, q);
    lemma_minus_flip(one, x.times(x));
    lemma_times_negated(s, d);
    let o = one.minus(x.times(x));
    assert(c.times(q) == o.times(d));
    lemma_times_assoc(d, o, d);
    lemma_times_comm(d, o);
    lemma_times_assoc(o, d, d);
}

/// The negation of zero.
proof fn lemma_zero_negated<R: Real>()
    requires
        exact_ring::<R>(),
    ensures
        R::zero_val().negated() == R::zero_val(),
{
    lemma_negated(R::zero_val());
    lemma_plus_zero(R::zero_val().negated());
}

/// Weighted powers at the points of a rule.
pub open spec fn rule_terms<R: Real>(x: Seq<R>, w: Seq<R>, m: int) -> spec_fn(int) -> R {
    |i: int| w[i].times(to_power(x[i], m))
}

/// The integral of `xᵐ` over `[-1, 1]`.
pub open spec fn power_integral<R: Real>(m: int) -> R {
    if m % 2 == 0 {
        ratio_val(2, m + 1)
    } else {
        R::zero_val()
    }
}

/// Orthogonality makes a rule exact.
proof fn lemma_exact_powers<R: Real>(x: Seq<R>, w: Seq<R>, n: int, h: int, m: int)
    requires
        exact_field::<R>(),
        exact_integers::<R>(),
        orthogonal_up_to(x, w, n, h),
        0 <= m < 2 * h,
    ensures
        sum(n, rule_terms(x, w, m)) == power_integral::<R>(m),
{
    lemma_over(R::one_val(), R::one_val());
    lemma_moments_agree(x, w, n, h, m, 0);
    let (f, g) = (weighted(x, w, |j: int| to_power(x[j], m), 0), rule_terms(x, w, m));
    assert forall|j: int| 0 <= j < n implies #[trigger] f(j) == g(j) by {
        lemma_times_one(to_power(x[j], m));
    }
    lemma_sum_ext(n, f, g);
}

/// Gauss quadrature with `n` points integrates the powers up to `2 n − 1` exactly, where its points
/// are distinct and the roots of the Legendre polynomial of degree `n` that they stand for.
pub proof fn law_gauss_rule_is_exact<R: Real>(n: int, m: int)
    requires
        exact_field::<R>(),
        exact_integers::<R>(),
        1 <= n,
        0 <= m <= 2 * n - 1,
        distinct(gauss_points::<R>(n), n),
        forall|i: int|
            0 <= i < n ==> legendre_value(n, #[trigger] gauss_points::<R>(n)[i])
                == R::zero_val(),
    ensures
        sum(n, rule_terms(gauss_points::<R>(n), gauss_weights::<R>(n), m)) == power_integral::<R>(
            m,
        ),
{
    let zero = R::zero_val();
    lemma_over(zero, zero);
    let (x, w) = (gauss_points::<R>(n), gauss_weights::<R>(n));
    let f = odd_numbers::<R>();
    assert forall|i: int, j: int| 0 <= i < n && 0 <= j < n implies #[trigger] w[j].times(
        sum(n, kernel_terms(f, x[i], x[j])),
    ) == if i == j {
        R::int_val(2)
    } else {
        zero
    } by {
        let (a, b) = (x[i], x[j]);
        assert(legendre_value(n, x[i]) == zero);
        assert(legendre_value(n, x[j]) == zero);
        if i == j {
            lemma_gauss_point(n, a);
            law_gauss_weights::<R>(n, i);
        } else {
            lemma_kernel(n, a, b);
            lemma_times_zero(legendre_value(n - 1, b));
            lemma_times_zero(legendre_value(n - 1, a));
            lemma_minus_self(zero);
            lemma_times_zero(R::int_val(n));
            lemma_minus_zero(a, b);
            assert(x[i] != x[j]);
            lemma_other_factor(a.minus(b), sum(n, kernel_terms(f, a, b)));
            lemma_times_zero(w[j]);
        }
    }
    assert forall|k: int, l: int| 0 <= k <= n && 0 <= l < n implies #[trigger] R::int_val(
        2 * k + 1,
    ).times(pair_sum(x, w, n, k, l)) == if k == l {
        R::int_val(2)
    } else {
        zero
    } by {
        if k < n {
            lemma_orthogonal(x, w, n, f, k, l);
        } else {
            let t = pair_terms(x, w, n, l);
            assert forall|j: int| 0 <= j < n implies #[trigger] t(j) == zero by {
                assert(legendre_value(n, x[j]) == zero);
                lemma_times_zero(legendre_value(l, x[j]));
                lemma_times_zero(w[j]);
            }
            lemma_sum_zero(n, t);
            lemma_times_zero(R::int_val(2 * k + 1));
        }
    }
    lemma_exact_powers(x, w, n, n, m);
}

/// The factors of the kernel of the Gauss–Lobatto rule.
spec fn lobatto_factors<R: Real>(n: int) -> spec_fn(int) -> R {
    |k: int|
        if k < n - 1 {
            R::int_val(2 * k + 1)
        } else {
            R::int_val(n - 1)
        }
}

/// At a Gauss–Lobatto point `P(n − 2) = x P(n − 1)`, and `P(n − 1)` is not zero.
proof fn lemma_lobatto_point<R: Real>(n: int, x: R)
    requires
        exact_field::<R>(),
        exact_integers::<R>(),
        2 <= n,
        x.times(x) == R::one_val() || legendre_derivative(n - 1, x) == R::zero_val(),
    ensures
        legendre_value(n - 2, x) == x.times(legendre_value(n - 1, x)),
        legendre_value(n - 1, x) != R::zero_val(),
{
    let (one, zero) = (R::one_val(), R::zero_val());
    lemma_over(one, one);
    let k = n - 1;
    lemma_derivative_relations(k, x);
    let s = x.times(x).minus(one);
    let d = legendre_derivative(k, x);
    lemma_minus_self(one);
    lemma_times_zero(s);
    lemma_times_zero(d);
    let (p, q) = (legendre_value(k, x), legendre_value(k - 1, x));
    lemma_int_nonzero::<R>(k);
    lemma_other_factor(R::int_val(k), x.times(p).minus(q));
    lemma_minus_zero(x.times(p), q);
    if p == zero {
        lemma_times_zero(x);
        lemma_no_common_root(k, x);
    }
}

/// The kernel of the Gauss–Lobatto rule at two of its points.
proof fn lemma_lobatto_kernel<R: Real>(n: int, x: R, y: R)
    requires
        exact_field::<R>(),
        exact_integers::<R>(),
        2 <= n,
        legendre_value(n - 2, x) == x.times(legendre_value(n - 1, x)),
        legendre_value(n - 2, y) == y.times(legendre_value(n - 1, y)),
    ensures
        ({
            let s = sum(n, kernel_terms(lobatto_factors(n), x, y));
            let (p, q) = (legendre_value(n - 1, x), legendre_value(n - 1, y));
            s == if x == y {
                R::int_val(n * (n - 1)).times(p.times(p))
            } else {
                R::zero_val()
            }
        }),
{
    let zero = R::zero_val();
    lemma_over(zero, zero);
    let k = n - 1;
    let (f, g) = (kernel_terms(lobatto_factors::<R>(n), x, y), kernel_terms(odd_numbers(), x, y));
    lemma_sum_ext(k, f, g);
    let low = sum(k, g);
    let c = R::int_val(k);
    let (p, q) = (legendre_value(k, x), legendre_value(k, y));
    let last = c.times(p.times(q));
    assert(sum(n, f) == low.plus(last));
    if x == y {
        lemma_kernel_at_point(k, x);
        lemma_derivative_relations(k, x);
        let (d, e) = (legendre_derivative(k, x), legendre_derivative(k - 1, x));
        // d (x p) − e p == (x d − e) p == (c p) p
        lemma_times_assoc(d, x, p);
        lemma_times_comm(d, x);
        lemma_distribute_minus(p, x.times(d), e);
        lemma_times_assoc(c, p, p);
        let pp = p.times(p);
        // c (c pp) + c pp == (c c + c) pp
        lemma_times_assoc(c, c, pp);
        lemma_int_times::<R>(k, k);
        lemma_int_plus::<R>(k * k, k);
        assert(k * k + k == n * (n - 1)) by (nonlinear_arith)
            requires
                k == n - 1,
        ;
        lemma_distribute(pp, R::int_val(k * k), c);
        lemma_times_comm(pp, R::int_val(k * k));
        lemma_times_comm(pp, c);
        lemma_times_comm(pp, R::int_val(n * (n - 1)));
    } else {
        lemma_kernel(k, x, y);
        let pq = p.times(q);
        // p (y q) − (x p) q == (y − x) pq
        lemma_times_assoc(p, y, q);
        lemma_times_comm(p, y);
        lemma_times_assoc(y, p, q);
        lemma_times_assoc(x, p, q);
        lemma_distribute_minus(pq, y, x);
        // (x − y) low == c ((y − x) pq) == −((x − y) last)
        let s = x.minus(y);
        lemma_minus_flip(y, x);
        lemma_times_negated(s, pq);
        lemma_times_negated(c, s.times(pq));
        lemma_times_assoc(c, s, pq);
        lemma_times_comm(c, s);
        lemma_times_assoc(s, c, pq);
        assert(s.times(low) == s.times(last).negated());
        lemma_distribute(s, low, last);
        lemma_negated(s.times(last));
        lemma_minus_zero(x, y);
        lemma_other_factor(s, low.plus(last));
    }
}

/// Gauss–Lobatto quadrature with `n` points integrates the powers up to `2 n − 3` exactly, where
/// its points are distinct and the inner ones the roots of the derivative of the Legendre polynomial
/// of degree `n − 1` that they stand for.
pub proof fn law_lobatto_rule_is_exact<R: Real>(n: int, m: int)
    requires
        exact_field::<R>(),
        exact_integers::<R>(),
        2 <= n,
        0 <= m <= 2 * n - 3,
        distinct(lobatto_points::<R>(n), n),
        forall|i: int|
            0 < i < n - 1 ==> legendre_derivative(n - 1, #[trigger] lobatto_points::<R>(n)[i])
                == R::zero_val(),
    ensures
        sum(n, rule_terms(lobatto_points::<R>(n), lobatto_weights::<R>(n), m))
            == power_integral::<R>(m),
{
    let (one, zero) = (R::one_val(), R::zero_val());
    lemma_over(one, one);
    lemma_int_units::<R>();
    lemma_int_times::<R>(-1, -1);
    lemma_times_one(one);
    let (x, w) = (lobatto_points::<R>(n), lobatto_weights::<R>(n));
    let f = lobatto_factors::<R>(n);
    assert forall|i: int| 0 <= i < n implies legendre_value(n - 2, #[trigger] x[i]) == x[i].times(
        legendre_value(n - 1, x[i]),
    ) && legendre_value(n - 1, x[i]) != zero by {
        if 0 < i < n - 1 {
            assert(legendre_derivative(n - 1, x[i]) == zero);
        }
        lemma_lobatto_point(n, x[i]);
    }
    assert forall|i: int, j: int| 0 <= i < n && 0 <= j < n implies #[trigger] w[j].times(
        sum(n, kernel_terms(f, x[i], x[j])),
    ) == if i == j {
        R::int_val(2)
    } else {
        zero
    } by {
        assert(legendre_value(n - 2, x[i]) == x[i].times(legendre_value(n - 1, x[i])));
        assert(legendre_value(n - 2, x[j]) == x[j].times(legendre_value(n - 1, x[j])));
        lemma_lobatto_kernel(n, x[i], x[j]);
        if i == j {
            law_lobatto_weights::<R>(n, i);
        } else {
            assert(x[i] != x[j]);
            lemma_times_zero(w[j]);
        }
    }
    let h = n - 1;
    assert forall|k: int, l: int| 0 <= k <= h && 0 <= l < h implies #[trigger] R::int_val(
        2 * k + 1,
    ).times(pair_sum(x, w, n, k, l)) == if k == l {
        R::int_val(2)
    } else {
        zero
    } by {
        lemma_orthogonal(x, w, n, f, k, l);
        if k == h {
            lemma_int_nonzero::<R>(h);
            lemma_other_factor(R::int_val(h), pair_sum(x, w, n, k, l));
            lemma_times_zero(R::int_val(2 * k + 1));
        }
    }
    lemma_exact_powers(x, w, n, h, m);
}

} // verus!
