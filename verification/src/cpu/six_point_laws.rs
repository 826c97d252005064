//! The six-point rule on the triangle, whose numbers are rounded to fifteen digits.

use vstd::prelude::*;

#[allow(unused_imports)]
use crate::cpu::rule_laws::{
    arranged, factorial, lemma_arranged, lemma_from_product, plane_moments, raised,
};
#[allow(unused_imports)]
use crate::cpu::simplex_shapes::{
    tri_rule6_points, tri_rule6_weights, tri_rule_points, tri_rule_weights,
};
#[allow(unused_imports)]
use crate::exact::{
    exact_integers, lemma_int_nonzero, lemma_int_plus, lemma_int_times, lemma_int_units,
    lemma_quotient, lemma_times_cross,
};
use crate::scalar::Real;
#[allow(unused_imports)]
use crate::scalar::{
    exact_field, exact_ring, lemma_distribute, lemma_over, lemma_times_assoc, lemma_times_comm,
    lemma_times_zero, ratio_val, sum,
};

verus! {

/// `v` is the quotient of the integers `num` and `den`.
spec fn scaled<R: Real>(v: R, num: int, den: int) -> bool {
    v.times(R::int_val(den)) == R::int_val(num)
}

proof fn lemma_scaled_times<R: Real>(v: R, x: R, n: int, m: int, d: int, e: int, p: int, q: int)
    requires
        exact_ring::<R>(),
        exact_integers::<R>(),
        scaled(v, n, d),
        scaled(x, m, e),
        p == m * n,
        q == e * d,
    ensures
        scaled(v.times(x), p, q),
{
    let (dr, er) = (R::int_val(d), R::int_val(e));
    lemma_int_times::<R>(m, n);
    lemma_int_times::<R>(e, d);
    lemma_times_comm(er, dr);
    lemma_times_cross(v, x, dr, er);
    lemma_times_comm(R::int_val(n), R::int_val(m));
}

proof fn lemma_scaled_plus<R: Real>(v: R, u: R, n: int, m: int, d: int)
    requires
        exact_ring::<R>(),
        exact_integers::<R>(),
        scaled(v, n, d),
        scaled(u, m, d),
    ensures
        scaled(v.plus(u), n + m, d),
{
    let dr = R::int_val(d);
    lemma_int_plus::<R>(n, m);
    lemma_distribute(dr, v, u);
    lemma_times_comm(dr, v);
    lemma_times_comm(dr, u);
    lemma_times_comm(dr, v.plus(u));
}

/// A quotient of integers, with numerator and denominator enlarged.
proof fn lemma_scaled_ratio<R: Real>(p: int, d: int, k: int)
    requires
        exact_field::<R>(),
        exact_integers::<R>(),
        d != 0,
    ensures
        scaled(ratio_val::<R>(p, d), p * k, d * k),
{
    let v = ratio_val::<R>(p, d);
    lemma_int_nonzero::<R>(d);
    lemma_quotient(R::int_val(p), R::int_val(d));
    lemma_int_times::<R>(d, k);
    lemma_int_times::<R>(p, k);
    lemma_times_assoc(v, R::int_val(d), R::int_val(k));
}

/// Number of the coordinate of a point along axis `t`: the coordinates of the rule are numbered.
spec fn six_coordinate(i: int, t: int) -> int {
    if i < 3 {
        if i == t + 1 {
            1
        } else {
            0
        }
    } else if i == t + 4 {
        3
    } else {
        2
    }
}

/// An integer times the digits of coordinate `c`.
spec fn six_times(c: int, v: int) -> int {
    if c == 0 {
        445948490915965 * v
    } else if c == 1 {
        108103018168070 * v
    } else if c == 2 {
        91576213509771 * v
    } else {
        816847572980459 * v
    }
}

/// An integer times a power of those digits.
spec fn six_raised(c: int, k: int, v: int) -> int
    decreases k,
{
    if k <= 0 {
        v
    } else {
        six_times(c, six_raised(c, k - 1, v))
    }
}

/// The digits of a weight.
spec fn six_weight(i: int) -> int {
    if i < 3 {
        111690794839005
    } else {
        54975871827661
    }
}

/// `10¹⁵` to the power `k + 1`.
pub open spec fn digits(k: int) -> int
    decreases k,
{
    if k <= 0 {
        1000000000000000
    } else {
        1000000000000000 * digits(k - 1)
    }
}

/// The sum over the first `k` points, in integers.
spec fn six_sum(k: int, a: int, b: int) -> int
    decreases k,
{
    if k <= 0 {
        0
    } else {
        six_sum(k - 1, a, b) + six_raised(
            six_coordinate(k - 1, 1),
            b,
            six_raised(six_coordinate(k - 1, 0), a, six_weight(k - 1)),
        )
    }
}

/// Coordinate number `c`.
spec fn six_value<R: Real>(c: int) -> R {
    if c == 0 {
        ratio_val(89189698183193, 200000000000000)
    } else if c == 1 {
        ratio_val(10810301816807, 100000000000000)
    } else if c == 2 {
        ratio_val(91576213509771, 1000000000000000)
    } else {
        ratio_val(816847572980459, 1000000000000000)
    }
}

proof fn lemma_six_raised<R: Real>(v: R, u: int, j: int, c: int, k: int)
    requires
        exact_field::<R>(),
        exact_integers::<R>(),
        0 <= j,
        0 <= k,
        0 <= c < 4,
        scaled(v, u, digits(j)),
    ensures
        scaled(raised(v, six_value::<R>(c), k), six_raised(c, k, u), digits(j + k)),
    decreases k,
{
    lemma_over(v, v);
    if k > 0 {
        lemma_six_raised(v, u, j, c, k - 1);
        let (w, n, d) = (
            raised(v, six_value::<R>(c), k - 1),
            six_raised(c, k - 1, u),
            digits(j + k - 1),
        );
        let x = six_value::<R>(c);
        let e: int = 1000000000000000;
        if c == 0 {
            lemma_scaled_ratio::<R>(89189698183193, 200000000000000, 5);
            lemma_scaled_times(w, x, n, 445948490915965, d, e, 445948490915965 * n, e * d);
        } else if c == 1 {
            lemma_scaled_ratio::<R>(10810301816807, 100000000000000, 10);
            lemma_scaled_times(w, x, n, 108103018168070, d, e, 108103018168070 * n, e * d);
        } else if c == 2 {
            lemma_scaled_ratio::<R>(91576213509771, 1000000000000000, 1);
            lemma_scaled_times(w, x, n, 91576213509771, d, e, 91576213509771 * n, e * d);
        } else {
            lemma_scaled_ratio::<R>(816847572980459, 1000000000000000, 1);
            lemma_scaled_times(w, x, n, 816847572980459, d, e, 816847572980459 * n, e * d);
        }
    }
}

proof fn lemma_six_sum<R: Real>(k: int, a: int, b: int)
    requires
        exact_field::<R>(),
        exact_integers::<R>(),
        0 <= k <= 6,
        0 <= a,
        0 <= b,
    ensures
        scaled(
            sum(k, plane_moments(tri_rule6_points::<R>(), tri_rule6_weights::<R>(), a, b)),
            six_sum(k, a, b),
            digits(a + b),
        ),
    decreases k,
{
    lemma_over(R::one_val(), R::one_val());
    let (x, w) = (tri_rule6_points::<R>(), tri_rule6_weights::<R>());
    let f = plane_moments(x, w, a, b);
    if k == 0 {
        lemma_int_units::<R>();
        lemma_times_zero(R::int_val(digits(a + b)));
    } else {
        let i = k - 1;
        lemma_six_sum::<R>(i, a, b);
        lemma_scaled_ratio::<R>(22338158967801, 200000000000000, 5);
        lemma_scaled_ratio::<R>(54975871827661, 1000000000000000, 1);
        let (cx, cy) = (six_coordinate(i, 0), six_coordinate(i, 1));
        assert(scaled(w[i], six_weight(i), digits(0)));
        assert(x[2 * i] == six_value::<R>(cx));
        assert(x[2 * i + 1] == six_value::<R>(cy));
        lemma_six_raised(w[i], six_weight(i), 0, cx, a);
        let u = six_raised(cx, a, six_weight(i));
        lemma_six_raised(raised(w[i], x[2 * i], a), u, a, cy, b);
        lemma_scaled_plus(sum(i, f), f(i), six_sum(i, a, b), six_raised(cy, b, u), digits(a + b));
    }
}

/// How far the rule is off on a monomial, times `(a + b + 2)!` and in units of the last digits.
pub closed spec fn six_error(a: int, b: int) -> int {
    arranged(a + b + 2, six_sum(6, a, b)) - arranged(a, arranged(b, digits(a + b)))
}

/// The error is less than thirteen digits show.
spec fn six_close(a: int, b: int) -> bool {
    -digits(a + b) <= 10000000000000 * six_error(a, b) <= digits(a + b)
}

#[verifier::rlimit(100)]
#[verifier::spinoff_prover]
proof fn lemma_six_close(a: int, b: int)
    requires
        0 <= a,
        0 <= b,
        a + b <= 4,
    ensures
        six_close(a, b),
{
    reveal_with_fuel(six_raised, 5);
    reveal_with_fuel(digits, 5);
    reveal_with_fuel(six_sum, 7);
    reveal_with_fuel(arranged, 6);
    assert(six_close(0, 0));
    assert(six_close(0, 1));
    assert(six_close(0, 2));
    assert(six_close(0, 3));
    assert(six_close(0, 4));
    assert(six_close(1, 0));
    assert(six_close(1, 1));
    assert(six_close(1, 2));
    assert(six_close(1, 3));
    assert(six_close(2, 0));
    assert(six_close(2, 1));
    assert(six_close(2, 2));
    assert(six_close(3, 0));
    assert(six_close(3, 1));
    assert(six_close(4, 0));
}

proof fn lemma_digits_positive(k: int)
    ensures
        0 < digits(k),
    decreases k,
{
    if k > 0 {
        lemma_digits_positive(k - 1);
    }
}

/// The six-point rule integrates the monomials up to degree four over the reference triangle to
/// thirteen digits: its numbers are rounded, and the integral of `xᵃ yᵇ`, `a! b! / (a + b + 2)!`,
/// comes out with a numerator that is off by an error of that size.
pub proof fn law_tri_six_point_rule_is_close<R: Real>(a: int, b: int)
    requires
        exact_field::<R>(),
        exact_integers::<R>(),
        0 <= a,
        0 <= b,
        a + b <= 4,
    ensures
        ({
            let d = digits(a + b);
            let e = six_error(a, b);
            &&& -d <= 10000000000000 * e <= d
            &&& sum(6, plane_moments(tri_rule_points::<R>(6), tri_rule_weights::<R>(6), a, b))
                == ratio_val::<R>(
                factorial(a) * (factorial(b) * d) + e,
                factorial(a + b + 2) * d,
            )
        }),
{
    lemma_six_close(a, b);
    lemma_six_sum::<R>(6, a, b);
    let (d, e, n) = (digits(a + b), six_error(a, b), six_sum(6, a, b));
    lemma_digits_positive(a + b);
    lemma_arranged(a + b + 2, n);
    lemma_arranged(b, d);
    lemma_arranged(a, arranged(b, d));
    let f = factorial(a + b + 2);
    let num = factorial(a) * (factorial(b) * d) + e;
    assert(num == f * n);
    assert(f * d != 0) by (nonlinear_arith)
        requires
            0 < f,
            0 < d,
    ;
    assert(f * d * n == num * d) by (nonlinear_arith)
        requires
            num == f * n,
    ;
    let s = sum(6, plane_moments(tri_rule_points::<R>(6), tri_rule_weights::<R>(6), a, b));
    lemma_from_product(s, n, d, num, f * d);
}

} // verus!
