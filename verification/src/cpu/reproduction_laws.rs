//! Lagrange polynomials reproduce the powers below their number from the values at the nodes, and
//! their slopes reproduce the slopes of the powers, in exact arithmetic.

use vstd::prelude::*;

#[allow(unused_imports)]
use crate::cpu::basis_lagrange::{
    lagrange_view, power, rule_points, LagrangeView,
};
#[allow(unused_imports)]
use crate::cpu::convert::{
    exact_storage, kept, lemma_kept_sum, lemma_read_back, stored, widened_all,
};
#[allow(unused_imports)]
use crate::cpu::lagrange_laws::{
    distinct, law_lagrange_partition, law_lagrange_slopes_sum_to_zero, law_line_slopes_sum_to_zero,
    lemma_first_sum, lemma_line_poles, lemma_node_from, lemma_other_slope, lemma_polynomial_nonzero,
    lemma_pull, lemma_second_pulls, line_products, line_slopes, node_polynomial, poles,
    second_pulls, tabulated, tabulated_slopes, without,
};
#[allow(unused_imports)]
use crate::cpu::lagrange_tables::{
    barycentric, first_terms, node_at, second_terms, slope_table, value_table,
};
#[allow(unused_imports)]
use crate::cpu::quadrature::{lobatto_points, tolerance};
#[allow(unused_imports)]
use crate::cpu::simplex_shapes::{line_poles, line_product};
#[allow(unused_imports)]
use crate::cpu::tensor::{axis, axis_terms};
#[allow(unused_imports)]
use crate::enums::QuadMode;
#[allow(unused_imports)]
use crate::exact::{
    exact_integers, lemma_int_plus, lemma_int_units, lemma_minus_flip, lemma_minus_plus,
    lemma_minus_self, lemma_minus_zero, lemma_negated_twice, lemma_quotient, lemma_recip,
    lemma_recip_product, lemma_times_swap, recip,
};
#[allow(unused_imports)]
use crate::index::{lemma_flat, lemma_flat3, lemma_split, lemma_split3};
#[allow(unused_imports)]
use crate::linear::lemma_sum_inserted;
use crate::scalar::{Real, Scalar};
#[allow(unused_imports)]
use crate::scalar::{
    exact_field, exact_ring, lemma_distribute, lemma_minus, lemma_negated, lemma_over,
    lemma_plus_assoc, lemma_plus_comm, lemma_plus_zero, lemma_sum_ext, lemma_sum_plus,
    lemma_sum_scale, lemma_sum_single, lemma_times_assoc, lemma_times_comm, lemma_times_negated,
    lemma_times_one, lemma_times_zero, sum,
};

verus! {

// ── powers and moments ──────────────────────────────────────────────────────

/// `xᵐ`.
pub open spec fn to_power<R: Real>(x: R, m: int) -> R
    decreases m,
{
    if m <= 0 {
        R::one_val()
    } else {
        to_power(x, m - 1).times(x)
    }
}

/// The slope of `xᵐ`.
pub open spec fn power_slope<R: Real>(x: R, m: int) -> R {
    if m <= 0 {
        R::zero_val()
    } else {
        R::int_val(m).times(to_power(x, m - 1))
    }
}

/// The functions `f`, weighed by the powers of their nodes.
pub open spec fn moments<R: Real>(nodes: Seq<R>, f: spec_fn(int) -> R, m: int) -> spec_fn(int) -> R {
    |i: int| f(i).times(to_power(nodes[i], m))
}

/// Weighing by one changes nothing.
proof fn lemma_zeroth_moment<R: Real>(nodes: Seq<R>, f: spec_fn(int) -> R, n: int)
    requires
        exact_ring::<R>(),
    ensures
        sum(n, moments(nodes, f, 0)) == sum(n, f),
{
    assert forall|i: int| 0 <= i < n implies #[trigger] moments(nodes, f, 0)(i) == f(i) by {
        lemma_times_one(f(i));
    }
    lemma_sum_ext(n, moments(nodes, f, 0), f);
}

/// A power is one power less, times the node seen from `y`.
proof fn lemma_moment_shift<R: Real>(
    nodes: Seq<R>,
    n: int,
    f: spec_fn(int) -> R,
    h: spec_fn(int) -> R,
    y: R,
    m: int,
)
    requires
        exact_ring::<R>(),
        1 <= m,
        forall|i: int| 0 <= i < n ==> #[trigger] h(i) == f(i).times(nodes[i].minus(y)),
    ensures
        sum(n, moments(nodes, f, m)) == y.times(sum(n, moments(nodes, f, m - 1))).plus(
            sum(n, moments(nodes, h, m - 1)),
        ),
{
    let (a, b, c) = (
        moments(nodes, f, m - 1),
        moments(nodes, h, m - 1),
        moments(nodes, f, m),
    );
    let d = |i: int| y.times(a(i));
    assert forall|i: int| 0 <= i < n implies #[trigger] c(i) == d(i).plus(b(i)) by {
        let (x, p) = (nodes[i], to_power(nodes[i], m - 1));
        assert(h(i) == f(i).times(x.minus(y)));
        // f p x == f p y + f (x - y) p
        lemma_minus_plus(x, y);
        lemma_plus_comm(x.minus(y), y);
        lemma_times_assoc(f(i), p, x);
        lemma_distribute(f(i).times(p), y, x.minus(y));
        lemma_times_comm(f(i).times(p), y);
        lemma_times_swap(f(i), p, x.minus(y));
    }
    lemma_sum_plus(n, d, b, c);
    lemma_sum_scale(n, y, a, d);
}

/// `y p + (x - y) p == p x`.
proof fn lemma_split_point<R: Real>(x: R, y: R, p: R)
    requires
        exact_ring::<R>(),
    ensures
        y.times(p).plus(x.minus(y).times(p)) == p.times(x),
{
    lemma_minus_plus(x, y);
    lemma_plus_comm(x.minus(y), y);
    lemma_distribute(p, y, x.minus(y));
    lemma_times_comm(p, y);
    lemma_times_comm(p, x.minus(y));
}

/// One more power, one more in the slope.
proof fn lemma_power_slope<R: Real>(x: R, m: int)
    requires
        exact_ring::<R>(),
        exact_integers::<R>(),
        1 <= m,
    ensures
        power_slope(x, m - 1).times(x).plus(to_power(x, m - 1)) == power_slope(x, m),
{
    lemma_int_units::<R>();
    let p = to_power(x, m - 1);
    if m == 1 {
        lemma_times_zero(x);
        lemma_times_comm(x, R::zero_val());
        lemma_plus_comm(R::zero_val(), p);
        lemma_plus_zero(p);
        lemma_times_one(p);
        lemma_times_comm(p, R::one_val());
    } else {
        let k = R::int_val(m - 1);
        lemma_times_assoc(k, to_power(x, m - 2), x);
        lemma_int_plus::<R>(m - 1, 1);
        lemma_times_comm(k.plus(R::one_val()), p);
        lemma_distribute(p, k, R::one_val());
        lemma_times_comm(p, k);
        lemma_times_one(p);
    }
}

// ── polynomials in product form ─────────────────────────────────────────────

/// One factor of a polynomial in product form.
proof fn lemma_last_factor<R: Real>(nodes: Seq<R>, x: R, i: int, n: int)
    requires
        exact_field::<R>(),
        distinct(nodes, n),
        0 <= i < n - 1,
    ensures
        line_product(nodes, x, i, n).times(nodes[i].minus(nodes[n - 1])) == x.minus(
            nodes[n - 1],
        ).times(line_product(nodes, x, i, n - 1)),
{
    lemma_over(R::one_val(), R::one_val());
    let (l, w, d) = (
        line_product(nodes, x, i, n - 1),
        x.minus(nodes[n - 1]),
        nodes[i].minus(nodes[n - 1]),
    );
    assert(nodes[i] != nodes[n - 1]);
    lemma_minus_zero(nodes[i], nodes[n - 1]);
    lemma_quotient(w, d);
    lemma_recip(d);
    lemma_times_assoc(l, w.over(d), d);
    lemma_times_swap(w, recip(d), d);
    lemma_times_assoc(w, d, recip(d));
    lemma_times_one(w);
    lemma_times_comm(l, w);
}

/// The Lagrange polynomials of `n` distinct nodes reproduce the powers below `n` from their values
/// at the nodes.
pub proof fn law_lagrange_reproduces<R: Real>(nodes: Seq<R>, x: R, n: int, m: int)
    requires
        exact_field::<R>(),
        distinct(nodes, n),
        0 <= m < n,
    ensures
        sum(n, moments(nodes, line_products(nodes, x, n), m)) == to_power(x, m),
    decreases m, n,
{
    lemma_over(R::one_val(), R::one_val());
    let f = line_products(nodes, x, n);
    if m == 0 {
        lemma_zeroth_moment(nodes, f, n);
        law_lagrange_partition(nodes, x, n);
    } else {
        let y = nodes[n - 1];
        let w = x.minus(y);
        let g = line_products(nodes, x, n - 1);
        let h = |i: int| f(i).times(nodes[i].minus(y));
        lemma_moment_shift(nodes, n, f, h, y, m);
        law_lagrange_reproduces(nodes, x, n, m - 1);
        law_lagrange_reproduces(nodes, x, n - 1, m - 1);
        // the last node drops out
        let (b, c) = (moments(nodes, h, m - 1), moments(nodes, g, m - 1));
        let p = to_power(y, m - 1);
        lemma_minus_self(y);
        lemma_times_zero(f(n - 1));
        lemma_times_zero(p);
        lemma_times_comm(p, R::zero_val());
        lemma_plus_zero(sum(n - 1, b));
        assert(sum(n, b) == sum(n - 1, b));
        assert forall|i: int| 0 <= i < n - 1 implies #[trigger] b(i) == w.times(c(i)) by {
            lemma_last_factor(nodes, x, i, n);
            lemma_times_assoc(w, g(i), to_power(nodes[i], m - 1));
        }
        lemma_sum_scale(n - 1, w, c, b);
        lemma_split_point(x, y, to_power(x, m - 1));
    }
}

/// The slopes by logarithmic differentiation reproduce, away from the nodes, the slopes of the
/// powers below `n`.
pub proof fn law_line_slopes_reproduce<R: Real>(nodes: Seq<R>, x: R, n: int, m: int)
    requires
        exact_field::<R>(),
        exact_integers::<R>(),
        distinct(nodes, n),
        0 <= m < n,
        forall|j: int| 0 <= j < n ==> x != #[trigger] nodes[j],
    ensures
        sum(n, moments(nodes, line_slopes(nodes, x, n), m)) == power_slope(x, m),
    decreases m, n,
{
    lemma_over(R::one_val(), R::one_val());
    let f = line_slopes(nodes, x, n);
    if m == 0 {
        lemma_zeroth_moment(nodes, f, n);
        law_line_slopes_sum_to_zero(nodes, x, n);
    } else {
        let y = nodes[n - 1];
        let w = x.minus(y);
        let (g, l) = (line_slopes(nodes, x, n - 1), line_products(nodes, x, n - 1));
        let h = |i: int| f(i).times(nodes[i].minus(y));
        lemma_moment_shift(nodes, n, f, h, y, m);
        law_line_slopes_reproduce(nodes, x, n, m - 1);
        law_line_slopes_reproduce(nodes, x, n - 1, m - 1);
        law_lagrange_reproduces(nodes, x, n - 1, m - 1);
        // the last node drops out
        let b = moments(nodes, h, m - 1);
        let (c, e) = (moments(nodes, g, m - 1), moments(nodes, l, m - 1));
        let p = to_power(y, m - 1);
        lemma_minus_self(y);
        lemma_times_zero(f(n - 1));
        lemma_times_zero(p);
        lemma_times_comm(p, R::zero_val());
        lemma_plus_zero(sum(n - 1, b));
        assert(sum(n, b) == sum(n - 1, b));
        let k = |i: int| w.times(c(i));
        lemma_minus_zero(x, y);
        lemma_recip(w);
        assert forall|i: int| 0 <= i < n - 1 implies #[trigger] b(i) == k(i).plus(e(i)) by {
            let (li, pi, q) = (l(i), line_poles(nodes, x, i, n - 1), to_power(nodes[i], m - 1));
            let d = nodes[i].minus(y);
            let rw = recip(w);
            lemma_last_factor(nodes, x, i, n);
            // (L (pi + 1/w)) d == (w li) (pi + 1/w) == w (li pi) + li
            lemma_times_swap(line_product(nodes, x, i, n), pi.plus(rw), d);
            lemma_times_assoc(w, li, pi.plus(rw));
            lemma_distribute(li, pi, rw);
            lemma_distribute(w, li.times(pi), li.times(rw));
            lemma_times_comm(li, rw);
            lemma_times_assoc(w, rw, li);
            lemma_times_one(li);
            lemma_times_comm(R::one_val(), li);
            assert(h(i) == w.times(g(i)).plus(li));
            lemma_times_comm(w.times(g(i)).plus(li), q);
            lemma_distribute(q, w.times(g(i)), li);
            lemma_times_comm(q, w.times(g(i)));
            lemma_times_comm(q, li);
            lemma_times_assoc(w, g(i), q);
        }
        lemma_sum_plus(n - 1, k, e, b);
        lemma_sum_scale(n - 1, w, c, k);
        let s = power_slope(x, m - 1);
        lemma_split_point(x, y, s);
        lemma_plus_assoc(y.times(s), w.times(s), to_power(x, m - 1));
        lemma_power_slope(x, m);
    }
}

// ── tables ──────────────────────────────────────────────────────────────────

/// The point is a node or counts as away from all of them.
pub open spec fn on_or_away<R: Real>(nodes: Seq<R>, x: R) -> bool {
    node_at(nodes, x) matches Some(j) ==> x == nodes[j]
}

/// Away from the nodes, the tabulated values are those of the polynomials in product form.
proof fn lemma_tabulated<R: Real>(nodes: Seq<R>, x: R, i: int)
    requires
        exact_field::<R>(),
        R::zero_val().magnitude().less(tolerance::<R>()),
        distinct(nodes, nodes.len() as int),
        0 <= i < nodes.len(),
        node_at(nodes, x) is None,
    ensures
        tabulated(nodes, x)(i) == line_product(nodes, x, i, nodes.len() as int),
        tabulated_slopes(nodes, x)(i) == line_slopes(nodes, x, nodes.len() as int)(i),
{
    lemma_over(R::one_val(), R::one_val());
    let n = nodes.len() as int;
    lemma_node_from(nodes, x, 0);
    lemma_first_sum(nodes, x);
    let w = node_polynomial(nodes, x, n);
    let (s1, s2) = (sum(n, first_terms(nodes, x)), sum(n, second_terms(nodes, x)));
    lemma_polynomial_nonzero(nodes, x, n);
    lemma_recip(s1);
    lemma_nonzero_of_recip(w, s1);
    // values
    assert forall|j: int| 0 <= j < n implies #[trigger] tabulated(nodes, x)(j) == line_product(
        nodes,
        x,
        j,
        n,
    ) by {
        lemma_pull(nodes, x, j, n);
        lemma_quotient(barycentric(nodes, j), x.minus(nodes[j]));
        lemma_quotient(first_terms(nodes, x)(j), s1);
        lemma_times_comm(first_terms(nodes, x)(j), recip(s1));
    }
    // the sum of the reciprocal distances
    let (g, b) = (second_pulls(nodes, x, n), second_terms(nodes, x));
    assert forall|j: int| 0 <= j < n implies #[trigger] g(j) == w.times(b(j)) by {
        let z = x.minus(nodes[j]);
        lemma_minus_zero(x, nodes[j]);
        lemma_recip_product(z, z);
        lemma_pull(nodes, x, j, n);
        let (v, r) = (barycentric(nodes, j), recip(z));
        lemma_quotient(v, z.times(z));
        lemma_times_assoc(w, v.times(r), r);
        lemma_times_assoc(v, r, r);
    }
    lemma_sum_scale(n, w, b, g);
    lemma_second_pulls(nodes, x, n);
    lemma_quotient(s2, s1);
    lemma_times_comm(s2, recip(s1));
    let all = sum(n, poles(nodes, x));
    assert(s2.over(s1) == all);
    lemma_line_poles(nodes, x, i, n);
    let (p, r) = (line_poles(nodes, x, i, n), recip(x.minus(nodes[i])));
    lemma_minus(p.plus(r), r);
    lemma_plus_assoc(p, r, r.negated());
    lemma_negated(r);
    lemma_plus_zero(p);
    assert(all == p.plus(r));
    assert(s2.over(s1).minus(r) == p);
    assert(tabulated(nodes, x)(i) == line_product(nodes, x, i, n));
}

/// The number whose reciprocal is given.
proof fn lemma_nonzero_of_recip<R: Real>(w: R, s: R)
    requires
        exact_field::<R>(),
        s == recip(w),
        s != R::zero_val(),
        w != R::zero_val(),
    ensures
        recip(s) == w,
{
    lemma_over(R::one_val(), R::one_val());
    lemma_recip(w);
    lemma_recip(s);
    lemma_times_comm(w, s);
    lemma_times_assoc(recip(s), s, w);
    lemma_times_comm(recip(s), s);
    lemma_times_one(w);
    lemma_times_comm(R::one_val(), w);
    lemma_times_one(recip(s));
}

/// The tabulated values reproduce the powers below the number of nodes.
pub proof fn law_tabulated_values_reproduce<R: Real>(nodes: Seq<R>, x: R, m: int)
    requires
        exact_field::<R>(),
        R::zero_val().magnitude().less(tolerance::<R>()),
        distinct(nodes, nodes.len() as int),
        0 <= m < nodes.len(),
        on_or_away(nodes, x),
    ensures
        sum(nodes.len() as int, moments(nodes, tabulated(nodes, x), m)) == to_power(x, m),
{
    lemma_over(R::one_val(), R::one_val());
    let n = nodes.len() as int;
    let f = moments(nodes, tabulated(nodes, x), m);
    lemma_node_from(nodes, x, 0);
    match node_at(nodes, x) {
        Some(j) => {
            assert forall|i: int| 0 <= i < n && i != j implies #[trigger] f(i) == R::zero_val() by {
                lemma_times_zero(to_power(nodes[i], m));
                lemma_times_comm(to_power(nodes[i], m), R::zero_val());
            }
            lemma_sum_single(n, j, f);
            lemma_times_one(to_power(x, m));
            lemma_times_comm(to_power(x, m), R::one_val());
        },
        None => {
            law_lagrange_reproduces(nodes, x, n, m);
            let g = moments(nodes, line_products(nodes, x, n), m);
            assert forall|i: int| 0 <= i < n implies #[trigger] f(i) == g(i) by {
                lemma_tabulated(nodes, x, i);
            }
            lemma_sum_ext(n, f, g);
        },
    }
}

/// The tabulated slopes reproduce the slopes of the powers below the number of nodes.
pub proof fn law_tabulated_slopes_reproduce<R: Real>(nodes: Seq<R>, x: R, m: int)
    requires
        exact_field::<R>(),
        exact_integers::<R>(),
        R::zero_val().magnitude().less(tolerance::<R>()),
        distinct(nodes, nodes.len() as int),
        0 <= m < nodes.len(),
        on_or_away(nodes, x),
    ensures
        sum(nodes.len() as int, moments(nodes, tabulated_slopes(nodes, x), m)) == power_slope(x, m),
    decreases m,
{
    lemma_over(R::one_val(), R::one_val());
    let n = nodes.len() as int;
    let f = tabulated_slopes(nodes, x);
    lemma_node_from(nodes, x, 0);
    if m == 0 {
        lemma_zeroth_moment(nodes, f, n);
        law_lagrange_slopes_sum_to_zero(nodes, x);
    } else {
        match node_at(nodes, x) {
            Some(j) => {
                lemma_slopes_at_node(nodes, x, j, m);
            },
            None => {
                law_line_slopes_reproduce(nodes, x, n, m);
                let (a, b) = (
                    moments(nodes, f, m),
                    moments(nodes, line_slopes(nodes, x, n), m),
                );
                assert forall|i: int| 0 <= i < n implies #[trigger] a(i) == b(i) by {
                    lemma_tabulated(nodes, x, i);
                }
                lemma_sum_ext(n, a, b);
            },
        }
    }
}

proof fn lemma_slopes_at_node<R: Real>(nodes: Seq<R>, x: R, j: int, m: int)
    requires
        exact_field::<R>(),
        exact_integers::<R>(),
        R::zero_val().magnitude().less(tolerance::<R>()),
        distinct(nodes, nodes.len() as int),
        1 <= m < nodes.len(),
        0 <= j < nodes.len(),
        node_at(nodes, x) == Some(j),
        x == nodes[j],
    ensures
        sum(nodes.len() as int, moments(nodes, tabulated_slopes(nodes, x), m)) == power_slope(x, m),
    decreases m, 0int,
{
    lemma_over(R::one_val(), R::one_val());
    let n = nodes.len() as int;
    let f = tabulated_slopes(nodes, x);
    let h = |i: int| f(i).times(nodes[i].minus(x));
    lemma_moment_shift(nodes, n, f, h, x, m);
    if m == 1 {
        lemma_zeroth_moment(nodes, f, n);
        law_lagrange_slopes_sum_to_zero(nodes, x);
    } else {
        lemma_slopes_at_node(nodes, x, j, m - 1);
    }
    let rest = nodes.remove(j);
    let l = line_products(rest, x, n - 1);
    let (a, b) = (moments(rest, l, m - 1), moments(nodes, h, m - 1));
    if n > 1 {
        let i: int = if j == 0 { 1 } else { 0 };
        lemma_other_slope(nodes, x, j, i);
    }
    assert forall|i: int| 0 <= i < n && i != j implies #[trigger] b(i) == a(without(i, j)) by {
        let k = without(i, j);
        lemma_other_slope(nodes, x, j, i);
        assert(rest[k] == nodes[i]);
        assert(nodes[i] != nodes[j]);
        let (z, d) = (x.minus(nodes[i]), nodes[i].minus(x));
        lemma_minus_zero(x, nodes[i]);
        lemma_minus_flip(nodes[i], x);
        lemma_recip(z);
        // (-(l / z)) (-z) == l
        let q = l(k).times(recip(z));
        lemma_times_negated(q, z);
        lemma_times_assoc(l(k), recip(z), z);
        lemma_times_comm(recip(z), z);
        lemma_times_one(l(k));
        lemma_both_negated(q, z);
        assert(h(i) == l(k));
    }
    lemma_minus_self(x);
    lemma_times_zero(f(j));
    lemma_times_zero(to_power(x, m - 1));
    lemma_times_comm(to_power(x, m - 1), R::zero_val());
    assert forall|k: int| 0 <= k < j implies #[trigger] b(k) == a(k) by {}
    assert forall|k: int| j < k <= n - 1 implies #[trigger] b(k) == a(k - 1) by {}
    lemma_sum_inserted(n - 1, j, R::zero_val(), a, b);
    lemma_plus_zero(sum(n - 1, a));
    law_lagrange_reproduces(rest, x, n - 1, m - 1);
    lemma_times_comm(x, power_slope(x, m - 1));
    lemma_power_slope(x, m);
}

/// A product of negations.
proof fn lemma_both_negated<R: Real>(a: R, b: R)
    requires
        exact_ring::<R>(),
    ensures
        a.negated().times(b.negated()) == a.times(b),
{
    lemma_times_comm(a.negated(), b.negated());
    lemma_times_negated(b.negated(), a);
    lemma_times_comm(b.negated(), a);
    lemma_times_negated(a, b);
    lemma_negated_twice(a.times(b));
}

// ── grids ───────────────────────────────────────────────────────────────────

/// Products of row `j` of a table with `f`.
pub open spec fn row_values<R: Real>(b: Seq<R>, p: int, j: int, f: spec_fn(int) -> R) -> spec_fn(
    int,
) -> R {
    |i: int| b[j * p + i].times(f(i))
}

/// The rows of a `q × p` table take `f` to `g`.
pub open spec fn rows_take<R: Real>(
    b: Seq<R>,
    q: int,
    p: int,
    f: spec_fn(int) -> R,
    g: spec_fn(int) -> R,
) -> bool {
    forall|j: int| 0 <= j < q ==> sum(p, #[trigger] row_values(b, p, j, f)) == g(j)
}

/// The powers of a list of points.
pub open spec fn powers<R: Real>(points: Seq<R>, m: int) -> spec_fn(int) -> R {
    |i: int| to_power(points[i], m)
}

/// The slopes of the powers at a list of points.
pub open spec fn power_slopes<R: Real>(points: Seq<R>, m: int) -> spec_fn(int) -> R {
    |i: int| power_slope(points[i], m)
}

/// The one-dimensional tables take the powers below the number of nodes from the nodes to the
/// points: the table of values to the powers, the table of slopes to their slopes.
pub proof fn law_lagrange_tables_reproduce<R: Real>(nodes: Seq<R>, points: Seq<R>, m: int)
    requires
        exact_field::<R>(),
        exact_integers::<R>(),
        R::zero_val().magnitude().less(tolerance::<R>()),
        distinct(nodes, nodes.len() as int),
        0 <= m < nodes.len(),
        forall|j: int| 0 <= j < points.len() ==> on_or_away(nodes, #[trigger] points[j]),
    ensures
        rows_take(
            value_table(nodes, points),
            points.len() as int,
            nodes.len() as int,
            powers(nodes, m),
            powers(points, m),
        ),
        rows_take(
            slope_table(nodes, points, value_table(nodes, points)),
            points.len() as int,
            nodes.len() as int,
            powers(nodes, m),
            power_slopes(points, m),
        ),
{
    let (p, q) = (nodes.len() as int, points.len() as int);
    let (f, b) = (powers(nodes, m), value_table(nodes, points));
    let c = slope_table(nodes, points, b);
    assert forall|j: int| 0 <= j < q implies sum(p, #[trigger] row_values(b, p, j, f)) == powers(
        points,
        m,
    )(j) by {
        law_tabulated_values_reproduce(nodes, points[j], m);
        let (u, v) = (row_values(b, p, j, f), moments(nodes, tabulated(nodes, points[j]), m));
        assert forall|i: int| 0 <= i < p implies #[trigger] u(i) == v(i) by {
            lemma_flat(j, q, i, p);
        }
        lemma_sum_ext(p, u, v);
    }
    assert forall|j: int| 0 <= j < q implies sum(p, #[trigger] row_values(c, p, j, f))
        == power_slopes(points, m)(j) by {
        law_tabulated_slopes_reproduce(nodes, points[j], m);
        let (u, v) = (
            row_values(c, p, j, f),
            moments(nodes, tabulated_slopes(nodes, points[j]), m),
        );
        assert forall|i: int| 0 <= i < p implies #[trigger] u(i) == v(i) by {
            lemma_flat(j, q, i, p);
        }
        lemma_sum_ext(p, u, v);
    }
}

/// Contraction along one axis of a product.
proof fn lemma_axis_product<R: Real>(
    b: Seq<R>,
    q: int,
    p: int,
    outer: int,
    inner: int,
    u: Seq<R>,
    a: spec_fn(int, int) -> R,
    f: spec_fn(int) -> R,
    g: spec_fn(int) -> R,
)
    requires
        exact_ring::<R>(),
        0 < q,
        0 < p,
        0 < outer,
        0 < inner,
        rows_take(b, q, p, f, g),
        forall|o: int, i: int, l: int|
            0 <= o < outer && 0 <= i < p && 0 <= l < inner ==> #[trigger] u[(o * p + i) * inner + l]
                == a(o, l).times(f(i)),
    ensures
        axis(b, q, p, false, outer, inner, u).len() == outer * q * inner,
        forall|o: int, j: int, l: int|
            0 <= o < outer && 0 <= j < q && 0 <= l < inner ==> #[trigger] axis(
                b,
                q,
                p,
                false,
                outer,
                inner,
                u,
            )[(o * q + j) * inner + l] == a(o, l).times(g(j)),
{
    let y = axis(b, q, p, false, outer, inner, u);
    assert(0 < outer * q * inner) by (nonlinear_arith)
        requires
            0 < outer,
            0 < q,
            0 < inner,
    ;
    assert forall|o: int, j: int, l: int|
        0 <= o < outer && 0 <= j < q && 0 <= l < inner implies #[trigger] y[(o * q + j) * inner + l]
        == a(o, l).times(g(j)) by {
        lemma_flat3(o, outer, j, q, l, inner);
        let (t, v) = (axis_terms(b, p, false, p, inner, u, o, j, l), row_values(b, p, j, f));
        assert forall|i: int| 0 <= i < p implies #[trigger] t(i) == a(o, l).times(v(i)) by {
            assert(u[(o * p + i) * inner + l] == a(o, l).times(f(i)));
            let c = b[j * p + i];
            lemma_times_assoc(c, a(o, l), f(i));
            lemma_times_comm(c, a(o, l));
            lemma_times_assoc(a(o, l), c, f(i));
        }
        lemma_sum_scale(p, a(o, l), v, t);
    }
}

/// Products of a function along each axis, the first axis running fastest.
pub open spec fn product_grid<R: Real>(
    n: int,
    dim: int,
    fx: spec_fn(int) -> R,
    fy: spec_fn(int) -> R,
    fz: spec_fn(int) -> R,
) -> Seq<R> {
    Seq::new(
        power(n, dim) as nat,
        |k: int|
            if dim <= 1 {
                fx(k)
            } else if dim == 2 {
                fy(k / n).times(fx(k % n))
            } else {
                fz(k / n / n).times(fy(k / n % n)).times(fx(k % n))
            },
    )
}

/// Where the tables along the axes take `f` to `g`, the basis takes the products of the `f` to the
/// products of the `g`. With the powers and their slopes this says that interpolation and
/// differentiation are exact on polynomials below the number of nodes in each direction.
pub proof fn law_products_are_mapped<R: Real>(
    view: LagrangeView<R>,
    d: int,
    fx: spec_fn(int) -> R,
    fy: spec_fn(int) -> R,
    fz: spec_fn(int) -> R,
    gx: spec_fn(int) -> R,
    gy: spec_fn(int) -> R,
    gz: spec_fn(int) -> R,
)
    requires
        exact_ring::<R>(),
        view.valid(),
        rows_take(view.table(0, d), view.q as int, view.p as int, fx, gx),
        view.dim >= 2 ==> rows_take(view.table(1, d), view.q as int, view.p as int, fy, gy),
        view.dim >= 3 ==> rows_take(view.table(2, d), view.q as int, view.p as int, fz, gz),
    ensures
        view.forward(d, product_grid(view.p as int, view.dim as int, fx, fy, fz)) == product_grid(
            view.q as int,
            view.dim as int,
            gx,
            gy,
            gz,
        ),
{
    if view.dim == 1 {
        lemma_mapped_1(view, d, fx, fy, fz, gx, gy, gz);
    } else if view.dim == 2 {
        lemma_mapped_2(view, d, fx, fy, fz, gx, gy, gz);
    } else {
        lemma_mapped_3(view, d, fx, fy, fz, gx, gy, gz);
    }
}

proof fn lemma_mapped_1<R: Real>(
    view: LagrangeView<R>,
    d: int,
    fx: spec_fn(int) -> R,
    fy: spec_fn(int) -> R,
    fz: spec_fn(int) -> R,
    gx: spec_fn(int) -> R,
    gy: spec_fn(int) -> R,
    gz: spec_fn(int) -> R,
)
    requires
        exact_ring::<R>(),
        view.valid(),
        view.dim == 1,
        rows_take(view.table(0, d), view.q as int, view.p as int, fx, gx),
    ensures
        view.forward(d, product_grid(view.p as int, 1, fx, fy, fz)) == product_grid(
            view.q as int,
            1,
            gx,
            gy,
            gz,
        ),
{
    let (p, q) = (view.p as int, view.q as int);
    let one = R::one_val();
    let u = product_grid(p, 1, fx, fy, fz);
    let a = |o: int, l: int| one;
    assert forall|o: int, i: int, l: int|
        0 <= o < 1 && 0 <= i < p && 0 <= l < 1 implies #[trigger] u[(o * p + i) * 1 + l] == a(
        o,
        l,
    ).times(fx(i)) by {
        assert((o * p + i) * 1 + l == i);
        lemma_times_one(fx(i));
        lemma_times_comm(fx(i), one);
    }
    lemma_axis_product(view.table(0, d), q, p, 1, 1, u, a, fx, gx);
    let v = view.forward(d, u);
    assert forall|j: int| 0 <= j < q implies #[trigger] v[j] == gx(j) by {
        assert(v[(0 * q + j) * 1 + 0] == a(0, 0).times(gx(j)));
        lemma_times_one(gx(j));
        lemma_times_comm(gx(j), one);
    }
    assert(1 * q * 1 == q);
    assert(v =~= product_grid(q, 1, gx, gy, gz));
}

proof fn lemma_mapped_2<R: Real>(
    view: LagrangeView<R>,
    d: int,
    fx: spec_fn(int) -> R,
    fy: spec_fn(int) -> R,
    fz: spec_fn(int) -> R,
    gx: spec_fn(int) -> R,
    gy: spec_fn(int) -> R,
    gz: spec_fn(int) -> R,
)
    requires
        exact_ring::<R>(),
        view.valid(),
        view.dim == 2,
        rows_take(view.table(0, d), view.q as int, view.p as int, fx, gx),
        rows_take(view.table(1, d), view.q as int, view.p as int, fy, gy),
    ensures
        view.forward(d, product_grid(view.p as int, 2, fx, fy, fz)) == product_grid(
            view.q as int,
            2,
            gx,
            gy,
            gz,
        ),
{
    let (p, q) = (view.p as int, view.q as int);
    let u = product_grid(p, 2, fx, fy, fz);
    let a = |o: int, l: int| fy(o);
    assert forall|o: int, i: int, l: int|
        0 <= o < p && 0 <= i < p && 0 <= l < 1 implies #[trigger] u[(o * p + i) * 1 + l] == a(
        o,
        l,
    ).times(fx(i)) by {
        assert((o * p + i) * 1 + l == o * p + i);
        lemma_flat(o, p, i, p);
    }
    lemma_axis_product(view.table(0, d), q, p, p, 1, u, a, fx, gx);
    let s = view.stage(0, d, false, p, 1, u);
    let b = |o: int, l: int| gx(l);
    assert forall|o: int, i: int, l: int|
        0 <= o < 1 && 0 <= i < p && 0 <= l < q implies #[trigger] s[(o * p + i) * q + l] == b(
        o,
        l,
    ).times(fy(i)) by {
        assert(o * p + i == i) by (nonlinear_arith)
            requires
                o == 0,
        ;
        assert(s[(i * q + l) * 1 + 0] == a(i, 0).times(gx(l)));
        lemma_times_comm(fy(i), gx(l));
    }
    lemma_axis_product(view.table(1, d), q, p, 1, q, s, b, fy, gy);
    let v = view.forward(d, u);
    let w = product_grid(q, 2, gx, gy, gz);
    assert(1 * q * q == q * q) by (nonlinear_arith);
    assert forall|k: int| 0 <= k < q * q implies #[trigger] v[k] == w[k] by {
        lemma_split(k, q, q);
        let (j, l) = (k / q, k % q);
        assert(v[(0 * q + j) * q + l] == b(0, l).times(gy(j)));
        assert((0 * q + j) * q + l == k);
        lemma_times_comm(gx(l), gy(j));
    }
    assert(v =~= w);
}

#[verifier::spinoff_prover]
#[verifier::rlimit(40)]
proof fn lemma_mapped_3<R: Real>(
    view: LagrangeView<R>,
    d: int,
    fx: spec_fn(int) -> R,
    fy: spec_fn(int) -> R,
    fz: spec_fn(int) -> R,
    gx: spec_fn(int) -> R,
    gy: spec_fn(int) -> R,
    gz: spec_fn(int) -> R,
)
    requires
        exact_ring::<R>(),
        view.valid(),
        view.dim == 3,
        rows_take(view.table(0, d), view.q as int, view.p as int, fx, gx),
        rows_take(view.table(1, d), view.q as int, view.p as int, fy, gy),
        rows_take(view.table(2, d), view.q as int, view.p as int, fz, gz),
    ensures
        view.forward(d, product_grid(view.p as int, 3, fx, fy, fz)) == product_grid(
            view.q as int,
            3,
            gx,
            gy,
            gz,
        ),
{
    let (p, q) = (view.p as int, view.q as int);
    assert(0 < p * p && 0 < q * q) by (nonlinear_arith)
        requires
            0 < p,
            0 < q,
    ;
    let u = product_grid(p, 3, fx, fy, fz);
    let a = |o: int, l: int| fz(o / p).times(fy(o % p));
    assert forall|o: int, i: int, l: int|
        0 <= o < p * p && 0 <= i < p && 0 <= l < 1 implies #[trigger] u[(o * p + i) * 1 + l] == a(
        o,
        l,
    ).times(fx(i)) by {
        assert((o * p + i) * 1 + l == o * p + i);
        lemma_flat(o, p * p, i, p);
    }
    lemma_axis_product(view.table(0, d), q, p, p * p, 1, u, a, fx, gx);
    let s = view.stage(0, d, false, p * p, 1, u);
    let b = |o: int, l: int| fz(o).times(gx(l));
    assert forall|o: int, i: int, l: int|
        0 <= o < p && 0 <= i < p && 0 <= l < q implies #[trigger] s[(o * p + i) * q + l] == b(
        o,
        l,
    ).times(fy(i)) by {
        lemma_flat(o, p, i, p);
        assert(s[((o * p + i) * q + l) * 1 + 0] == a(o * p + i, 0).times(gx(l)));
        lemma_times_swap(fz(o), fy(i), gx(l));
    }
    lemma_axis_product(view.table(1, d), q, p, p, q, s, b, fy, gy);
    let t = view.stage(1, d, false, p, q, s);
    let c = |o: int, l: int| gx(l % q).times(gy(l / q));
    assert forall|o: int, i: int, l: int|
        0 <= o < 1 && 0 <= i < p && 0 <= l < q * q implies #[trigger] t[(o * p + i) * (q * q) + l]
        == c(o, l).times(fz(i)) by {
        lemma_split(l, q, q);
        let (j, m) = (l / q, l % q);
        assert((o * p + i) * (q * q) + (j * q + m) == (i * q + j) * q + m) by (nonlinear_arith)
            requires
                o == 0,
        ;
        assert(t[(i * q + j) * q + m] == b(i, m).times(gy(j)));
        lemma_times_assoc(fz(i), gx(m), gy(j));
        lemma_times_comm(fz(i), gx(m).times(gy(j)));
    }
    lemma_axis_product(view.table(2, d), q, p, 1, q * q, t, c, fz, gz);
    let v = view.forward(d, u);
    let w = product_grid(q, 3, gx, gy, gz);
    assert(1 * q * (q * q) == q * q * q) by (nonlinear_arith);
    assert forall|k: int| 0 <= k < q * q * q implies #[trigger] v[k] == w[k] by {
        lemma_split3(k, q, q, q);
        let (z, y, x) = (k / q / q, k / q % q, k % q);
        lemma_flat(y, q, x, q);
        let l = y * q + x;
        assert((0 * q + z) * (q * q) + l == (z * q + y) * q + x) by (nonlinear_arith)
            requires
                l == y * q + x,
        ;
        assert(v[(0 * q + z) * (q * q) + l] == c(0, l).times(gz(z)));
        lemma_times_comm(gx(x), gy(y));
        lemma_times_comm(gy(y).times(gx(x)), gz(z));
        lemma_times_assoc(gz(z), gy(y), gx(x));
    }
    assert(v =~= w);
}

// ── the basis ───────────────────────────────────────────────────────────────

/// The stored values of a function.
pub open spec fn kept_values<T: Scalar>(f: spec_fn(int) -> T::Work) -> spec_fn(int) -> T {
    |i: int| kept::<T>(f(i))
}

/// A stored table takes stored values to stored values.
proof fn lemma_stored_rows<T: Scalar>(
    b: Seq<T::Work>,
    q: int,
    p: int,
    f: spec_fn(int) -> T::Work,
    g: spec_fn(int) -> T::Work,
)
    requires
        exact_storage::<T>(),
        0 <= p,
        b.len() == q * p,
        rows_take(b, q, p, f, g),
    ensures
        rows_take(stored::<T>(b), q, p, kept_values::<T>(f), kept_values::<T>(g)),
{
    let (c, u, v) = (stored::<T>(b), kept_values::<T>(f), kept_values::<T>(g));
    assert forall|j: int| 0 <= j < q implies sum(p, #[trigger] row_values(c, p, j, u)) == v(j) by {
        let (a, w) = (row_values(b, p, j, f), row_values(c, p, j, u));
        assert forall|i: int| 0 <= i < p implies #[trigger] w(i) == kept::<T>(
            b[j * p + i],
        ).times(kept::<T>(f(i))) by {
            lemma_flat(j, q, i, p);
        }
        lemma_kept_sum::<T>(p, |i: int| b[j * p + i], f, a, w);
    }
}

/// Stored tables reproduce powers from stored values at the nodes: the interpolation table their
/// values, and the differentiation table, which starts from the stored one, their slopes.
pub proof fn law_stored_tables_reproduce<T: Scalar>(
    nodes: Seq<T::Work>,
    points: Seq<T::Work>,
    m: int,
)
    requires
        exact_field::<T::Work>(),
        exact_integers::<T::Work>(),
        exact_storage::<T>(),
        <T::Work as Real>::zero_val().magnitude().less(tolerance::<T::Work>()),
        distinct(nodes, nodes.len() as int),
        forall|j: int| 0 <= j < points.len() ==> on_or_away(nodes, #[trigger] points[j]),
        0 <= m < nodes.len(),
    ensures
        ({
            let (p, q) = (nodes.len() as int, points.len() as int);
            let values = stored::<T>(value_table(nodes, points));
            let slopes = stored::<T>(slope_table(nodes, points, widened_all::<T>(values)));
            let f = kept_values::<T>(powers(nodes, m));
            &&& rows_take(values, q, p, f, kept_values::<T>(powers(points, m)))
            &&& rows_take(slopes, q, p, f, kept_values::<T>(power_slopes(points, m)))
        }),
{
    let (p, q) = (nodes.len() as int, points.len() as int);
    let values = value_table(nodes, points);
    let slopes = slope_table(nodes, points, values);
    lemma_read_back::<T>(values);
    law_lagrange_tables_reproduce(nodes, points, m);
    lemma_stored_rows::<T>(values, q, p, powers(nodes, m), powers(points, m));
    lemma_stored_rows::<T>(slopes, q, p, powers(nodes, m), power_slopes(points, m));
}

/// The power `m` of the points of a list along axis `along`, or its slope if that is the axis of
/// differentiation.
pub open spec fn along_axis<T: Scalar>(
    points: Seq<T::Work>,
    m: int,
    along: int,
    d: int,
) -> spec_fn(int) -> T {
    if along == d {
        kept_values::<T>(power_slopes(points, m))
    } else {
        kept_values::<T>(powers(points, m))
    }
}

/// The tensor-product basis takes the monomial `xᵃ yᵇ zᶜ`, with exponents below the number of
/// nodes per direction, from its values at the nodes to its values at the points for `d == 3`,
/// else to its derivatives along axis `d`.
pub proof fn law_lagrange_basis_is_exact<T: Scalar>(
    dim: usize,
    ncomp: usize,
    p: usize,
    q: usize,
    qmode: QuadMode,
    a: int,
    b: int,
    c: int,
    d: int,
)
    requires
        exact_ring::<T>(),
        exact_field::<T::Work>(),
        exact_integers::<T::Work>(),
        exact_storage::<T>(),
        <T::Work as Real>::zero_val().magnitude().less(tolerance::<T::Work>()),
        lagrange_view::<T>(dim, ncomp, p, q, qmode).valid(),
        distinct(lobatto_points::<T::Work>(p as int), p as int),
        forall|j: int|
            0 <= j < q ==> on_or_away(
                lobatto_points::<T::Work>(p as int),
                #[trigger] rule_points::<T::Work>(qmode, q as int)[j],
            ),
        0 <= a < p,
        0 <= b < p,
        0 <= c < p,
        d == 3 || 0 <= d < dim,
    ensures
        ({
            let nodes = lobatto_points::<T::Work>(p as int);
            let points = rule_points::<T::Work>(qmode, q as int);
            lagrange_view::<T>(dim, ncomp, p, q, qmode).forward(
                d,
                product_grid(
                    p as int,
                    dim as int,
                    kept_values::<T>(powers(nodes, a)),
                    kept_values::<T>(powers(nodes, b)),
                    kept_values::<T>(powers(nodes, c)),
                ),
            ) == product_grid(
                q as int,
                dim as int,
                along_axis::<T>(points, a, 0, d),
                along_axis::<T>(points, b, 1, d),
                along_axis::<T>(points, c, 2, d),
            )
        }),
{
    let nodes = lobatto_points::<T::Work>(p as int);
    let points = rule_points::<T::Work>(qmode, q as int);
    let view = lagrange_view::<T>(dim, ncomp, p, q, qmode);
    law_stored_tables_reproduce::<T>(nodes, points, a);
    law_stored_tables_reproduce::<T>(nodes, points, b);
    law_stored_tables_reproduce::<T>(nodes, points, c);
    law_products_are_mapped(
        view,
        d,
        kept_values::<T>(powers(nodes, a)),
        kept_values::<T>(powers(nodes, b)),
        kept_values::<T>(powers(nodes, c)),
        along_axis::<T>(points, a, 0, d),
        along_axis::<T>(points, b, 1, d),
        along_axis::<T>(points, c, 2, d),
    );
}

} // verus!
