//! Laws of one-dimensional Lagrange polynomials in exact arithmetic.

use vstd::prelude::*;

#[allow(unused_imports)]
use crate::cpu::basis_lagrange::{LagrangeView, NO_DIR};
#[allow(unused_imports)]
use crate::cpu::lagrange_tables::{
    barycentric, first_terms, lagrange_slope, lagrange_value, node_at, node_from, node_product,
    pole_sum, second_terms, slope_table, value_table,
};
#[allow(unused_imports)]
use crate::cpu::quadrature::tolerance;
#[allow(unused_imports)]
use crate::cpu::simplex_shapes::{line_poles, line_product};
#[allow(unused_imports)]
use crate::cpu::tensor::{axis, axis_terms};
#[allow(unused_imports)]
use crate::exact::{
    lemma_distribute_minus, lemma_minus_chain, lemma_minus_flip, lemma_minus_self, lemma_minus_zero,
    lemma_plus_swap, lemma_product_nonzero, lemma_quotient, lemma_recip, lemma_recip_negated,
    lemma_recip_product, lemma_recip_unique, lemma_times_cross, lemma_times_swap, recip,
};
#[allow(unused_imports)]
use crate::index::{lemma_flat, lemma_flat3, lemma_split3};
#[allow(unused_imports)]
use crate::linear::lemma_sum_inserted;
use crate::scalar::Real;
#[allow(unused_imports)]
use crate::scalar::{
    exact_field, exact_ring, lemma_distribute, lemma_minus, lemma_negated, lemma_over,
    lemma_plus_assoc, lemma_plus_comm, lemma_plus_zero, lemma_sum_ext, lemma_sum_plus,
    lemma_sum_scale, lemma_sum_single, lemma_times_assoc, lemma_times_comm, lemma_times_negated,
    lemma_times_one, lemma_times_zero, sum,
};

verus! {

/// The first `n` nodes are distinct.
pub open spec fn distinct<R: Real>(nodes: Seq<R>, n: int) -> bool {
    forall|i: int, j: int|
        0 <= i < n && 0 <= j < n && i != j ==> #[trigger] nodes[i] != #[trigger] nodes[j]
}

/// The product of `t - x_j` over the first `n` nodes.
pub open spec fn node_polynomial<R: Real>(nodes: Seq<R>, t: R, n: int) -> R
    decreases n,
{
    if n <= 0 {
        R::one_val()
    } else {
        node_polynomial(nodes, t, n - 1).times(t.minus(nodes[n - 1]))
    }
}

/// The product does not vanish away from the nodes.
pub proof fn lemma_polynomial_nonzero<R: Real>(nodes: Seq<R>, t: R, n: int)
    requires
        exact_field::<R>(),
        forall|j: int| 0 <= j < n ==> t != #[trigger] nodes[j],
    ensures
        node_polynomial(nodes, t, n) != R::zero_val(),
    decreases n,
{
    lemma_over(R::one_val(), R::one_val());
    if n > 0 {
        lemma_polynomial_nonzero(nodes, t, n - 1);
        lemma_minus_zero(t, nodes[n - 1]);
        lemma_product_nonzero(node_polynomial(nodes, t, n - 1), t.minus(nodes[n - 1]));
    }
}

/// The denominators of a Lagrange polynomial do not vanish.
proof fn lemma_product_of_node_nonzero<R: Real>(nodes: Seq<R>, i: int, n: int, m: int)
    requires
        exact_field::<R>(),
        distinct(nodes, m),
        0 <= i < m,
        n <= m,
    ensures
        node_product(nodes, i, n) != R::zero_val(),
    decreases n,
{
    lemma_over(R::one_val(), R::one_val());
    if n > 0 {
        lemma_product_of_node_nonzero(nodes, i, n - 1, m);
        if n - 1 != i {
            assert(nodes[i] != nodes[n - 1]);
            lemma_minus_zero(nodes[i], nodes[n - 1]);
            lemma_product_nonzero(node_product(nodes, i, n - 1), nodes[i].minus(nodes[n - 1]));
        }
    }
}

/// A Lagrange polynomial times its missing factor is the product over all nodes times its weight.
proof fn lemma_line_product<R: Real>(nodes: Seq<R>, t: R, i: int, n: int, m: int)
    requires
        exact_field::<R>(),
        distinct(nodes, m),
        0 <= i < m,
        0 <= n <= m,
    ensures
        i < n ==> line_product(nodes, t, i, n).times(t.minus(nodes[i])) == node_polynomial(
            nodes,
            t,
            n,
        ).times(recip(node_product(nodes, i, n))),
        n <= i ==> line_product(nodes, t, i, n) == node_polynomial(nodes, t, n).times(
            recip(node_product(nodes, i, n)),
        ),
    decreases n,
{
    lemma_over(R::one_val(), R::one_val());
    if n == 0 {
        lemma_recip(R::one_val());
        lemma_times_one(recip(R::one_val()));
        lemma_times_one(R::one_val());
    } else {
        lemma_line_product(nodes, t, i, n - 1, m);
        let (l, w) = (line_product(nodes, t, i, n - 1), node_polynomial(nodes, t, n - 1));
        let (d, x) = (node_product(nodes, i, n - 1), t.minus(nodes[n - 1]));
        if n - 1 == i {
            // l == w / d, and the factor t - x_i joins the product
            lemma_times_swap(w, recip(d), x);
        } else {
            let y = nodes[i].minus(nodes[n - 1]);
            assert(nodes[i] != nodes[n - 1]);
            lemma_minus_zero(nodes[i], nodes[n - 1]);
            lemma_product_of_node_nonzero(nodes, i, n - 1, m);
            lemma_recip_product(d, y);
            lemma_quotient(x, y);
            let z = t.minus(nodes[i]);
            if i < n {
                // l z == w / d, so (l (x / y)) z == (w x) / (d y)
                lemma_times_swap(l, x.over(y), z);
                lemma_times_cross(w, recip(d), x, recip(y));
            } else {
                lemma_times_cross(w, recip(d), x, recip(y));
            }
        }
    }
}

/// The Lagrange polynomials of the first `n` nodes.
pub open spec fn line_products<R: Real>(nodes: Seq<R>, t: R, n: int) -> spec_fn(int) -> R {
    |i: int| line_product(nodes, t, i, n)
}

/// Weights over distances to `x`.
pub open spec fn pull_terms<R: Real>(nodes: Seq<R>, x: R, n: int) -> spec_fn(int) -> R {
    |i: int| recip(node_product(nodes, i, n)).times(recip(x.minus(nodes[i])))
}

/// Away from the nodes a Lagrange polynomial is a share of the product over all nodes.
pub proof fn lemma_pull<R: Real>(nodes: Seq<R>, x: R, i: int, n: int)
    requires
        exact_field::<R>(),
        distinct(nodes, n),
        0 <= i < n,
        x != nodes[i],
    ensures
        line_product(nodes, x, i, n) == node_polynomial(nodes, x, n).times(
            pull_terms(nodes, x, n)(i),
        ),
{
    lemma_over(R::one_val(), R::one_val());
    lemma_line_product(nodes, x, i, n, n);
    let (l, z) = (line_product(nodes, x, i, n), x.minus(nodes[i]));
    lemma_minus_zero(x, nodes[i]);
    lemma_recip(z);
    lemma_times_assoc(l, z, recip(z));
    lemma_times_one(l);
    lemma_times_assoc(
        node_polynomial(nodes, x, n),
        recip(node_product(nodes, i, n)),
        recip(z),
    );
}

/// The weights over distances add up to the reciprocal of the product over all nodes, wherever
/// the Lagrange polynomials add up to one.
proof fn lemma_pull_sum<R: Real>(nodes: Seq<R>, x: R, n: int)
    requires
        exact_field::<R>(),
        distinct(nodes, n),
        0 <= n,
        forall|j: int| 0 <= j < n ==> x != #[trigger] nodes[j],
        sum(n, line_products(nodes, x, n)) == R::one_val(),
    ensures
        sum(n, pull_terms(nodes, x, n)) == recip(node_polynomial(nodes, x, n)),
{
    lemma_over(R::one_val(), R::one_val());
    let (f, g, w) = (
        line_products(nodes, x, n),
        pull_terms(nodes, x, n),
        node_polynomial(nodes, x, n),
    );
    assert forall|i: int| 0 <= i < n implies #[trigger] f(i) == w.times(g(i)) by {
        lemma_pull(nodes, x, i, n);
    }
    lemma_sum_scale(n, w, g, f);
    lemma_polynomial_nonzero(nodes, x, n);
    lemma_recip(w);
    // recip(w) * (w * s) == s
    let s = sum(n, g);
    lemma_times_assoc(recip(w), w, s);
    lemma_times_one(s);
    lemma_times_one(recip(w));
}

/// The Lagrange polynomials of distinct nodes add up to one.
pub proof fn law_lagrange_partition<R: Real>(nodes: Seq<R>, t: R, n: int)
    requires
        exact_field::<R>(),
        distinct(nodes, n),
        1 <= n,
    ensures
        sum(n, line_products(nodes, t, n)) == R::one_val(),
    decreases n,
{
    lemma_over(R::one_val(), R::one_val());
    let f = line_products(nodes, t, n);
    if n == 1 {
        assert(line_product(nodes, t, 0, 1) == line_product(nodes, t, 0, 0));
        assert(sum(1, f) == sum(0, f).plus(f(0)));
        lemma_plus_zero(R::one_val());
    } else {
        let m = n - 1;
        let x = nodes[m];
        law_lagrange_partition(nodes, t, m);
        law_lagrange_partition(nodes, x, m);
        assert forall|j: int| 0 <= j < m implies x != #[trigger] nodes[j] by {}
        lemma_pull_sum(nodes, x, m);
        let (g, h) = (line_products(nodes, t, m), pull_terms(nodes, x, m));
        let w = node_polynomial(nodes, t, m);
        let k = |i: int| w.negated().times(h(i));
        // f(i) == g(i) + g(i) (t - x_i) / (x_i - x)
        assert forall|i: int| 0 <= i < m implies #[trigger] f(i) == g(i).plus(k(i)) by {
            let (y, z) = (nodes[i].minus(x), t.minus(nodes[i]));
            assert(nodes[i] != nodes[m]);
            lemma_minus_zero(nodes[i], x);
            lemma_minus_zero(x, nodes[i]);
            lemma_minus_chain(t, nodes[i], x);
            lemma_plus_comm(z, y);
            lemma_quotient(t.minus(x), y);
            lemma_distribute(recip(y), y, z);
            lemma_recip(y);
            // (t - x) / (x_i - x) == 1 + (t - x_i) / (x_i - x)
            assert(t.minus(x).over(y) == R::one_val().plus(z.times(recip(y))));
            lemma_distribute(g(i), R::one_val(), z.times(recip(y)));
            lemma_times_one(g(i));
            lemma_times_assoc(g(i), z, recip(y));
            lemma_line_product(nodes, t, i, m, m);
            let d = recip(node_product(nodes, i, m));
            assert(g(i).times(z) == w.times(d));
            lemma_minus_flip(nodes[i], x);
            lemma_recip_negated(x.minus(nodes[i]));
            let r = recip(x.minus(nodes[i]));
            assert(recip(y) == r.negated());
            lemma_times_assoc(w, d, r.negated());
            lemma_times_negated(d, r);
            lemma_times_negated(w, d.times(r));
        }
        lemma_sum_plus(m, g, k, f);
        lemma_sum_scale(m, w.negated(), h, k);
        // the last polynomial takes away what the others gained
        let q = node_polynomial(nodes, x, m);
        lemma_line_product(nodes, t, m, m, n);
        assert(line_product(nodes, t, m, n) == line_product(nodes, t, m, m));
        lemma_node_product(nodes, m, m);
        let gain = w.times(recip(q));
        lemma_times_negated(w, recip(q));
        assert(sum(m, f) == R::one_val().plus(gain.negated()));
        lemma_plus_assoc(R::one_val(), gain.negated(), gain);
        lemma_negated(gain);
        lemma_plus_zero(R::one_val());
    }
}

/// The denominators of a node behind the first `n` are the product over those nodes.
proof fn lemma_node_product<R: Real>(nodes: Seq<R>, i: int, n: int)
    requires
        n <= i,
    ensures
        node_product(nodes, i, n) == node_polynomial(nodes, nodes[i], n),
    decreases n,
{
    if n > 0 {
        lemma_node_product(nodes, i, n - 1);
    }
}

// ── tables ──────────────────────────────────────────────────────────────────

/// The values of the Lagrange polynomials at `x`, as they are tabulated.
pub open spec fn tabulated<R: Real>(nodes: Seq<R>, x: R) -> spec_fn(int) -> R {
    |j: int| lagrange_value(nodes, x, j)
}

/// The node that counts as equal is one of the nodes; where there is none, every node is away.
pub proof fn lemma_node_from<R: Real>(nodes: Seq<R>, x: R, j: int)
    requires
        exact_ring::<R>(),
        R::zero_val().magnitude().less(tolerance::<R>()),
        0 <= j,
    ensures
        match node_from(nodes, x, j) {
            Some(i) => j <= i < nodes.len(),
            None => forall|k: int| j <= k < nodes.len() ==> x != #[trigger] nodes[k],
        },
    decreases nodes.len() - j,
{
    if j < nodes.len() {
        lemma_node_from(nodes, x, j + 1);
        lemma_minus_self(x);
    }
}

/// The weighted terms add up to the reciprocal of the product over all nodes.
pub proof fn lemma_first_sum<R: Real>(nodes: Seq<R>, x: R)
    requires
        exact_field::<R>(),
        distinct(nodes, nodes.len() as int),
        1 <= nodes.len(),
        forall|k: int| 0 <= k < nodes.len() ==> x != #[trigger] nodes[k],
    ensures
        sum(nodes.len() as int, first_terms(nodes, x)) == recip(
            node_polynomial(nodes, x, nodes.len() as int),
        ),
        sum(nodes.len() as int, first_terms(nodes, x)) != R::zero_val(),
{
    let n = nodes.len() as int;
    law_lagrange_partition(nodes, x, n);
    lemma_pull_sum(nodes, x, n);
    let (f, g) = (first_terms(nodes, x), pull_terms(nodes, x, n));
    assert forall|j: int| 0 <= j < n implies #[trigger] f(j) == g(j) by {
        lemma_quotient(barycentric(nodes, j), x.minus(nodes[j]));
    }
    lemma_sum_ext(n, f, g);
    lemma_polynomial_nonzero(nodes, x, n);
    lemma_recip(node_polynomial(nodes, x, n));
}

/// The tabulated values of the Lagrange polynomials add up to one at every point.
pub proof fn law_lagrange_values_sum_to_one<R: Real>(nodes: Seq<R>, x: R)
    requires
        exact_field::<R>(),
        R::zero_val().magnitude().less(tolerance::<R>()),
        distinct(nodes, nodes.len() as int),
        1 <= nodes.len(),
    ensures
        sum(nodes.len() as int, tabulated(nodes, x)) == R::one_val(),
{
    lemma_over(R::one_val(), R::one_val());
    let n = nodes.len() as int;
    let f = tabulated(nodes, x);
    lemma_node_from(nodes, x, 0);
    match node_at(nodes, x) {
        Some(i) => {
            lemma_sum_single(n, i, f);
        },
        None => {
            lemma_first_sum(nodes, x);
            let g = first_terms(nodes, x);
            let s = sum(n, g);
            assert forall|j: int| 0 <= j < n implies #[trigger] f(j) == recip(s).times(g(j)) by {
                lemma_quotient(g(j), s);
                lemma_times_comm(g(j), recip(s));
            }
            lemma_sum_scale(n, recip(s), g, f);
            lemma_recip(s);
        },
    }
}

/// The slopes of the Lagrange polynomials at `x`, as they are tabulated.
pub open spec fn tabulated_slopes<R: Real>(nodes: Seq<R>, x: R) -> spec_fn(int) -> R {
    |j: int| lagrange_slope(nodes, x, j, lagrange_value(nodes, x, j))
}

/// The tabulated slopes add up to zero away from the nodes.
proof fn lemma_slopes_away<R: Real>(nodes: Seq<R>, x: R)
    requires
        exact_field::<R>(),
        R::zero_val().magnitude().less(tolerance::<R>()),
        distinct(nodes, nodes.len() as int),
        1 <= nodes.len(),
        node_at(nodes, x) is None,
    ensures
        sum(nodes.len() as int, tabulated_slopes(nodes, x)) == R::zero_val(),
{
    let n = nodes.len() as int;
    lemma_over(R::one_val(), R::one_val());
    lemma_node_from(nodes, x, 0);
    lemma_first_sum(nodes, x);
    law_lagrange_values_sum_to_one(nodes, x);
    let (s1, s2) = (sum(n, first_terms(nodes, x)), sum(n, second_terms(nodes, x)));
    let a = s2.over(s1);
    let (f, v, b) = (tabulated_slopes(nodes, x), tabulated(nodes, x), second_terms(nodes, x));
    let g = |j: int| a.times(v(j));
    let h = |j: int| recip(s1).negated().times(b(j));
    assert forall|j: int| 0 <= j < n implies #[trigger] f(j) == g(j).plus(h(j)) by {
        let z = x.minus(nodes[j]);
        let (w, r) = (barycentric(nodes, j), recip(z));
        assert(x != nodes[j]);
        lemma_minus_zero(x, nodes[j]);
        lemma_distribute_minus(v(j), a, r);
        lemma_times_comm(v(j), a);
        // v(j) r == b(j) / s1
        lemma_quotient(w, z);
        lemma_quotient(w.over(z), s1);
        lemma_quotient(w, z.times(z));
        lemma_recip_product(z, z);
        lemma_times_swap(w.times(r), recip(s1), r);
        lemma_times_assoc(w, r, r);
        assert(v(j).times(r) == b(j).times(recip(s1)));
        lemma_times_comm(b(j), recip(s1));
        lemma_times_negated(recip(s1), b(j));
        lemma_minus(g(j), v(j).times(r));
    }
    lemma_sum_plus(n, g, h, f);
    lemma_sum_scale(n, a, v, g);
    lemma_sum_scale(n, recip(s1).negated(), b, h);
    lemma_times_one(a);
    lemma_quotient(s2, s1);
    lemma_times_comm(s2, recip(s1));
    lemma_times_negated(recip(s1), s2);
    lemma_negated(a);
}

/// Lagrange polynomials over distances to `x`.
pub open spec fn second_pulls<R: Real>(nodes: Seq<R>, x: R, n: int) -> spec_fn(int) -> R {
    |i: int| line_product(nodes, x, i, n).times(recip(x.minus(nodes[i])))
}

/// Reciprocal distances to `x`.
pub open spec fn poles<R: Real>(nodes: Seq<R>, x: R) -> spec_fn(int) -> R {
    |i: int| recip(x.minus(nodes[i]))
}

/// Away from the nodes, weighing the reciprocal distances by the Lagrange polynomials does not
/// change their sum.
pub proof fn lemma_second_pulls<R: Real>(nodes: Seq<R>, x: R, n: int)
    requires
        exact_field::<R>(),
        distinct(nodes, n),
        0 <= n,
        forall|j: int| 0 <= j < n ==> x != #[trigger] nodes[j],
    ensures
        sum(n, second_pulls(nodes, x, n)) == sum(n, poles(nodes, x)),
    decreases n,
{
    lemma_over(R::one_val(), R::one_val());
    let f = second_pulls(nodes, x, n);
    if n == 1 {
        assert(line_product(nodes, x, 0, 1) == line_product(nodes, x, 0, 0));
        lemma_times_one(recip(x.minus(nodes[0])));
        assert(sum(1, f) == sum(0, f).plus(f(0)));
        assert(sum(1, poles(nodes, x)) == sum(0, poles(nodes, x)).plus(poles(nodes, x)(0)));
    } else if n > 1 {
        let m = n - 1;
        let y = nodes[m];
        lemma_second_pulls(nodes, x, m);
        law_lagrange_partition(nodes, x, n);
        let (g, l) = (second_pulls(nodes, x, m), line_products(nodes, x, n));
        let ry = recip(x.minus(y));
        lemma_minus_zero(x, y);
        lemma_recip(x.minus(y));
        let k = |i: int| ry.times(l(i));
        // l(i) / (x - x_i) == g(i) + l(i) / (x - y)
        assert forall|i: int| 0 <= i < m implies #[trigger] f(i) == g(i).plus(k(i)) by {
            let a = line_product(nodes, x, i, m);
            let (z, w, d) = (x.minus(nodes[i]), x.minus(y), nodes[i].minus(y));
            assert(nodes[i] != nodes[m]);
            lemma_minus_zero(nodes[i], y);
            lemma_minus_zero(x, nodes[i]);
            lemma_recip(z);
            lemma_recip(d);
            lemma_quotient(w, d);
            let (rz, rd) = (recip(z), recip(d));
            // w rz rd == rz w rd, and w == z + d
            lemma_minus_chain(x, nodes[i], y);
            lemma_distribute(rz.times(rd), z, d);
            lemma_times_assoc(z, rz, rd);
            lemma_times_one(rd);
            lemma_times_comm(rz, rd);
            lemma_times_assoc(d, rd, rz);
            lemma_times_one(rz);
            assert(w.times(rz.times(rd)) == rd.plus(rz));
            // f(i) == (a (w rd)) rz
            lemma_times_assoc(a, w.times(rd), rz);
            lemma_times_assoc(w, rd, rz);
            assert(f(i) == a.times(rd.plus(rz)));
            lemma_distribute(a, rd, rz);
            // l(i) / w == a rd
            lemma_times_assoc(a, w.times(rd), ry);
            lemma_times_swap(w, rd, ry);
            assert(l(i).times(ry) == a.times(rd));
            lemma_times_comm(l(i), ry);
            lemma_plus_comm(a.times(rd), a.times(rz));
        }
        lemma_sum_plus(m, g, k, f);
        lemma_sum_scale(m, ry, l, k);
        // the last term completes the sum of the polynomials
        let s = sum(m, l);
        assert(sum(n, l) == s.plus(l(m)));
        lemma_distribute(ry, s, l(m));
        lemma_times_comm(ry, l(m));
        lemma_times_one(ry);
        lemma_plus_assoc(sum(m, g), ry.times(s), l(m).times(ry));
    }
}

/// Reciprocal distances to the other nodes, and to the node left out.
pub proof fn lemma_line_poles<R: Real>(nodes: Seq<R>, x: R, i: int, n: int)
    requires
        exact_ring::<R>(),
        0 <= i,
        0 <= n,
    ensures
        sum(n, poles(nodes, x)) == if n <= i {
            line_poles(nodes, x, i, n)
        } else {
            line_poles(nodes, x, i, n).plus(recip(x.minus(nodes[i])))
        },
    decreases n,
{
    if n > 0 {
        lemma_line_poles(nodes, x, i, n - 1);
        if n - 1 > i {
            lemma_plus_swap(
                line_poles(nodes, x, i, n - 1),
                recip(x.minus(nodes[i])),
                recip(x.minus(nodes[n - 1])),
            );
        }
    }
}

/// Slopes of the Lagrange polynomials by logarithmic differentiation.
pub open spec fn line_slopes<R: Real>(nodes: Seq<R>, x: R, n: int) -> spec_fn(int) -> R {
    |i: int| line_product(nodes, x, i, n).times(line_poles(nodes, x, i, n))
}

/// Away from the nodes, the slopes by logarithmic differentiation add up to zero.
pub proof fn law_line_slopes_sum_to_zero<R: Real>(nodes: Seq<R>, x: R, n: int)
    requires
        exact_field::<R>(),
        distinct(nodes, n),
        1 <= n,
        forall|j: int| 0 <= j < n ==> x != #[trigger] nodes[j],
    ensures
        sum(n, line_slopes(nodes, x, n)) == R::zero_val(),
{
    lemma_over(R::one_val(), R::one_val());
    law_lagrange_partition(nodes, x, n);
    lemma_second_pulls(nodes, x, n);
    let (f, g) = (line_slopes(nodes, x, n), second_pulls(nodes, x, n));
    let (l, all) = (line_products(nodes, x, n), sum(n, poles(nodes, x)));
    let k = |i: int| all.times(l(i));
    assert forall|i: int| 0 <= i < n implies #[trigger] k(i) == f(i).plus(g(i)) by {
        lemma_line_poles(nodes, x, i, n);
        lemma_distribute(l(i), line_poles(nodes, x, i, n), recip(x.minus(nodes[i])));
        lemma_times_comm(l(i), all);
    }
    lemma_sum_plus(n, f, g, k);
    lemma_sum_scale(n, all, l, k);
    lemma_times_one(all);
    // s + all == all
    let s = sum(n, f);
    lemma_plus_assoc(s, all, all.negated());
    lemma_negated(all);
    lemma_plus_zero(s);
}

/// Position of node `i` once node `j` is removed.
pub open spec fn without(i: int, j: int) -> int {
    if i < j {
        i
    } else {
        i - 1
    }
}

/// Removing a node takes one factor from the denominators of the others.
proof fn lemma_removed_product<R: Real>(nodes: Seq<R>, j: int, i: int, n: int)
    requires
        exact_ring::<R>(),
        0 <= j < nodes.len(),
        0 <= i < nodes.len(),
        i != j,
        0 <= n <= nodes.len(),
    ensures
        node_product(nodes, i, n) == if n <= j {
            node_product(nodes.remove(j), without(i, j), n)
        } else {
            node_product(nodes.remove(j), without(i, j), n - 1).times(nodes[i].minus(nodes[j]))
        },
    decreases n,
{
    let rest = nodes.remove(j);
    if n > 0 {
        lemma_removed_product(nodes, j, i, n - 1);
        assert(rest[without(i, j)] == nodes[i]);
        if n - 1 > j && n - 1 != i {
            assert(rest[n - 2] == nodes[n - 1]);
            lemma_times_swap(
                node_product(rest, without(i, j), n - 2),
                nodes[i].minus(nodes[j]),
                nodes[i].minus(nodes[n - 1]),
            );
        } else if n - 1 < j {
            assert(rest[n - 1] == nodes[n - 1]);
        }
    }
}

/// The denominators of a node are the product over the others.
proof fn lemma_own_product<R: Real>(nodes: Seq<R>, j: int, n: int)
    requires
        0 <= j < nodes.len(),
        0 <= n <= nodes.len(),
    ensures
        node_product(nodes, j, n) == node_polynomial(
            nodes.remove(j),
            nodes[j],
            if n <= j {
                n
            } else {
                n - 1
            },
        ),
    decreases n,
{
    if n > 0 {
        lemma_own_product(nodes, j, n - 1);
    }
}

/// The sum of reciprocal distances of a node to the others.
proof fn lemma_pole_sum<R: Real>(nodes: Seq<R>, j: int, n: int)
    requires
        0 <= j < nodes.len(),
        0 <= n <= nodes.len(),
    ensures
        pole_sum(nodes, j, n) == sum(
            if n <= j {
                n
            } else {
                n - 1
            },
            poles(nodes.remove(j), nodes[j]),
        ),
    decreases n,
{
    if n > 0 {
        lemma_pole_sum(nodes, j, n - 1);
    }
}

/// At a node, the slopes of the other polynomials are minus the reciprocal distances, weighed by
/// the polynomials of the remaining nodes.
pub proof fn lemma_other_slope<R: Real>(nodes: Seq<R>, x: R, j: int, i: int)
    requires
        exact_field::<R>(),
        distinct(nodes, nodes.len() as int),
        0 <= j < nodes.len(),
        0 <= i < nodes.len(),
        i != j,
        node_at(nodes, x) == Some(j),
    ensures
        distinct(nodes.remove(j), nodes.len() - 1),
        tabulated_slopes(nodes, x)(i) == second_pulls(
            nodes.remove(j),
            nodes[j],
            nodes.len() - 1,
        )(without(i, j)).negated(),
{
    lemma_over(R::one_val(), R::one_val());
    let n = nodes.len() as int;
    let m = n - 1;
    let y = nodes[j];
    let rest = nodes.remove(j);
    assert forall|a: int, b: int| 0 <= a < m && 0 <= b < m && a != b implies #[trigger] rest[a]
        != #[trigger] rest[b] by {}
    assert forall|a: int| 0 <= a < m implies y != #[trigger] rest[a] by {}
    let (wj, q) = (barycentric(nodes, j), node_polynomial(rest, y, m));
    lemma_own_product(nodes, j, n);
    lemma_polynomial_nonzero(rest, y, m);
    lemma_recip(q);
    assert(wj == recip(q));
    lemma_recip_unique_of(q);
    let a = without(i, j);
    let (d, z) = (nodes[i].minus(y), y.minus(nodes[i]));
    assert(nodes[i] != nodes[j]);
    assert(rest[a] == nodes[i]);
    lemma_minus_zero(nodes[i], y);
    lemma_minus_zero(y, nodes[i]);
    lemma_removed_product(nodes, j, i, n);
    let u = node_product(rest, a, m);
    lemma_product_of_node_nonzero(rest, a, m, m);
    lemma_recip_product(u, d);
    lemma_minus_flip(nodes[i], y);
    lemma_recip_negated(z);
    let (ru, rz) = (recip(u), recip(z));
    assert(recip(d) == rz.negated());
    assert(barycentric(nodes, i) == ru.times(rz.negated()));
    // w_i / (w_j z) == -(q ru rz) rz
    lemma_product_nonzero(wj, z);
    lemma_quotient(barycentric(nodes, i), wj.times(z));
    lemma_recip_product(wj, z);
    assert(recip(wj) == q);
    lemma_pull(rest, y, a, m);
    let l = line_product(rest, y, a, m);
    assert(l == q.times(ru.times(rz)));
    lemma_times_negated(ru, rz);
    lemma_times_negated(ru.times(rz), q.times(rz));
    lemma_times_assoc(ru.times(rz), q, rz);
    lemma_times_comm(ru.times(rz), q);
}

/// The tabulated slopes add up to zero at the nodes.
proof fn lemma_slopes_at<R: Real>(nodes: Seq<R>, x: R, j: int)
    requires
        exact_field::<R>(),
        distinct(nodes, nodes.len() as int),
        0 <= j < nodes.len(),
        node_at(nodes, x) == Some(j),
    ensures
        sum(nodes.len() as int, tabulated_slopes(nodes, x)) == R::zero_val(),
{
    lemma_over(R::one_val(), R::one_val());
    let n = nodes.len() as int;
    let m = n - 1;
    let y = nodes[j];
    let rest = nodes.remove(j);
    assert forall|a: int, b: int| 0 <= a < m && 0 <= b < m && a != b implies #[trigger] rest[a]
        != #[trigger] rest[b] by {}
    assert forall|a: int| 0 <= a < m implies y != #[trigger] rest[a] by {}
    let f = tabulated_slopes(nodes, x);
    // the other slopes are minus the weighted reciprocal distances
    let g = |a: int| second_pulls(rest, y, m)(a).negated();
    assert forall|i: int| 0 <= i < n && i != j implies #[trigger] f(i) == g(without(i, j)) by {
        lemma_other_slope(nodes, x, j, i);
    }
    let own = pole_sum(nodes, j, n);
    lemma_pole_sum(nodes, j, n);
    lemma_second_pulls(rest, y, m);
    assert(f(j) == own);
    lemma_sum_inserted(m, j, own, g, f);
    // the sum of negations
    let p = second_pulls(rest, y, m);
    assert forall|a: int| 0 <= a < m implies #[trigger] g(a) == R::one_val().negated().times(
        p(a),
    ) by {
        lemma_times_negated(R::one_val(), p(a));
        lemma_times_one(p(a));
    }
    lemma_sum_scale(m, R::one_val().negated(), p, g);
    let s = sum(m, p);
    lemma_times_negated(R::one_val(), s);
    lemma_times_one(s);
    lemma_negated(s);
}

/// The reciprocal of the reciprocal.
proof fn lemma_recip_unique_of<R: Real>(a: R)
    requires
        exact_field::<R>(),
        a != R::zero_val(),
    ensures
        recip(recip(a)) == a,
{
    lemma_recip(a);
    lemma_recip_unique(recip(a), a);
}

/// The tabulated slopes of the Lagrange polynomials add up to zero at every point.
pub proof fn law_lagrange_slopes_sum_to_zero<R: Real>(nodes: Seq<R>, x: R)
    requires
        exact_field::<R>(),
        R::zero_val().magnitude().less(tolerance::<R>()),
        distinct(nodes, nodes.len() as int),
        1 <= nodes.len(),
    ensures
        sum(nodes.len() as int, tabulated_slopes(nodes, x)) == R::zero_val(),
{
    lemma_over(R::one_val(), R::one_val());
    lemma_node_from(nodes, x, 0);
    match node_at(nodes, x) {
        Some(j) => {
            lemma_slopes_at(nodes, x, j);
        },
        None => {
            lemma_slopes_away(nodes, x);
        },
    }
}

// ── constants in one, two and three dimensions ──────────────────────────────

/// Row `i` of a table with `p` columns.
pub open spec fn table_row<R>(b: Seq<R>, p: int, i: int) -> spec_fn(int) -> R {
    |j: int| b[i * p + j]
}

/// Every row of a `q × p` table adds up to `c`.
pub open spec fn rows_sum_to<R: Real>(b: Seq<R>, q: int, p: int, c: R) -> bool {
    forall|i: int| 0 <= i < q ==> #[trigger] sum(p, table_row(b, p, i)) == c
}

/// The rows of the table of values add up to one.
pub proof fn law_value_table_rows<R: Real>(nodes: Seq<R>, points: Seq<R>)
    requires
        exact_field::<R>(),
        R::zero_val().magnitude().less(tolerance::<R>()),
        distinct(nodes, nodes.len() as int),
        1 <= nodes.len(),
    ensures
        rows_sum_to(
            value_table(nodes, points),
            points.len() as int,
            nodes.len() as int,
            R::one_val(),
        ),
{
    let p = nodes.len() as int;
    let b = value_table(nodes, points);
    assert forall|i: int| 0 <= i < points.len() implies #[trigger] sum(p, table_row(b, p, i))
        == R::one_val() by {
        law_lagrange_values_sum_to_one(nodes, points[i]);
        let (f, g) = (table_row(b, p, i), tabulated(nodes, points[i]));
        assert forall|j: int| 0 <= j < p implies #[trigger] f(j) == g(j) by {
            lemma_flat(i, points.len() as int, j, p);
        }
        lemma_sum_ext(p, f, g);
    }
}

/// The rows of the table of slopes that belong to exact values add up to zero.
pub proof fn law_slope_table_rows<R: Real>(nodes: Seq<R>, points: Seq<R>)
    requires
        exact_field::<R>(),
        R::zero_val().magnitude().less(tolerance::<R>()),
        distinct(nodes, nodes.len() as int),
        1 <= nodes.len(),
    ensures
        rows_sum_to(
            slope_table(nodes, points, value_table(nodes, points)),
            points.len() as int,
            nodes.len() as int,
            R::zero_val(),
        ),
{
    let p = nodes.len() as int;
    let b = slope_table(nodes, points, value_table(nodes, points));
    assert forall|i: int| 0 <= i < points.len() implies #[trigger] sum(p, table_row(b, p, i))
        == R::zero_val() by {
        law_lagrange_slopes_sum_to_zero(nodes, points[i]);
        let (f, g) = (table_row(b, p, i), tabulated_slopes(nodes, points[i]));
        assert forall|j: int| 0 <= j < p implies #[trigger] f(j) == g(j) by {
            lemma_flat(i, points.len() as int, j, p);
        }
        lemma_sum_ext(p, f, g);
    }
}

/// `n` times the value `c`.
pub open spec fn constant<R>(n: int, c: R) -> Seq<R> {
    Seq::new(n as nat, |k: int| c)
}

/// A contraction takes a constant to its multiple by the common row sum.
proof fn lemma_axis_constant<R: Real>(
    b: Seq<R>,
    q: int,
    p: int,
    outer: int,
    depth: int,
    c: R,
    r: R,
)
    requires
        exact_ring::<R>(),
        0 < q,
        0 < p,
        0 < outer,
        0 < depth,
        rows_sum_to(b, q, p, r),
    ensures
        axis(b, q, p, false, outer, depth, constant(outer * p * depth, c)) == constant(
            outer * q * depth,
            c.times(r),
        ),
{
    let x = constant(outer * p * depth, c);
    let y = axis(b, q, p, false, outer, depth, x);
    assert forall|k: int| 0 <= k < outer * q * depth implies #[trigger] y[k] == c.times(r) by {
        lemma_split3(k, outer, q, depth);
        let (o, j, l) = (k / depth / q, k / depth % q, k % depth);
        let (t, row) = (axis_terms(b, p, false, p, depth, x, o, j, l), table_row(b, p, j));
        assert forall|i: int| 0 <= i < p implies #[trigger] t(i) == c.times(row(i)) by {
            lemma_flat3(o, outer, i, p, l, depth);
            lemma_times_comm(row(i), c);
        }
        lemma_sum_scale(p, c, row, t);
        assert(sum(p, row) == r);
    }
    assert(y =~= constant(outer * q * depth, c.times(r)));
}

/// Where the rows of the one-dimensional table add up to one, interpolation keeps constants.
pub proof fn law_constants_are_interpolated<R: Real>(view: LagrangeView<R>, c: R)
    requires
        exact_ring::<R>(),
        view.valid(),
        rows_sum_to(view.interp, view.q as int, view.p as int, R::one_val()),
    ensures
        view.forward(NO_DIR as int, constant(view.num_dof(), c)) == constant(
            view.num_qpoints(),
            c,
        ),
{
    let (p, q) = (view.p as int, view.q as int);
    lemma_times_one(c);
    lemma_grid_sizes(p, q);
    if view.dim == 1 {
        lemma_axis_constant(view.interp, q, p, 1, 1, c, R::one_val());
    } else if view.dim == 2 {
        lemma_axis_constant(view.interp, q, p, p, 1, c, R::one_val());
        lemma_axis_constant(view.interp, q, p, 1, q, c, R::one_val());
    } else {
        lemma_axis_constant(view.interp, q, p, p * p, 1, c, R::one_val());
        lemma_axis_constant(view.interp, q, p, p, q, c, R::one_val());
        lemma_axis_constant(view.interp, q, p, 1, q * q, c, R::one_val());
    }
}

/// Constant that a contraction along one axis makes of the constant `c`, when the direction `dir`
/// is differentiated.
spec fn contracted<R: Real>(along: int, dir: int, c: R) -> R {
    if along == dir {
        R::zero_val()
    } else {
        c
    }
}

/// One contraction of a constant.
proof fn lemma_stage_constant<R: Real>(
    view: LagrangeView<R>,
    along: int,
    dir: int,
    outer: int,
    depth: int,
    n: int,
    m: int,
    c: R,
)
    requires
        exact_ring::<R>(),
        view.valid(),
        0 < outer,
        0 < depth,
        n == outer * view.p * depth,
        m == outer * view.q * depth,
        rows_sum_to(view.interp, view.q as int, view.p as int, R::one_val()),
        rows_sum_to(view.grad, view.q as int, view.p as int, R::zero_val()),
    ensures
        view.stage(along, dir, false, outer, depth, constant(n, c)) == constant(
            m,
            contracted(along, dir, c),
        ),
{
    let (p, q) = (view.p as int, view.q as int);
    lemma_times_one(c);
    lemma_times_zero(c);
    if along == dir {
        lemma_axis_constant(view.grad, q, p, outer, depth, c, R::zero_val());
    } else {
        lemma_axis_constant(view.interp, q, p, outer, depth, c, R::one_val());
    }
}

/// Where besides the rows of the table of slopes add up to zero, constants have no gradient.
pub proof fn law_constants_have_no_gradient<R: Real>(view: LagrangeView<R>, c: R, d: int)
    requires
        exact_ring::<R>(),
        view.valid(),
        0 <= d < view.dim,
        rows_sum_to(view.interp, view.q as int, view.p as int, R::one_val()),
        rows_sum_to(view.grad, view.q as int, view.p as int, R::zero_val()),
    ensures
        view.forward(d, constant(view.num_dof(), c)) == constant(
            view.num_qpoints(),
            R::zero_val(),
        ),
{
    let (p, q) = (view.p as int, view.q as int);
    let c0 = contracted(0, d, c);
    let c1 = contracted(1, d, c0);
    lemma_grid_sizes(p, q);
    if view.dim == 1 {
        lemma_stage_constant(view, 0, d, 1, 1, p, q, c);
    } else if view.dim == 2 {
        lemma_stage_constant(view, 0, d, p, 1, p * p, p * q, c);
        lemma_stage_constant(view, 1, d, 1, q, p * q, q * q, c0);
    } else {
        lemma_stage_constant(view, 0, d, p * p, 1, p * p * p, p * p * q, c);
        lemma_stage_constant(view, 1, d, p, q, p * p * q, p * q * q, c0);
        lemma_stage_constant(view, 2, d, 1, q * q, p * q * q, q * q * q, c1);
    }
}

/// Sizes of the arrays between contractions.
proof fn lemma_grid_sizes(p: int, q: int)
    by (nonlinear_arith)
    requires
        0 < p,
        0 < q,
    ensures
        0 < p * p,
        0 < q * q,
        1 * p * 1 == p,
        1 * q * 1 == q,
        p * p * 1 == p * p,
        p * q * 1 == p * q,
        1 * p * q == p * q,
        1 * q * q == q * q,
        p * p * p * 1 == p * p * p,
        p * p * q * 1 == p * p * q,
        1 * p * (q * q) == p * q * q,
        1 * q * (q * q) == q * q * q,
{
}

} // verus!
