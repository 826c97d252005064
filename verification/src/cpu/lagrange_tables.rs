//! Barycentric Lagrange interpolation and differentiation tables.

use vstd::prelude::*;

use crate::cpu::quadrature::point_tolerance;
#[allow(unused_imports)]
use crate::cpu::quadrature::tolerance;
#[allow(unused_imports)]
use crate::index::{lemma_flat, lemma_mul_le, lemma_split};
#[allow(unused_imports)]
use crate::scalar::sum;
use crate::scalar::Real;

verus! {

/// The product of `nodes[j] - nodes[k]` over the first `n` nodes other than `j`.
pub open spec fn node_product<R: Real>(nodes: Seq<R>, j: int, n: int) -> R
    decreases n,
{
    if n <= 0 {
        R::one_val()
    } else if n - 1 == j {
        node_product(nodes, j, n - 1)
    } else {
        node_product(nodes, j, n - 1).times(nodes[j].minus(nodes[n - 1]))
    }
}

/// Barycentric weight of node `j`.
pub open spec fn barycentric<R: Real>(nodes: Seq<R>, j: int) -> R {
    R::one_val().over(node_product(nodes, j, nodes.len() as int))
}

/// The first node at or after `j` that counts as equal to `x`.
pub open spec fn node_from<R: Real>(nodes: Seq<R>, x: R, j: int) -> Option<int>
    decreases nodes.len() - j,
{
    if j >= nodes.len() {
        None
    } else if x.minus(nodes[j]).magnitude().less(tolerance::<R>()) {
        Some(j)
    } else {
        node_from(nodes, x, j + 1)
    }
}

/// The node that counts as equal to `x`, if there is one.
pub open spec fn node_at<R: Real>(nodes: Seq<R>, x: R) -> Option<int> {
    node_from(nodes, x, 0)
}

/// The terms `w_j / (x - x_j)`.
pub open spec fn first_terms<R: Real>(nodes: Seq<R>, x: R) -> spec_fn(int) -> R {
    |j: int| barycentric(nodes, j).over(x.minus(nodes[j]))
}

/// The terms `w_j / (x - x_j)²`.
pub open spec fn second_terms<R: Real>(nodes: Seq<R>, x: R) -> spec_fn(int) -> R {
    |j: int| barycentric(nodes, j).over(x.minus(nodes[j]).times(x.minus(nodes[j])))
}

/// Value of the Lagrange polynomial of node `j` at `x`.
pub open spec fn lagrange_value<R: Real>(nodes: Seq<R>, x: R, j: int) -> R {
    match node_at(nodes, x) {
        Some(i) => if j == i {
            R::one_val()
        } else {
            R::zero_val()
        },
        None => (first_terms(nodes, x))(j).over(
            sum(nodes.len() as int, first_terms(nodes, x)),
        ),
    }
}

/// The sum of `1 / (x_i - x_m)` over the first `n` nodes other than `i`.
pub open spec fn pole_sum<R: Real>(nodes: Seq<R>, i: int, n: int) -> R
    decreases n,
{
    if n <= 0 {
        R::zero_val()
    } else if n - 1 == i {
        pole_sum(nodes, i, n - 1)
    } else {
        pole_sum(nodes, i, n - 1).plus(R::one_val().over(nodes[i].minus(nodes[n - 1])))
    }
}

/// Slope of the Lagrange polynomial of node `i` at `x`, given its value there.
pub open spec fn lagrange_slope<R: Real>(nodes: Seq<R>, x: R, i: int, value: R) -> R {
    let n = nodes.len() as int;
    match node_at(nodes, x) {
        Some(j) => if i == j {
            pole_sum(nodes, i, n)
        } else {
            barycentric(nodes, i).over(barycentric(nodes, j).times(nodes[j].minus(nodes[i])))
        },
        None => {
            let s1 = sum(n, first_terms(nodes, x));
            let s2 = sum(n, second_terms(nodes, x));
            value.times(s2.over(s1).minus(R::one_val().over(x.minus(nodes[i]))))
        },
    }
}

/// Interpolation table: row `i` holds the Lagrange polynomials at `points[i]`.
pub open spec fn value_table<R: Real>(nodes: Seq<R>, points: Seq<R>) -> Seq<R> {
    let p = nodes.len() as int;
    Seq::new(
        (points.len() * p) as nat,
        |k: int| lagrange_value(nodes, points[k / p], k % p),
    )
}

/// Differentiation table from the values in `values`.
pub open spec fn slope_table<R: Real>(nodes: Seq<R>, points: Seq<R>, values: Seq<R>) -> Seq<R> {
    let p = nodes.len() as int;
    Seq::new(
        (points.len() * p) as nat,
        |k: int| lagrange_slope(nodes, points[k / p], k % p, values[k]),
    )
}

fn barycentric_weights<R: Real>(nodes: &Vec<R>) -> (w: Vec<R>)
    ensures
        w@.len() == nodes@.len(),
        forall|j: int| 0 <= j < w@.len() ==> #[trigger] w@[j] == barycentric(nodes@, j),
{
    let n: usize = nodes.len();
    let mut w: Vec<R> = Vec::new();
    for j in 0..n
        invariant
            n == nodes@.len(),
            w@.len() == j,
            forall|i: int| 0 <= i < j ==> #[trigger] w@[i] == barycentric(nodes@, i),
    {
        let mut product = R::one();
        for k in 0..n
            invariant
                n == nodes@.len(),
                j < n,
                product == node_product(nodes@, j as int, k as int),
        {
            if j != k {
                product = product.mul(nodes[j].sub(nodes[k]));
            }
        }
        w.push(R::one().div(product));
    }
    w
}

fn find_node<R: Real>(nodes: &Vec<R>, x: R) -> (r: Option<usize>)
    ensures
        match r {
            Some(j) => j < nodes@.len() && node_at(nodes@, x) == Some(j as int),
            None => node_at(nodes@, x) is None,
        },
{
    for j in 0..nodes.len()
        invariant
            node_at(nodes@, x) == node_from(nodes@, x, j as int),
    {
        if x.sub(nodes[j]).abs().lt(point_tolerance()) {
            return Some(j);
        }
    }
    None
}

fn first_sum<R: Real>(nodes: &Vec<R>, w: &Vec<R>, x: R) -> (s: R)
    requires
        w@.len() == nodes@.len(),
        forall|j: int| 0 <= j < w@.len() ==> #[trigger] w@[j] == barycentric(nodes@, j),
    ensures
        s == sum(nodes@.len() as int, first_terms(nodes@, x)),
{
    let mut s = R::zero();
    for j in 0..nodes.len()
        invariant
            w@.len() == nodes@.len(),
            forall|i: int| 0 <= i < w@.len() ==> #[trigger] w@[i] == barycentric(nodes@, i),
            s == sum(j as int, first_terms(nodes@, x)),
    {
        s = s.add(w[j].div(x.sub(nodes[j])));
    }
    s
}

fn second_sum<R: Real>(nodes: &Vec<R>, w: &Vec<R>, x: R) -> (s: R)
    requires
        w@.len() == nodes@.len(),
        forall|j: int| 0 <= j < w@.len() ==> #[trigger] w@[j] == barycentric(nodes@, j),
    ensures
        s == sum(nodes@.len() as int, second_terms(nodes@, x)),
{
    let mut s = R::zero();
    for j in 0..nodes.len()
        invariant
            w@.len() == nodes@.len(),
            forall|i: int| 0 <= i < w@.len() ==> #[trigger] w@[i] == barycentric(nodes@, i),
            s == sum(j as int, second_terms(nodes@, x)),
    {
        let d = x.sub(nodes[j]);
        s = s.add(w[j].div(d.mul(d)));
    }
    s
}

/// Computes [`value_table`].
pub(crate) fn build_interp<R: Real>(nodes: &Vec<R>, points: &Vec<R>) -> (r: Vec<R>)
    requires
        points@.len() * nodes@.len() <= usize::MAX,
    ensures
        r@ == value_table(nodes@, points@),
{
    let w = barycentric_weights(nodes);
    let p: usize = nodes.len();
    let ghost goal = value_table(nodes@, points@);
    let mut r: Vec<R> = Vec::new();
    proof {
        assert(0 * p == 0);
    }
    for qi in 0..points.len()
        invariant
            p == nodes@.len(),
            w@.len() == p,
            forall|i: int| 0 <= i < p ==> #[trigger] w@[i] == barycentric(nodes@, i),
            goal == value_table(nodes@, points@),
            r@.len() == qi * p,
            forall|k: int| 0 <= k < r@.len() ==> #[trigger] r@[k] == goal[k],
    {
        let x = points[qi];
        let found = find_node(nodes, x);
        let denom = first_sum(nodes, &w, x);
        for j in 0..p
            invariant
                p == nodes@.len(),
                qi < points@.len(),
                x == points@[qi as int],
                w@.len() == p,
                forall|i: int| 0 <= i < p ==> #[trigger] w@[i] == barycentric(nodes@, i),
                match found {
                    Some(i) => i < p && node_at(nodes@, x) == Some(i as int),
                    None => node_at(nodes@, x) is None,
                },
                denom == sum(p as int, first_terms(nodes@, x)),
                goal == value_table(nodes@, points@),
                r@.len() == qi * p + j,
                forall|k: int| 0 <= k < r@.len() ==> #[trigger] r@[k] == goal[k],
        {
            proof {
                lemma_flat(qi as int, points@.len() as int, j as int, p as int);
            }
            let value = match found {
                Some(i) => if j == i {
                    R::one()
                } else {
                    R::zero()
                },
                None => w[j].div(x.sub(nodes[j])).div(denom),
            };
            r.push(value);
        }
        assert(qi * p + p == (qi + 1) * p) by (nonlinear_arith);
    }
    assert(r@ =~= goal);
    r
}

/// Computes [`slope_table`].
pub(crate) fn build_grad<R: Real>(nodes: &Vec<R>, points: &Vec<R>, values: &Vec<R>) -> (r: Vec<R>)
    requires
        points@.len() * nodes@.len() <= usize::MAX,
        values@.len() == points@.len() * nodes@.len(),
    ensures
        r@ == slope_table(nodes@, points@, values@),
{
    let w = barycentric_weights(nodes);
    let p: usize = nodes.len();
    let ghost goal = slope_table(nodes@, points@, values@);
    let mut r: Vec<R> = Vec::new();
    proof {
        assert(0 * p == 0);
    }
    for qi in 0..points.len()
        invariant
            p == nodes@.len(),
            points@.len() * p <= usize::MAX,
            values@.len() == points@.len() * p,
            w@.len() == p,
            forall|i: int| 0 <= i < p ==> #[trigger] w@[i] == barycentric(nodes@, i),
            goal == slope_table(nodes@, points@, values@),
            r@.len() == qi * p,
            forall|k: int| 0 <= k < r@.len() ==> #[trigger] r@[k] == goal[k],
    {
        let x = points[qi];
        let found = find_node(nodes, x);
        let s1 = first_sum(nodes, &w, x);
        let s2 = second_sum(nodes, &w, x);
        for i in 0..p
            invariant
                p == nodes@.len(),
                qi < points@.len(),
                points@.len() * p <= usize::MAX,
                values@.len() == points@.len() * p,
                x == points@[qi as int],
                w@.len() == p,
                forall|j: int| 0 <= j < p ==> #[trigger] w@[j] == barycentric(nodes@, j),
                match found {
                    Some(j) => j < p && node_at(nodes@, x) == Some(j as int),
                    None => node_at(nodes@, x) is None,
                },
                s1 == sum(p as int, first_terms(nodes@, x)),
                s2 == sum(p as int, second_terms(nodes@, x)),
                goal == slope_table(nodes@, points@, values@),
                r@.len() == qi * p + i,
                forall|k: int| 0 <= k < r@.len() ==> #[trigger] r@[k] == goal[k],
        {
            proof {
                lemma_flat(qi as int, points@.len() as int, i as int, p as int);
                lemma_mul_le(qi as int, qi as int, p as int, p as int);
            }
            let value = match found {
                Some(j) => if i == j {
                    sum_poles(nodes, i)
                } else {
                    w[i].div(w[j].mul(nodes[j].sub(nodes[i])))
                },
                None => values[qi * p + i].mul(s2.div(s1).sub(R::one().div(x.sub(nodes[i])))),
            };
            r.push(value);
        }
        assert(qi * p + p == (qi + 1) * p) by (nonlinear_arith);
    }
    assert(r@ =~= goal);
    r
}

fn sum_poles<R: Real>(nodes: &Vec<R>, i: usize) -> (s: R)
    requires
        i < nodes@.len(),
    ensures
        s == pole_sum(nodes@, i as int, nodes@.len() as int),
{
    let mut s = R::zero();
    for m in 0..nodes.len()
        invariant
            i < nodes@.len(),
            s == pole_sum(nodes@, i as int, m as int),
    {
        if m != i {
            s = s.add(R::one().div(nodes[i].sub(nodes[m])));
        }
    }
    s
}

/// Coordinates of the tensor-product points, the first axis running fastest.
pub open spec fn tensor_points<R: Real>(points: Seq<R>, count: int, dim: int) -> Seq<R> {
    let q = points.len() as int;
    Seq::new(
        (count * dim) as nat,
        |k: int|
            if k % dim == 0 {
                points[k / dim % q]
            } else if k % dim == 1 {
                points[k / dim / q % q]
            } else {
                points[k / dim / q / q]
            },
    )
}

/// Weights of the tensor-product points.
pub open spec fn tensor_weights<R: Real>(weights: Seq<R>, count: int, dim: int) -> Seq<R> {
    let q = weights.len() as int;
    Seq::new(
        count as nat,
        |k: int|
            if dim <= 1 {
                weights[k]
            } else if dim == 2 {
                weights[k % q].times(weights[k / q])
            } else {
                weights[k % q].times(weights[k / q % q]).times(weights[k / q / q])
            },
    )
}

/// Computes [`tensor_points`].
pub(crate) fn build_tensor_points<R: Real>(points: &Vec<R>, count: usize, dim: usize) -> (r: Vec<R>)
    requires
        1 <= dim <= 3,
        count * dim <= usize::MAX,
        points@.len() > 0,
        dim == 1 ==> count == points@.len(),
        dim == 2 ==> count == points@.len() * points@.len(),
        dim == 3 ==> count == points@.len() * points@.len() * points@.len(),
    ensures
        r@ == tensor_points(points@, count as int, dim as int),
{
    let q: usize = points.len();
    let ghost goal = tensor_points(points@, count as int, dim as int);
    let mut r: Vec<R> = Vec::new();
    for k in 0..count * dim
        invariant
            1 <= dim <= 3,
            count * dim <= usize::MAX,
            q == points@.len(),
            q > 0,
            dim == 1 ==> count == q,
            dim == 2 ==> count == q * q,
            dim == 3 ==> count == q * q * q,
            goal == tensor_points(points@, count as int, dim as int),
            r@.len() == k,
            forall|j: int| 0 <= j < k ==> #[trigger] r@[j] == goal[j],
    {
        proof {
            lemma_split(k as int, count as int, dim as int);
            if dim == 3 {
                lemma_split(k as int / dim as int, q * q, q as int);
                lemma_split(k as int / dim as int / q as int, q as int, q as int);
            }
        }
        let pt: usize = k / dim;
        let a: usize = k % dim;
        let i: usize = if a == 0 {
            pt % q
        } else if a == 1 {
            pt / q % q
        } else {
            pt / q / q
        };
        r.push(points[i]);
    }
    assert(r@ =~= goal);
    r
}

/// Computes [`tensor_weights`].
pub(crate) fn build_tensor_weights<R: Real>(weights: &Vec<R>, count: usize, dim: usize) -> (r: Vec<
    R,
>)
    requires
        1 <= dim <= 3,
        weights@.len() > 0,
        dim == 1 ==> count == weights@.len(),
        dim == 2 ==> count == weights@.len() * weights@.len(),
        dim == 3 ==> count == weights@.len() * weights@.len() * weights@.len(),
    ensures
        r@ == tensor_weights(weights@, count as int, dim as int),
{
    let q: usize = weights.len();
    let ghost goal = tensor_weights(weights@, count as int, dim as int);
    let mut r: Vec<R> = Vec::new();
    for k in 0..count
        invariant
            1 <= dim <= 3,
            q == weights@.len(),
            q > 0,
            dim == 1 ==> count == q,
            dim == 2 ==> count == q * q,
            dim == 3 ==> count == q * q * q,
            goal == tensor_weights(weights@, count as int, dim as int),
            r@.len() == k,
            forall|j: int| 0 <= j < k ==> #[trigger] r@[j] == goal[j],
    {
        proof {
            if dim == 2 {
                lemma_split(k as int, q as int, q as int);
            }
            if dim == 3 {
                lemma_split(k as int, q * q, q as int);
                lemma_split(k as int / q as int, q as int, q as int);
            }
        }
        let w = if dim == 1 {
            weights[k]
        } else if dim == 2 {
            weights[k % q].mul(weights[k / q])
        } else {
            weights[k % q].mul(weights[k / q % q]).mul(weights[k / q / q])
        };
        r.push(w);
    }
    assert(r@ =~= goal);
    r
}

} // verus!
