//! Laws of the eigenvalue solver in exact arithmetic.

use vstd::prelude::*;

#[allow(unused_imports)]
use crate::cpu::eigen::{
    ascending, cosine_of, diagonalized, eigenvalues, eigenvectors, law_ascending_is_permutation,
    lemma_ascending, negligible, place, quiet, rotate, rotated_entry, rotation_tolerance,
    row_visited, swept, tangent, turned_first, turned_second, unrotated, upper, visited, Rotated,
};
#[allow(unused_imports)]
use crate::exact::{
    exact_integers, lemma_distribute_minus, lemma_int_nonzero, lemma_int_plus, lemma_int_units,
    lemma_minus_flip, lemma_minus_plus, lemma_minus_self, lemma_negated_twice, lemma_plus_swap,
    lemma_product_nonzero, lemma_quotient, lemma_recip, lemma_recip_unique, lemma_times_cross,
    lemma_times_swap,
};
#[allow(unused_imports)]
use crate::index::{lemma_flat, lemma_mul_le};
#[allow(unused_imports)]
use crate::linear::{
    column_products, delta, lemma_sum_inserted, lemma_sum_split, orthonormal_columns, others,
};
use crate::scalar::Real;
#[allow(unused_imports)]
use crate::scalar::{
    exact_field, exact_ring, lemma_distribute, lemma_minus, lemma_negated, lemma_negated_unique,
    lemma_over, lemma_plus_assoc, lemma_plus_comm, lemma_plus_cross, lemma_plus_zero,
    lemma_sum_ext, lemma_sum_plus, lemma_sum_scale, lemma_sum_single, lemma_times_assoc,
    lemma_times_comm, lemma_times_negated, lemma_times_one, lemma_times_zero, sum,
};

verus! {

// ── plane rotations ─────────────────────────────────────────────────────────

/// One plus a square is a square, and not zero.
#[verifier::opaque]
pub open spec fn exact_roots<T: Real>() -> bool {
    forall|t: T|
        {
            let n = T::one_val().plus(#[trigger] t.times(t));
            n != T::zero_val() && n.root().times(n.root()) == n
        }
}

proof fn lemma_root<T: Real>(t: T)
    requires
        exact_roots::<T>(),
    ensures
        T::one_val().plus(t.times(t)) != T::zero_val(),
        T::one_val().plus(t.times(t)).root().times(T::one_val().plus(t.times(t)).root())
            == T::one_val().plus(t.times(t)),
{
    reveal(exact_roots);
}

/// A rotation with tangent `t` has a cosine and a sine of unit length.
proof fn lemma_unit<T: Real>(t: T)
    requires
        exact_field::<T>(),
        exact_roots::<T>(),
    ensures
        ({
            let c = cosine_of(t);
            let s = t.times(c);
            let tt = t.times(t);
            &&& c.times(c).times(T::one_val().plus(tt)) == T::one_val()
            &&& c.times(c).plus(s.times(s)) == T::one_val()
        }),
{
    lemma_over(T::one_val(), T::one_val());
    lemma_root(t);
    let tt = t.times(t);
    let n = T::one_val().plus(tt);
    let r = n.root();
    lemma_times_zero(r);
    lemma_recip(r);
    let c = cosine_of(t);
    let e = c.times(c);
    lemma_times_cross(c, c, r, r);
    lemma_times_one(T::one_val());
    lemma_distribute(e, T::one_val(), tt);
    lemma_times_one(e);
    lemma_times_cross(t, c, t, c);
    lemma_times_comm(e, tt);
}

/// The tangent solves the equation that clears an entry: with `k` twice the cotangent of the
/// double angle, `t² + k t == 1`, and the entry times `k` is the difference of the diagonal.
proof fn lemma_tangent<T: Real>(m: Rotated<T>, p: int, i: int, j: int) -> (k: T)
    requires
        exact_field::<T>(),
        exact_integers::<T>(),
        exact_roots::<T>(),
        m.w[i + j * p] != T::zero_val(),
    ensures
        ({
            let t = tangent(m, p, i, j);
            let x = m.w[i + j * p];
            &&& t.times(t).plus(k.times(t)) == T::one_val()
            &&& m.d[j] == m.d[i].plus(k.times(x))
        }),
{
    lemma_over(T::one_val(), T::one_val());
    let (one, two) = (T::one_val(), T::int_val(2));
    let x = m.w[i + j * p];
    let diff = m.d[j].minus(m.d[i]);
    let tau = diff.over(two.times(x));
    let k = two.times(tau);
    let t = tangent(m, p, i, j);
    lemma_int_nonzero::<T>(2);
    lemma_product_nonzero(two, x);
    lemma_quotient(diff, two.times(x));
    // k x == d_j - d_i
    lemma_times_assoc(tau, two, x);
    lemma_times_comm(tau, two);
    lemma_minus_plus(m.d[j], m.d[i]);
    lemma_plus_comm(diff, m.d[i]);
    // with r² == 1 + tau²: (r - tau) (r + tau) == 1
    lemma_root(tau);
    let r = one.plus(tau.times(tau)).root();
    let (lo, hi) = (r.minus(tau), r.plus(tau));
    lemma_distribute_minus(hi, r, tau);
    lemma_distribute(r, r, tau);
    lemma_distribute(tau, r, tau);
    let (rr, rt, tt) = (r.times(r), r.times(tau), tau.times(tau));
    lemma_times_comm(tau, r);
    lemma_times_comm(lo, hi);
    // (r r + tau r) - (r tau + tau tau) == r r - tau tau
    assert(hi.times(lo) == rr.plus(rt).minus(rt.plus(tt)));
    lemma_difference(rr, rt, tt);
    lemma_minus_plus(one, tt);
    assert(hi.times(lo) == one);
    // k == hi - lo
    lemma_int_plus::<T>(1, 1);
    lemma_int_units::<T>();
    lemma_distribute(tau, one, one);
    lemma_times_one(tau);
    assert(k == tau.plus(tau));
    if T::zero_val().at_most(tau) {
        lemma_plus_comm(tau, r);
        lemma_recip_unique(hi, lo);
        assert(t == lo);
        // t + k == hi
        lemma_plus_assoc(lo, tau, tau);
        lemma_minus_plus(r, tau);
        lemma_distribute(t, t, k);
    } else {
        let m_lo = tau.negated().plus(r);
        lemma_minus(r, tau);
        lemma_plus_comm(tau.negated(), r);
        assert(m_lo == lo);
        lemma_recip_unique(lo, hi);
        lemma_quotient(one.negated(), lo);
        lemma_times_negated(one, hi);
        lemma_times_one(hi);
        assert(t == hi.negated());
        // t + k == -lo
        lemma_minus_plus(r, tau);
        lemma_plus_assoc(lo, tau, tau);
        assert(hi == lo.plus(k));
        lemma_plus_comm(lo, k);
        lemma_plus_zero(k);
        lemma_negated(lo);
        lemma_sum_negated(lo, k);
        assert(t.plus(k) == lo.negated());
        lemma_distribute(t, t, k);
        lemma_times_negated(hi.negated(), lo);
        lemma_times_negated(hi, lo);
        lemma_negated_twice(hi.times(lo));
    }
    lemma_times_comm(t, k);
    k
}

/// `(a + b) - (b + c) == a - c`.
proof fn lemma_difference<T: Real>(a: T, b: T, c: T)
    requires
        exact_ring::<T>(),
    ensures
        a.plus(b).minus(b.plus(c)) == a.minus(c),
{
    // (a - c) + (b + c) == a + b
    let d = a.minus(c);
    lemma_plus_comm(b, c);
    lemma_plus_assoc(d, c, b);
    lemma_minus_plus(a, c);
    lemma_minus_plus(d, b.plus(c));
}

/// `-(a + b) + b == -a`.
proof fn lemma_sum_negated<T: Real>(a: T, b: T)
    requires
        exact_ring::<T>(),
    ensures
        a.plus(b).negated().plus(b) == a.negated(),
{
    let n = a.plus(b).negated();
    // a + (n + b) == 0
    lemma_plus_comm(n, b);
    lemma_plus_assoc(a, b, n);
    lemma_negated(a.plus(b));
    lemma_negated_unique(a, n.plus(b));
}

/// The rotated pair of diagonal entries, with the entry between them cleared.
proof fn lemma_rotated_pair<T: Real>(a: T, x: T, k: T, t: T, c: T)
    requires
        exact_ring::<T>(),
        t.times(t).plus(k.times(t)) == T::one_val(),
        c.times(c).times(T::one_val().plus(t.times(t))) == T::one_val(),
        c.times(c).plus(t.times(c).times(t.times(c))) == T::one_val(),
    ensures
        ({
            let s = t.times(c);
            let b = a.plus(k.times(x));
            let (ii, ij) = (turned_first(c, s, a, x), turned_second(c, s, a, x));
            let (ji, jj) = (turned_first(c, s, x, b), turned_second(c, s, x, b));
            &&& turned_first(c, s, ii, ji) == a.minus(t.times(x))
            &&& turned_first(c, s, ij, jj) == T::zero_val()
            &&& turned_second(c, s, ii, ji) == T::zero_val()
            &&& turned_second(c, s, ij, jj) == b.plus(t.times(x))
        }),
{
    let one = T::one_val();
    let s = t.times(c);
    let b = a.plus(k.times(x));
    let (e, f, g) = (c.times(c), c.times(s), s.times(s));
    let tt = t.times(t);
    // f == t e and g == t f
    lemma_times_comm(c, s);
    lemma_times_assoc(t, c, c);
    assert(f == t.times(e));
    lemma_times_assoc(t, c, s);
    assert(g == t.times(f));
    // g k + t == f + f
    lemma_times_assoc(t, f, k);
    lemma_times_comm(t, f.times(k));
    lemma_times_assoc(f, k, t);
    assert(g.times(k) == f.times(k.times(t)));
    lemma_distribute(e, one, tt);
    lemma_times_assoc(t, e, one.plus(tt));
    lemma_times_one(t);
    assert(f.times(one.plus(tt)) == t);
    lemma_distribute(f, k.times(t), one.plus(tt));
    lemma_plus_comm(one, tt);
    lemma_plus_assoc(k.times(t), tt, one);
    lemma_plus_comm(k.times(t), tt);
    lemma_distribute(f, one, one);
    lemma_times_one(f);
    assert(g.times(k).plus(t) == f.plus(f));
    // g + f k == e
    lemma_times_comm(t, f);
    lemma_distribute(f, t, k);
    lemma_times_swap(t, e, t.plus(k));
    lemma_times_comm(t.times(t.plus(k)), e);
    lemma_distribute(t, t, k);
    lemma_times_comm(t, k);
    lemma_times_one(e);
    assert(g.plus(f.times(k)) == e);
    // products
    let (ea, fa, ga) = (e.times(a), f.times(a), g.times(a));
    let (ex, fx, gx) = (e.times(x), f.times(x), g.times(x));
    let (eb, fb, gb) = (e.times(b), f.times(b), g.times(b));
    lemma_times_assoc(c, c, a);
    lemma_times_assoc(c, s, x);
    lemma_times_assoc(s, c, x);
    lemma_times_assoc(s, s, b);
    lemma_times_assoc(c, s, a);
    lemma_times_assoc(c, c, x);
    lemma_times_assoc(s, s, x);
    lemma_times_assoc(s, c, b);
    lemma_times_assoc(s, c, a);
    lemma_times_assoc(c, s, b);
    lemma_times_assoc(s, s, a);
    lemma_times_assoc(c, c, b);
    lemma_distribute_minus(c, c.times(a), s.times(x));
    lemma_distribute_minus(s, c.times(x), s.times(b));
    lemma_distribute(c, s.times(a), c.times(x));
    lemma_distribute(s, s.times(x), c.times(b));
    lemma_distribute_minus(s, c.times(a), s.times(x));
    lemma_distribute_minus(c, c.times(x), s.times(b));
    lemma_distribute(s, s.times(a), c.times(x));
    lemma_distribute(c, s.times(x), c.times(b));
    // sums of the diagonal: e a + g b == a + (g k) x, e b + g a + (g k) x == b
    let gkx = g.times(k).times(x);
    lemma_distribute(g, a, k.times(x));
    lemma_times_assoc(g, k, x);
    assert(gb == ga.plus(gkx));
    lemma_plus_assoc(ea, ga, gkx);
    lemma_distribute(a, e, g);
    lemma_times_one(a);
    assert(ea.plus(gb) == a.plus(gkx));
    lemma_distribute(b, e, g);
    lemma_times_one(b);
    assert(b == eb.plus(ga.plus(gkx)));
    // the first diagonal entry
    let tx = t.times(x);
    let first = ea.minus(fx).minus(fx.minus(gb));
    lemma_minus(ea.minus(fx), fx.minus(gb));
    lemma_minus_flip(gb, fx);
    lemma_minus(ea, fx);
    lemma_minus(gb, fx);
    let n = fx.negated();
    lemma_plus_cross(ea, n, gb, n);
    assert(first == a.plus(gkx).plus(n.plus(n)));
    lemma_plus_swap(a.plus(gkx), n.plus(n), tx);
    lemma_plus_assoc(a, gkx, tx);
    lemma_distribute(x, g.times(k), t);
    lemma_distribute(x, f, f);
    lemma_plus_assoc(a, fx.plus(fx), n.plus(n));
    lemma_plus_cross(fx, fx, n, n);
    lemma_negated(fx);
    lemma_plus_zero(T::zero_val());
    lemma_plus_zero(a);
    assert(first.plus(tx) == a);
    lemma_minus_plus(first, tx);
    // the second diagonal entry
    let second = ga.plus(fx).plus(fx.plus(eb));
    lemma_plus_cross(ga, fx, eb, fx);
    lemma_plus_comm(fx, eb);
    assert(second == ga.plus(eb).plus(fx.plus(fx)));
    lemma_plus_assoc(eb, ga, gkx);
    lemma_plus_comm(eb, ga);
    lemma_plus_assoc(ga.plus(eb), gkx, tx);
    // the entry between them
    let fkx = f.times(k).times(x);
    lemma_distribute(f, a, k.times(x));
    lemma_times_assoc(f, k, x);
    assert(fb == fa.plus(fkx));
    lemma_distribute(x, g, f.times(k));
    assert(ex == gx.plus(fkx));
    lemma_plus_assoc(gx, fa, fkx);
    lemma_plus_comm(gx, fa);
    lemma_plus_assoc(fa, gx, fkx);
    assert(fa.plus(ex) == gx.plus(fb));
    lemma_minus_self(gx.plus(fb));
    lemma_minus(fa, gx);
    lemma_minus(ex, fb);
    lemma_plus_cross(fa, gx.negated(), ex, fb.negated());
    lemma_plus_cross(gx, fb, gx.negated(), fb.negated());
    lemma_negated(gx);
    lemma_negated(fb);
}

// ── inner products under rotation ───────────────────────────────────────────

/// A vector rotated in the plane of `i` and `j`.
pub open spec fn turned<T: Real>(c: T, s: T, i: int, j: int, f: spec_fn(int) -> T) -> spec_fn(
    int,
) -> T {
    |k: int|
        if k == i {
            turned_first(c, s, f(i), f(j))
        } else if k == j {
            turned_second(c, s, f(i), f(j))
        } else {
            f(k)
        }
}

/// Products of corresponding entries.
pub open spec fn dots<T: Real>(f: spec_fn(int) -> T, g: spec_fn(int) -> T) -> spec_fn(int) -> T {
    |k: int| f(k).times(g(k))
}

/// The inner product of rotated pairs.
proof fn lemma_turned_pair<T: Real>(c: T, s: T, a: T, b: T, x: T, y: T)
    requires
        exact_ring::<T>(),
        c.times(c).plus(s.times(s)) == T::one_val(),
    ensures
        turned_first(c, s, a, b).times(turned_first(c, s, x, y)).plus(
            turned_second(c, s, a, b).times(turned_second(c, s, x, y)),
        ) == a.times(x).plus(b.times(y)),
{
    let (p, q, u, v) = (c.times(a), s.times(b), c.times(x), s.times(y));
    let (sa, cb, sx, cy) = (s.times(a), c.times(b), s.times(x), c.times(y));
    let (e, g, f) = (c.times(c), s.times(s), c.times(s));
    let (ax, by, ay, bx) = (a.times(x), b.times(y), a.times(y), b.times(x));
    // (p - q)(u - v) == (p u + q v) - (p v + q u)
    lemma_distribute_minus(u.minus(v), p, q);
    lemma_distribute_minus(p, u, v);
    lemma_distribute_minus(q, u, v);
    let (pu, pv, qu, qv) = (p.times(u), p.times(v), q.times(u), q.times(v));
    lemma_cross_difference(pu, pv, qu, qv);
    assert(p.minus(q).times(u.minus(v)) == pu.plus(qv).minus(pv.plus(qu)));
    // (sa + cb)(sx + cy) == (sa sx + cb cy) + (sa cy + cb sx)
    lemma_distribute(sx.plus(cy), sa, cb);
    lemma_distribute(sa, sx, cy);
    lemma_distribute(cb, sx, cy);
    lemma_plus_comm(cb.times(sx), cb.times(cy));
    lemma_plus_cross(sa.times(sx), sa.times(cy), cb.times(cy), cb.times(sx));
    // products of products
    lemma_times_cross(c, a, c, x);
    lemma_times_cross(s, b, s, y);
    lemma_times_cross(c, a, s, y);
    lemma_times_cross(s, b, c, x);
    lemma_times_cross(s, a, s, x);
    lemma_times_cross(c, b, c, y);
    lemma_times_cross(s, a, c, y);
    lemma_times_cross(c, b, s, x);
    lemma_times_comm(s, c);
    let mixed = f.times(ay).plus(f.times(bx));
    let (first, second) = (
        e.times(ax).plus(g.times(by)),
        g.times(ax).plus(e.times(by)),
    );
    assert(p.minus(q).times(u.minus(v)) == first.minus(mixed));
    assert(sa.plus(cb).times(sx.plus(cy)) == second.plus(mixed));
    // (first - mixed) + (second + mixed) == first + second
    lemma_plus_comm(second, mixed);
    lemma_plus_assoc(first.minus(mixed), mixed, second);
    lemma_minus_plus(first, mixed);
    lemma_plus_cross(e.times(ax), g.times(by), g.times(ax), e.times(by));
    lemma_distribute(ax, e, g);
    lemma_distribute(by, g, e);
    lemma_plus_comm(g, e);
    lemma_times_one(ax);
    lemma_times_one(by);
}

/// `(a - b) - (c - d) == (a + d) - (b + c)`.
proof fn lemma_cross_difference<T: Real>(a: T, b: T, c: T, d: T)
    requires
        exact_ring::<T>(),
    ensures
        a.minus(b).minus(c.minus(d)) == a.plus(d).minus(b.plus(c)),
{
    let l = a.minus(b).minus(c.minus(d));
    // l + (b + c) == a + d
    lemma_plus_comm(b, c);
    lemma_plus_assoc(l, c, b);
    lemma_minus_plus(c, d);
    lemma_plus_assoc(l, c.minus(d), d);
    lemma_minus_plus(a.minus(b), c.minus(d));
    lemma_plus_swap(a.minus(b), d, b);
    lemma_minus_plus(a, b);
    lemma_minus_plus(l, b.plus(c));
}

/// Rotations keep inner products.
proof fn lemma_turned_inner<T: Real>(
    n: int,
    c: T,
    s: T,
    i: int,
    j: int,
    f: spec_fn(int) -> T,
    g: spec_fn(int) -> T,
)
    requires
        exact_ring::<T>(),
        0 <= i < n,
        0 <= j < n,
        i != j,
        c.times(c).plus(s.times(s)) == T::one_val(),
    ensures
        sum(n, dots(turned(c, s, i, j, f), turned(c, s, i, j, g))) == sum(n, dots(f, g)),
{
    let (before, after) = (
        dots(f, g),
        dots(turned(c, s, i, j, f), turned(c, s, i, j, g)),
    );
    lemma_sum_split(n, i, j, before);
    lemma_sum_split(n, i, j, after);
    lemma_sum_ext(n, others(before, i, j), others(after, i, j));
    lemma_turned_pair(c, s, f(i), f(j), g(i), g(j));
}

// ── matrices under rotation ─────────────────────────────────────────────────

/// The matrix stored column by column.
pub open spec fn stored<T>(v: Seq<T>, p: int) -> spec_fn(int, int) -> T {
    |r: int, k: int| v[r + k * p]
}

/// The symmetric matrix with diagonal `d` and the entries of `w` above it.
pub open spec fn symmetric<T>(w: Seq<T>, d: Seq<T>, p: int) -> spec_fn(int, int) -> T {
    |k: int, l: int|
        if k == l {
            d[k]
        } else {
            upper(w, p, k, l)
        }
}

/// Row `r` of a matrix.
pub open spec fn row_of<T>(v: spec_fn(int, int) -> T, r: int) -> spec_fn(int) -> T {
    |k: int| v(r, k)
}

/// Column `l` of a matrix.
pub open spec fn column_of<T>(v: spec_fn(int, int) -> T, l: int) -> spec_fn(int) -> T {
    |k: int| v(k, l)
}

/// The row `a` times a matrix.
pub open spec fn row_times<T: Real>(
    n: int,
    a: spec_fn(int) -> T,
    m: spec_fn(int, int) -> T,
) -> spec_fn(int) -> T {
    |l: int| sum(n, dots(a, column_of(m, l)))
}

/// The row `a` times a matrix times the column `b`.
pub open spec fn between<T: Real>(
    n: int,
    a: spec_fn(int) -> T,
    m: spec_fn(int, int) -> T,
    b: spec_fn(int) -> T,
) -> T {
    sum(n, dots(row_times(n, a, m), b))
}

/// A matrix with rotated rows.
pub open spec fn turned_rows<T: Real>(
    c: T,
    s: T,
    i: int,
    j: int,
    m: spec_fn(int, int) -> T,
) -> spec_fn(int, int) -> T {
    |k: int, l: int| turned(c, s, i, j, row_of(m, k))(l)
}

/// A matrix with rotated rows and columns.
pub open spec fn turned_both<T: Real>(
    c: T,
    s: T,
    i: int,
    j: int,
    m: spec_fn(int, int) -> T,
) -> spec_fn(int, int) -> T {
    |k: int, l: int| turned(c, s, i, j, column_of(turned_rows(c, s, i, j, m), l))(k)
}

/// Combinations move out of an inner product.
proof fn lemma_dots_linear<T: Real>(
    n: int,
    c: T,
    s: T,
    a: spec_fn(int) -> T,
    f: spec_fn(int) -> T,
    g: spec_fn(int) -> T,
)
    requires
        exact_ring::<T>(),
    ensures
        sum(n, dots(a, |k: int| turned_first(c, s, f(k), g(k)))) == turned_first(
            c,
            s,
            sum(n, dots(a, f)),
            sum(n, dots(a, g)),
        ),
        sum(n, dots(a, |k: int| turned_second(c, s, f(k), g(k)))) == turned_second(
            c,
            s,
            sum(n, dots(a, f)),
            sum(n, dots(a, g)),
        ),
{
    let (x, y) = (dots(a, f), dots(a, g));
    let (u, v) = (|k: int| c.times(x(k)), |k: int| s.negated().times(y(k)));
    let first = dots(a, |k: int| turned_first(c, s, f(k), g(k)));
    assert forall|k: int| 0 <= k < n implies #[trigger] first(k) == u(k).plus(v(k)) by {
        let (cf, sg) = (c.times(f(k)), s.times(g(k)));
        lemma_distribute_minus(a(k), cf, sg);
        lemma_minus(a(k).times(cf), a(k).times(sg));
        lemma_times_assoc(a(k), c, f(k));
        lemma_times_comm(a(k), c);
        lemma_times_assoc(c, a(k), f(k));
        lemma_times_assoc(a(k), s, g(k));
        lemma_times_comm(a(k), s);
        lemma_times_assoc(s, a(k), g(k));
        lemma_times_negated(s, y(k));
    }
    lemma_sum_plus(n, u, v, first);
    lemma_sum_scale(n, c, x, u);
    lemma_sum_scale(n, s.negated(), y, v);
    lemma_times_negated(s, sum(n, y));
    lemma_minus(c.times(sum(n, x)), s.times(sum(n, y)));
    let (q, r) = (|k: int| s.times(x(k)), |k: int| c.times(y(k)));
    let second = dots(a, |k: int| turned_second(c, s, f(k), g(k)));
    assert forall|k: int| 0 <= k < n implies #[trigger] second(k) == q(k).plus(r(k)) by {
        let (sf, cg) = (s.times(f(k)), c.times(g(k)));
        lemma_distribute(a(k), sf, cg);
        lemma_times_assoc(a(k), s, f(k));
        lemma_times_comm(a(k), s);
        lemma_times_assoc(s, a(k), f(k));
        lemma_times_assoc(a(k), c, g(k));
        lemma_times_comm(a(k), c);
        lemma_times_assoc(c, a(k), g(k));
    }
    lemma_sum_plus(n, q, r, second);
    lemma_sum_scale(n, s, x, q);
    lemma_sum_scale(n, c, y, r);
}

/// Rotating the matrix and both vectors leaves the product as it was.
proof fn lemma_turned_between<T: Real>(
    n: int,
    c: T,
    s: T,
    i: int,
    j: int,
    a: spec_fn(int) -> T,
    m: spec_fn(int, int) -> T,
    b: spec_fn(int) -> T,
)
    requires
        exact_ring::<T>(),
        0 <= i < n,
        0 <= j < n,
        i != j,
        c.times(c).plus(s.times(s)) == T::one_val(),
    ensures
        between(
            n,
            turned(c, s, i, j, a),
            turned_both(c, s, i, j, m),
            turned(c, s, i, j, b),
        ) == between(n, a, m, b),
{
    let (ta, tb) = (turned(c, s, i, j, a), turned(c, s, i, j, b));
    let h = turned_rows(c, s, i, j, m);
    let z = row_times(n, a, m);
    let (f, g) = (
        dots(row_times(n, ta, turned_both(c, s, i, j, m)), tb),
        dots(turned(c, s, i, j, z), tb),
    );
    assert forall|l: int| 0 <= l < n implies #[trigger] f(l) == g(l) by {
        let col = column_of(h, l);
        lemma_turned_inner(n, c, s, i, j, a, col);
        lemma_sum_ext(
            n,
            dots(ta, column_of(turned_both(c, s, i, j, m), l)),
            dots(ta, turned(c, s, i, j, col)),
        );
        lemma_dots_linear(n, c, s, a, column_of(m, i), column_of(m, j));
        if l == i {
            lemma_sum_ext(
                n,
                dots(a, col),
                dots(a, |k: int| turned_first(c, s, column_of(m, i)(k), column_of(m, j)(k))),
            );
        } else if l == j {
            lemma_sum_ext(
                n,
                dots(a, col),
                dots(a, |k: int| turned_second(c, s, column_of(m, i)(k), column_of(m, j)(k))),
            );
        } else {
            lemma_sum_ext(n, dots(a, col), dots(a, column_of(m, l)));
        }
    }
    lemma_sum_ext(n, f, g);
    lemma_turned_inner(n, c, s, i, j, z, b);
}

/// What is kept while a symmetric matrix `a` is rotated: the rotations multiply up to a matrix with
/// orthonormal rows and columns, and turning back gives `a`.
pub open spec fn similar<T: Real>(m: Rotated<T>, p: int, a: spec_fn(int, int) -> T) -> bool {
    let v = stored(m.v, p);
    &&& m.shaped(p)
    &&& forall|r: int, q: int|
        0 <= r < p && 0 <= q < p ==> #[trigger] between(
            p,
            row_of(v, r),
            symmetric(m.w, m.d, p),
            row_of(v, q),
        ) == a(r, q)
    &&& forall|r: int, q: int|
        0 <= r < p && 0 <= q < p ==> #[trigger] sum(p, dots(row_of(v, r), row_of(v, q))) == delta::<
            T,
        >(r, q)
    &&& forall|k: int, l: int|
        0 <= k < p && 0 <= l < p ==> #[trigger] sum(p, dots(column_of(v, k), column_of(v, l)))
            == delta::<T>(k, l)
}

/// Positions in a matrix.
proof fn lemma_cell(r: int, k: int, p: int)
    requires
        0 <= r < p,
        0 <= k < p,
    ensures
        0 <= r + k * p < p * p,
        (r + k * p) % p == r,
        (r + k * p) / p == k,
{
    lemma_flat(k, p, r, p);
}

/// The rotated matrix, entry by entry.
proof fn lemma_rotated_symmetric<T: Real>(m: Rotated<T>, p: int, i: int, j: int, k: int, l: int)
    requires
        exact_field::<T>(),
        exact_integers::<T>(),
        exact_roots::<T>(),
        m.shaped(p),
        0 <= i < j < p,
        m.w[i + j * p] != T::zero_val(),
        0 <= k < p,
        0 <= l < p,
    ensures
        ({
            let n = rotate(m, p, i, j);
            let c = cosine_of(tangent(m, p, i, j));
            let s = tangent(m, p, i, j).times(c);
            symmetric(n.w, n.d, p)(k, l) == turned_both(c, s, i, j, symmetric(m.w, m.d, p))(k, l)
        }),
{
    let t = tangent(m, p, i, j);
    let c = cosine_of(t);
    let s = t.times(c);
    let n = rotate(m, p, i, j);
    let big = symmetric(m.w, m.d, p);
    let h = turned_rows(c, s, i, j, big);
    let x = m.w[i + j * p];
    lemma_over(T::one_val(), T::one_val());
    lemma_unit(t);
    let kk = lemma_tangent(m, p, i, j);
    lemma_rotated_pair(m.d[i], x, kk, t, c);
    lemma_cell(k, l, p);
    lemma_cell(l, k, p);
    assert(big(i, j) == x && big(j, i) == x);
    assert(big(i, i) == m.d[i] && big(j, j) == m.d[j]);
    assert(h(i, i) == turned_first(c, s, m.d[i], x));
    assert(h(i, j) == turned_second(c, s, m.d[i], x));
    assert(h(j, i) == turned_first(c, s, x, m.d[j]));
    assert(h(j, j) == turned_second(c, s, x, m.d[j]));
    if k != l {
        let (lo, hi) = if k < l {
            (k, l)
        } else {
            (l, k)
        };
        assert(upper(n.w, p, k, l) == rotated_entry(m.w, p, i, j, c, s, lo, hi));
    }
}

/// One rotation keeps what is kept.
proof fn lemma_rotate_similar<T: Real>(
    m: Rotated<T>,
    p: int,
    i: int,
    j: int,
    a: spec_fn(int, int) -> T,
)
    requires
        exact_field::<T>(),
        exact_integers::<T>(),
        exact_roots::<T>(),
        0 <= i < j < p,
        m.w[i + j * p] != T::zero_val(),
        similar(m, p, a),
    ensures
        similar(rotate(m, p, i, j), p, a),
{
    let t = tangent(m, p, i, j);
    let c = cosine_of(t);
    let s = t.times(c);
    let n = rotate(m, p, i, j);
    lemma_over(T::one_val(), T::one_val());
    lemma_unit(t);
    let (v, w) = (stored(m.v, p), stored(n.v, p));
    let (old_matrix, new_matrix) = (symmetric(m.w, m.d, p), symmetric(n.w, n.d, p));
    let both = turned_both(c, s, i, j, old_matrix);
    assert forall|r: int, k: int| 0 <= r < p && 0 <= k < p implies #[trigger] w(r, k) == turned(
        c,
        s,
        i,
        j,
        row_of(v, r),
    )(k) by {
        lemma_cell(r, k, p);
    }
    assert forall|r: int, q: int| 0 <= r < p && 0 <= q < p implies #[trigger] between(
        p,
        row_of(w, r),
        new_matrix,
        row_of(w, q),
    ) == a(r, q) by {
        let (x, y) = (turned(c, s, i, j, row_of(v, r)), turned(c, s, i, j, row_of(v, q)));
        let (f, g) = (
            dots(row_times(p, row_of(w, r), new_matrix), row_of(w, q)),
            dots(row_times(p, x, both), y),
        );
        assert forall|l: int| 0 <= l < p implies #[trigger] f(l) == g(l) by {
            let (d, e) = (
                dots(row_of(w, r), column_of(new_matrix, l)),
                dots(x, column_of(both, l)),
            );
            assert forall|k: int| 0 <= k < p implies #[trigger] d(k) == e(k) by {
                lemma_rotated_symmetric(m, p, i, j, k, l);
                assert(w(r, k) == x(k));
            }
            lemma_sum_ext(p, d, e);
            assert(w(q, l) == y(l));
        }
        lemma_sum_ext(p, f, g);
        lemma_turned_between(p, c, s, i, j, row_of(v, r), old_matrix, row_of(v, q));
        assert(between(p, row_of(v, r), old_matrix, row_of(v, q)) == a(r, q));
    }
    assert forall|r: int, q: int| 0 <= r < p && 0 <= q < p implies #[trigger] sum(
        p,
        dots(row_of(w, r), row_of(w, q)),
    ) == delta::<T>(r, q) by {
        let (f, g) = (
            dots(row_of(w, r), row_of(w, q)),
            dots(turned(c, s, i, j, row_of(v, r)), turned(c, s, i, j, row_of(v, q))),
        );
        assert forall|k: int| 0 <= k < p implies #[trigger] f(k) == g(k) by {
            assert(w(r, k) == turned(c, s, i, j, row_of(v, r))(k));
            assert(w(q, k) == turned(c, s, i, j, row_of(v, q))(k));
        }
        lemma_sum_ext(p, f, g);
        lemma_turned_inner(p, c, s, i, j, row_of(v, r), row_of(v, q));
        assert(sum(p, dots(row_of(v, r), row_of(v, q))) == delta::<T>(r, q));
    }
    assert forall|k: int, l: int| 0 <= k < p && 0 <= l < p implies #[trigger] sum(
        p,
        dots(column_of(w, k), column_of(w, l)),
    ) == delta::<T>(k, l) by {
        lemma_turned_columns(p, c, s, i, j, v, w, k, l);
    }
}

/// The rotated columns stay orthonormal.
proof fn lemma_turned_columns<T: Real>(
    p: int,
    c: T,
    s: T,
    i: int,
    j: int,
    v: spec_fn(int, int) -> T,
    w: spec_fn(int, int) -> T,
    k: int,
    l: int,
)
    requires
        exact_ring::<T>(),
        0 <= i < p,
        0 <= j < p,
        i != j,
        0 <= k < p,
        0 <= l < p,
        c.times(c).plus(s.times(s)) == T::one_val(),
        forall|r: int, k: int|
            0 <= r < p && 0 <= k < p ==> #[trigger] w(r, k) == turned(c, s, i, j, row_of(v, r))(k),
        forall|k: int, l: int|
            0 <= k < p && 0 <= l < p ==> #[trigger] sum(p, dots(column_of(v, k), column_of(v, l)))
                == delta::<T>(k, l),
    ensures
        sum(p, dots(column_of(w, k), column_of(w, l))) == delta::<T>(k, l),
{
    // inner products of a column of w with the columns of v
    lemma_against_columns(p, c, s, i, j, v, w, l, i);
    lemma_against_columns(p, c, s, i, j, v, w, l, j);
    lemma_against_columns(p, c, s, i, j, v, w, l, k);
    let b = column_of(w, l);
    let (vi, vj) = (column_of(v, i), column_of(v, j));
    lemma_dots_linear(p, c, s, b, vi, vj);
    lemma_dots_comm(p, column_of(w, k), b);
    if k == i {
        lemma_sum_ext(
            p,
            dots(b, column_of(w, k)),
            dots(b, |r: int| turned_first(c, s, vi(r), vj(r))),
        );
    } else if k == j {
        lemma_sum_ext(
            p,
            dots(b, column_of(w, k)),
            dots(b, |r: int| turned_second(c, s, vi(r), vj(r))),
        );
    } else {
        lemma_sum_ext(p, dots(b, column_of(w, k)), dots(b, column_of(v, k)));
    }
    let (zero, one) = (T::zero_val(), T::one_val());
    lemma_times_zero(c);
    lemma_times_zero(s);
    lemma_minus_self(zero);
    lemma_plus_zero(zero);
    lemma_times_negated(s, s);
    lemma_negated_twice(s.times(s));
    lemma_minus(c.times(c), s.times(s.negated()));
    lemma_plus_comm(c.times(c), s.times(s));
    lemma_times_comm(c, s);
    lemma_minus_self(c.times(s));
    lemma_times_negated(c, s);
    lemma_negated(c.times(s));
}

/// The inner product of column `l` of the rotated matrix with column `k` of the matrix before.
proof fn lemma_against_columns<T: Real>(
    p: int,
    c: T,
    s: T,
    i: int,
    j: int,
    v: spec_fn(int, int) -> T,
    w: spec_fn(int, int) -> T,
    l: int,
    k: int,
)
    requires
        exact_ring::<T>(),
        0 <= i < p,
        0 <= j < p,
        i != j,
        0 <= k < p,
        0 <= l < p,
        forall|r: int, k: int|
            0 <= r < p && 0 <= k < p ==> #[trigger] w(r, k) == turned(c, s, i, j, row_of(v, r))(k),
        forall|k: int, l: int|
            0 <= k < p && 0 <= l < p ==> #[trigger] sum(p, dots(column_of(v, k), column_of(v, l)))
                == delta::<T>(k, l),
    ensures
        sum(p, dots(column_of(w, l), column_of(v, k))) == if l == i {
            if k == i {
                c
            } else if k == j {
                s.negated()
            } else {
                T::zero_val()
            }
        } else if l == j {
            if k == i {
                s
            } else if k == j {
                c
            } else {
                T::zero_val()
            }
        } else {
            delta::<T>(k, l)
        },
{
    let a = column_of(v, k);
    let (vi, vj) = (column_of(v, i), column_of(v, j));
    lemma_dots_comm(p, column_of(w, l), a);
    lemma_dots_linear(p, c, s, a, vi, vj);
    assert(sum(p, dots(a, vi)) == delta::<T>(k, i));
    assert(sum(p, dots(a, vj)) == delta::<T>(k, j));
    if l == i {
        lemma_sum_ext(
            p,
            dots(a, column_of(w, l)),
            dots(a, |r: int| turned_first(c, s, vi(r), vj(r))),
        );
    } else if l == j {
        lemma_sum_ext(
            p,
            dots(a, column_of(w, l)),
            dots(a, |r: int| turned_second(c, s, vi(r), vj(r))),
        );
    } else {
        lemma_sum_ext(p, dots(a, column_of(w, l)), dots(a, column_of(v, l)));
        assert(sum(p, dots(a, column_of(v, l))) == delta::<T>(k, l));
    }
    let zero = T::zero_val();
    lemma_times_zero(c);
    lemma_times_zero(s);
    lemma_times_one(c);
    lemma_times_one(s);
    lemma_minus(c, zero);
    lemma_minus(zero, s);
    lemma_minus_self(zero);
    lemma_plus_zero(zero);
    lemma_plus_zero(c);
    lemma_plus_zero(s);
    lemma_plus_zero(s.negated());
    lemma_minus(zero, zero);
    lemma_minus_plus(c, zero);
    lemma_plus_zero(c.minus(zero));
}

/// The order of an inner product does not matter.
proof fn lemma_dots_comm<T: Real>(n: int, f: spec_fn(int) -> T, g: spec_fn(int) -> T)
    requires
        exact_ring::<T>(),
    ensures
        sum(n, dots(f, g)) == sum(n, dots(g, f)),
{
    let (a, b) = (dots(f, g), dots(g, f));
    assert forall|k: int| 0 <= k < n implies #[trigger] a(k) == b(k) by {
        lemma_times_comm(f(k), g(k));
    }
    lemma_sum_ext(n, a, b);
}

// ── sweeps ──────────────────────────────────────────────────────────────────

/// Zero counts as zero, in a matrix of any size.
#[verifier::opaque]
pub open spec fn zero_is_negligible<T: Real>() -> bool {
    forall|d: Seq<T>, p: int, i: int, j: int|
        0 <= p ==> T::zero_val().magnitude().at_most(#[trigger] rotation_tolerance(d, p, i, j))
}

/// Arithmetic in which the solver does what it is meant to do.
pub open spec fn exact_solver<T: Real>() -> bool {
    &&& exact_field::<T>()
    &&& exact_integers::<T>()
    &&& exact_roots::<T>()
    &&& zero_is_negligible::<T>()
}

proof fn lemma_visited_similar<T: Real>(
    m: Rotated<T>,
    p: int,
    i: int,
    j: int,
    a: spec_fn(int, int) -> T,
)
    requires
        exact_solver::<T>(),
        0 <= i < j < p,
        similar(m, p, a),
    ensures
        similar(visited(m, p, i, j), p, a),
{
    reveal(zero_is_negligible);
    if !negligible(m, p, i, j) {
        assert(T::zero_val().magnitude().at_most(rotation_tolerance(m.d, p, i, j)));
        lemma_rotate_similar(m, p, i, j, a);
    }
}

proof fn lemma_row_similar<T: Real>(
    m: Rotated<T>,
    p: int,
    i: int,
    j: int,
    a: spec_fn(int, int) -> T,
)
    requires
        exact_solver::<T>(),
        0 <= i < j,
        i < p,
        similar(m, p, a),
    ensures
        similar(row_visited(m, p, i, j), p, a),
    decreases p - j,
{
    if j < p {
        lemma_visited_similar(m, p, i, j, a);
        lemma_row_similar(visited(m, p, i, j), p, i, j + 1, a);
    }
}

proof fn lemma_swept_similar<T: Real>(m: Rotated<T>, p: int, i: int, a: spec_fn(int, int) -> T)
    requires
        exact_solver::<T>(),
        0 <= i,
        similar(m, p, a),
    ensures
        similar(swept(m, p, i), p, a),
    decreases p - i,
{
    if i < p {
        lemma_row_similar(m, p, i, i + 1, a);
        lemma_swept_similar(row_visited(m, p, i, i + 1), p, i + 1, a);
    }
}

proof fn lemma_diagonalized_similar<T: Real>(
    m: Rotated<T>,
    p: int,
    sweeps: int,
    a: spec_fn(int, int) -> T,
)
    requires
        exact_solver::<T>(),
        similar(m, p, a),
    ensures
        similar(diagonalized(m, p, sweeps), p, a),
    decreases sweeps,
{
    if sweeps > 0 && !quiet(m, p, 0) {
        lemma_swept_similar(m, p, 0, a);
        lemma_diagonalized_similar(swept(m, p, 0), p, sweeps - 1, a);
    }
}

/// The symmetric matrix that is read from `a`: its entries on and above the diagonal.
pub open spec fn read_from<T>(a: Seq<T>, p: int) -> spec_fn(int, int) -> T {
    symmetric(a, Seq::new(p as nat, |i: int| a[i + i * p]), p)
}

proof fn lemma_unrotated_similar<T: Real>(a: Seq<T>, p: int)
    requires
        exact_ring::<T>(),
        0 <= p,
        a.len() == p * p,
    ensures
        similar(unrotated(a, p), p, read_from(a, p)),
{
    let m = unrotated(a, p);
    let v = stored(m.v, p);
    let big = symmetric(m.w, m.d, p);
    lemma_mul_le(0, p, 0, p);
    assert forall|r: int, k: int| 0 <= r < p && 0 <= k < p implies #[trigger] v(r, k) == delta::<T>(
        r,
        k,
    ) by {
        lemma_cell(r, k, p);
    }
    assert forall|r: int, q: int| 0 <= r < p && 0 <= q < p implies #[trigger] between(
        p,
        row_of(v, r),
        big,
        row_of(v, q),
    ) == read_from(a, p)(r, q) by {
        let f = row_times(p, row_of(v, r), big);
        assert forall|l: int| 0 <= l < p implies #[trigger] f(l) == big(r, l) by {
            let g = dots(row_of(v, r), column_of(big, l));
            assert forall|k: int| 0 <= k < p && k != r implies #[trigger] g(k) == T::zero_val() by {
                assert(v(r, k) == delta::<T>(r, k));
                lemma_times_zero(big(k, l));
            }
            lemma_sum_single(p, r, g);
            assert(v(r, r) == delta::<T>(r, r));
            lemma_times_one(big(r, l));
        }
        let h = dots(f, row_of(v, q));
        assert forall|l: int| 0 <= l < p && l != q implies #[trigger] h(l) == T::zero_val() by {
            assert(v(q, l) == delta::<T>(q, l));
            lemma_times_zero(f(l));
        }
        lemma_sum_single(p, q, h);
        assert(v(q, q) == delta::<T>(q, q));
        lemma_times_one(f(q));
    }
    assert forall|r: int, q: int| 0 <= r < p && 0 <= q < p implies #[trigger] sum(
        p,
        dots(row_of(v, r), row_of(v, q)),
    ) == delta::<T>(r, q) by {
        let g = dots(row_of(v, r), row_of(v, q));
        assert forall|k: int| 0 <= k < p && k != r implies #[trigger] g(k) == T::zero_val() by {
            assert(v(r, k) == delta::<T>(r, k));
            lemma_times_zero(v(q, k));
        }
        lemma_sum_single(p, r, g);
        assert(v(r, r) == delta::<T>(r, r));
        assert(v(q, r) == delta::<T>(q, r));
        lemma_times_one(v(q, r));
    }
    assert forall|k: int, l: int| 0 <= k < p && 0 <= l < p implies #[trigger] sum(
        p,
        dots(column_of(v, k), column_of(v, l)),
    ) == delta::<T>(k, l) by {
        let g = dots(column_of(v, k), column_of(v, l));
        assert forall|r: int| 0 <= r < p && r != k implies #[trigger] g(r) == T::zero_val() by {
            assert(v(r, k) == delta::<T>(r, k));
            lemma_times_zero(v(r, l));
        }
        lemma_sum_single(p, k, g);
        assert(v(k, k) == delta::<T>(k, k));
        assert(v(k, l) == delta::<T>(k, l));
        lemma_times_one(v(k, l));
    }
}

/// However many sweeps are made, the rotations multiply up to a matrix with orthonormal rows and
/// columns, and turning the rotated matrix back gives the matrix that was read.
pub proof fn law_rotations_keep_the_matrix<T: Real>(a: Seq<T>, p: int, sweeps: int)
    requires
        exact_solver::<T>(),
        0 <= p,
        a.len() == p * p,
    ensures
        similar(diagonalized(unrotated(a, p), p, sweeps), p, read_from(a, p)),
{
    lemma_over(T::one_val(), T::one_val());
    lemma_unrotated_similar(a, p);
    lemma_diagonalized_similar(unrotated(a, p), p, sweeps, read_from(a, p));
}

// ── eigenpairs ──────────────────────────────────────────────────────────────

/// No entry is left above the diagonal. One rotation clears a matrix of size two; a larger one is
/// rarely cleared in finitely many sweeps, and what then holds is
/// [`law_rotations_keep_the_matrix`].
pub open spec fn cleared<T: Real>(m: Rotated<T>, p: int) -> bool {
    forall|k: int, l: int|
        0 <= k < l < p ==> #[trigger] upper(m.w, p, k, l) == T::zero_val()
}

/// Sums do not depend on the order.
proof fn lemma_sum_ascending<T: Real>(keys: Seq<T>, n: int, f: spec_fn(int) -> T)
    requires
        exact_ring::<T>(),
        0 <= n,
    ensures
        sum(n, |k: int| f(ascending(keys, n)[k])) == sum(n, f),
    decreases n,
{
    let h = |k: int| f(ascending(keys, n)[k]);
    if n > 0 {
        lemma_sum_ascending(keys, n - 1, f);
        let before = ascending(keys, n - 1);
        lemma_ascending(keys, n - 1);
        let at = place(keys, before, n - 1, n - 1);
        lemma_place_range(keys, before, n - 1, n - 1);
        let g = |k: int| f(before[k]);
        lemma_sum_inserted(n - 1, at, f(n - 1), g, h);
    }
}

proof fn lemma_place_range<T: Real>(keys: Seq<T>, order: Seq<int>, x: int, k: int)
    requires
        0 <= k,
    ensures
        0 <= place(keys, order, x, k) <= k,
    decreases k,
{
    if k > 0 {
        lemma_place_range(keys, order, x, k - 1);
    }
}

/// The terms `v(r, k) λ(k) v(q, k)`.
pub open spec fn eigen_terms<T: Real>(
    v: spec_fn(int, int) -> T,
    lambda: Seq<T>,
    r: int,
    q: int,
) -> spec_fn(int) -> T {
    |k: int| v(r, k).times(lambda[k].times(v(q, k)))
}

/// The eigenvectors are orthonormal, by columns and by rows.
pub proof fn law_eigenvectors_are_orthonormal<T: Real>(a: Seq<T>, p: int, sweeps: int)
    requires
        exact_solver::<T>(),
        0 <= p,
        a.len() == p * p,
    ensures
        orthonormal_columns(stored(eigenvectors(a, p, sweeps), p), p),
        orthonormal_columns(
            |k: int, r: int| stored(eigenvectors(a, p, sweeps), p)(r, k),
            p,
        ),
{
    lemma_over(T::one_val(), T::one_val());
    law_rotations_keep_the_matrix(a, p, sweeps);
    let m = diagonalized(unrotated(a, p), p, sweeps);
    let (old_v, v) = (stored(m.v, p), stored(eigenvectors(a, p, sweeps), p));
    let order = ascending(m.d, p);
    lemma_ascending(m.d, p);
    lemma_eigenvector_entries(a, p, sweeps);
    assert forall|k: int, l: int| 0 <= k < p && 0 <= l < p implies #[trigger] sum(
        p,
        column_products(v, k, l),
    ) == delta::<T>(k, l) by {
        let (x, y) = (order[k], order[l]);
        let (f, g) = (
            column_products(v, k, l),
            dots(column_of(old_v, x), column_of(old_v, y)),
        );
        assert forall|r: int| 0 <= r < p implies #[trigger] f(r) == g(r) by {
            assert(v(r, k) == old_v(r, x));
            assert(v(r, l) == old_v(r, y));
        }
        lemma_sum_ext(p, f, g);
        assert(sum(p, g) == delta::<T>(x, y));
        law_ascending_is_permutation(m.d, p, x);
        assert(x == y ==> k == l);
    }
    let back = |k: int, r: int| v(r, k);
    assert forall|r: int, q: int| 0 <= r < p && 0 <= q < p implies #[trigger] sum(
        p,
        column_products(back, r, q),
    ) == delta::<T>(r, q) by {
        let (f, g) = (column_products(back, r, q), dots(row_of(old_v, r), row_of(old_v, q)));
        let h = |k: int| g(order[k]);
        assert forall|k: int| 0 <= k < p implies #[trigger] f(k) == h(k) by {
            assert(v(r, k) == old_v(r, order[k]));
            assert(v(q, k) == old_v(q, order[k]));
        }
        lemma_sum_ext(p, f, h);
        lemma_sum_ascending(m.d, p, g);
        assert(sum(p, g) == delta::<T>(r, q));
    }
}

proof fn lemma_eigenvector_entries<T: Real>(a: Seq<T>, p: int, sweeps: int)
    requires
        0 <= p,
    ensures
        ({
            let m = diagonalized(unrotated(a, p), p, sweeps);
            let (old_v, v) = (stored(m.v, p), stored(eigenvectors(a, p, sweeps), p));
            forall|r: int, k: int|
                0 <= r < p && 0 <= k < p ==> #[trigger] v(r, k) == old_v(
                    r,
                    ascending(m.d, p)[k],
                )
        }),
{
    let m = diagonalized(unrotated(a, p), p, sweeps);
    let (old_v, v) = (stored(m.v, p), stored(eigenvectors(a, p, sweeps), p));
    assert forall|r: int, k: int| 0 <= r < p && 0 <= k < p implies #[trigger] v(r, k) == old_v(
        r,
        ascending(m.d, p)[k],
    ) by {
        lemma_cell(r, k, p);
    }
}

/// Once the rotations have [`cleared`] the matrix, which is rare for size three or more, the
/// eigenvectors and eigenvalues decompose the matrix that was read.
pub proof fn law_eigenpairs_decompose<T: Real>(a: Seq<T>, p: int, sweeps: int, r: int, q: int)
    requires
        exact_solver::<T>(),
        0 <= r < p,
        0 <= q < p,
        a.len() == p * p,
        cleared(diagonalized(unrotated(a, p), p, sweeps), p),
    ensures
        sum(
            p,
            eigen_terms(
                stored(eigenvectors(a, p, sweeps), p),
                eigenvalues(a, p, sweeps),
                r,
                q,
            ),
        ) == read_from(a, p)(r, q),
{
    lemma_over(T::one_val(), T::one_val());
    law_rotations_keep_the_matrix(a, p, sweeps);
    let m = diagonalized(unrotated(a, p), p, sweeps);
    let (old_v, v) = (stored(m.v, p), stored(eigenvectors(a, p, sweeps), p));
    let order = ascending(m.d, p);
    lemma_ascending(m.d, p);
    lemma_eigenvector_entries(a, p, sweeps);
    let big = symmetric(m.w, m.d, p);
    // only the diagonal is left
    let f = row_times(p, row_of(old_v, r), big);
    assert forall|l: int| 0 <= l < p implies #[trigger] f(l) == old_v(r, l).times(m.d[l]) by {
        let g = dots(row_of(old_v, r), column_of(big, l));
        assert forall|k: int| 0 <= k < p && k != l implies #[trigger] g(k) == T::zero_val() by {
            if k < l {
                assert(upper(m.w, p, k, l) == T::zero_val());
            } else {
                assert(upper(m.w, p, l, k) == T::zero_val());
            }
            lemma_times_zero(old_v(r, k));
        }
        lemma_sum_single(p, l, g);
    }
    let (h, e) = (dots(f, row_of(old_v, q)), eigen_terms(old_v, m.d, r, q));
    assert forall|l: int| 0 <= l < p implies #[trigger] h(l) == e(l) by {
        assert(f(l) == old_v(r, l).times(m.d[l]));
        lemma_times_assoc(old_v(r, l), m.d[l], old_v(q, l));
    }
    lemma_sum_ext(p, h, e);
    assert(between(p, row_of(old_v, r), big, row_of(old_v, q)) == read_from(a, p)(r, q));
    // in ascending order
    let (x, y) = (
        eigen_terms(v, eigenvalues(a, p, sweeps), r, q),
        |k: int| e(order[k]),
    );
    assert forall|k: int| 0 <= k < p implies #[trigger] x(k) == y(k) by {
        assert(v(r, k) == old_v(r, order[k]));
        assert(v(q, k) == old_v(q, order[k]));
    }
    lemma_sum_ext(p, x, y);
    lemma_sum_ascending(m.d, p, e);
}

} // verus!
