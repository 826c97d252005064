//! Eigenvalues of small symmetric matrices by Jacobi rotations.
//!
//! Matrices hold columns one after the other: entry `(r, c)` of a `p × p` matrix is at `r + c * p`.

use vstd::prelude::*;

#[allow(unused_imports)]
use crate::index::{lemma_flat, lemma_mul_le, lemma_split};
use crate::scalar::Real;
#[allow(unused_imports)]
use crate::scalar::sum;

verus! {

// ── weighted products of tables ─────────────────────────────────────────────

/// Weighted products of columns `i` and `j` of a table with `p` columns.
pub open spec fn gram_terms<T: Real>(b: Seq<T>, w: Seq<T>, p: int, i: int, j: int) -> spec_fn(
    int,
) -> T {
    |k: int| w[k].times(b[k * p + i]).times(b[k * p + j])
}

/// The matrix of weighted products of the columns of a table with `q` rows and `p` columns. On a
/// table of values it is the mass matrix, on a table of derivatives the stiffness matrix.
pub open spec fn gram<T: Real>(b: Seq<T>, w: Seq<T>, p: int, q: int) -> Seq<T> {
    Seq::new((p * p) as nat, |x: int| sum(q, gram_terms(b, w, p, x % p, x / p)))
}

/// Computes [`gram`].
pub fn gram_of<T: Real>(b: &[T], w: &[T], p: usize, q: usize) -> (m: Vec<T>)
    requires
        p * p <= usize::MAX,
        q * p <= b@.len(),
        q <= w@.len(),
    ensures
        m@ == gram(b@, w@, p as int, q as int),
{
    assert(b@.len() == b.len());
    let mut m: Vec<T> = Vec::new();
    for x in 0..p * p
        invariant
            p * p <= usize::MAX,
            q * p <= b@.len() <= usize::MAX,
            q <= w@.len(),
            m@.len() == x,
            forall|k: int| 0 <= k < x ==> #[trigger] m@[k] == gram(b@, w@, p as int, q as int)[k],
    {
        proof {
            lemma_split(x as int, p as int, p as int);
        }
        let i: usize = x % p;
        let j: usize = x / p;
        let mut s = T::zero();
        for k in 0..q
            invariant
                i < p,
                j < p,
                q * p <= b@.len() <= usize::MAX,
                q <= w@.len(),
                s == sum(k as int, gram_terms(b@, w@, p as int, i as int, j as int)),
        {
            proof {
                lemma_flat(k as int, q as int, i as int, p as int);
                lemma_flat(k as int, q as int, j as int, p as int);
                lemma_mul_le(k as int, k as int, p as int, p as int);
            }
            s = s.add(w[k].mul(b[k * p + i]).mul(b[k * p + j]));
        }
        m.push(s);
    }
    assert(m@ =~= gram(b@, w@, p as int, q as int));
    m
}

// ── rotations ───────────────────────────────────────────────────────────────

/// A matrix under rotation: `w` holds the entries above the diagonal, `d` the diagonal, and `v`
/// the product of the rotations.
#[verifier::ext_equal]
pub struct Rotated<T> {
    pub w: Seq<T>,
    pub d: Seq<T>,
    pub v: Seq<T>,
}

/// The greater of two numbers; the other one if one of them is not comparable with itself.
pub open spec fn greater<T: Real>(a: T, b: T) -> T {
    if a.less(b) {
        b
    } else if a.same(a) {
        a
    } else {
        b
    }
}

fn greater_of<T: Real>(a: T, b: T) -> (r: T)
    ensures
        r == greater(a, b),
{
    if a.lt(b) {
        b
    } else if a.eq_value(a) {
        a
    } else {
        b
    }
}

/// Entries up to this size count as zero.
pub open spec fn rotation_tolerance<T: Real>(d: Seq<T>, p: int, i: int, j: int) -> T {
    T::epsilon_val().times(
        greater(greater(d[i].magnitude(), d[j].magnitude()), T::one_val()),
    ).times(T::int_val(p))
}

/// The entry of a pair of distinct indices, above the diagonal.
pub open spec fn upper<T>(w: Seq<T>, p: int, a: int, b: int) -> T {
    if a < b {
        w[a + b * p]
    } else {
        w[b + a * p]
    }
}

/// The entry of the pair counts as zero.
pub open spec fn negligible<T: Real>(m: Rotated<T>, p: int, i: int, j: int) -> bool {
    m.w[i + j * p].magnitude().at_most(rotation_tolerance(m.d, p, i, j))
}

/// Tangent of the rotation that clears the entry of a pair.
pub open spec fn tangent<T: Real>(m: Rotated<T>, p: int, i: int, j: int) -> T {
    let tau = m.d[j].minus(m.d[i]).over(T::int_val(2).times(m.w[i + j * p]));
    let root = T::one_val().plus(tau.times(tau)).root();
    if T::zero_val().at_most(tau) {
        T::one_val().over(tau.plus(root))
    } else {
        T::one_val().negated().over(tau.negated().plus(root))
    }
}

/// Cosine of a rotation with tangent `t`.
pub open spec fn cosine_of<T: Real>(t: T) -> T {
    T::one_val().over(T::one_val().plus(t.times(t)).root())
}

/// The first entry of a rotated pair.
pub open spec fn turned_first<T: Real>(c: T, s: T, a: T, b: T) -> T {
    c.times(a).minus(s.times(b))
}

/// The second entry of a rotated pair.
pub open spec fn turned_second<T: Real>(c: T, s: T, a: T, b: T) -> T {
    s.times(a).plus(c.times(b))
}

/// Entry `(r, col)` above the diagonal after a rotation in the plane of `i < j`.
pub open spec fn rotated_entry<T: Real>(
    w: Seq<T>,
    p: int,
    i: int,
    j: int,
    c: T,
    s: T,
    r: int,
    col: int,
) -> T {
    let old_value = w[r + col * p];
    if (r == i && col == j) || (r == j && col == i) {
        T::zero_val()
    } else if r >= col {
        old_value
    } else if r == i {
        turned_first(c, s, old_value, upper(w, p, j, col))
    } else if col == i {
        turned_first(c, s, old_value, upper(w, p, j, r))
    } else if r == j {
        turned_second(c, s, upper(w, p, i, col), old_value)
    } else if col == j {
        turned_second(c, s, upper(w, p, i, r), old_value)
    } else {
        old_value
    }
}

/// Entry `(r, col)` of the product of rotations after one more in the plane of `i < j`.
pub open spec fn rotated_vector<T: Real>(
    v: Seq<T>,
    p: int,
    i: int,
    j: int,
    c: T,
    s: T,
    r: int,
    col: int,
) -> T {
    if col == i {
        turned_first(c, s, v[r + i * p], v[r + j * p])
    } else if col == j {
        turned_second(c, s, v[r + i * p], v[r + j * p])
    } else {
        v[r + col * p]
    }
}

/// The matrix after the entry of the pair `i < j` has been cleared.
pub open spec fn rotate<T: Real>(m: Rotated<T>, p: int, i: int, j: int) -> Rotated<T> {
    let t = tangent(m, p, i, j);
    let c = cosine_of(t);
    let s = t.times(c);
    let x = m.w[i + j * p];
    Rotated {
        w: Seq::new(
            (p * p) as nat,
            |k: int| rotated_entry(m.w, p, i, j, c, s, k % p, k / p),
        ),
        d: Seq::new(
            p as nat,
            |k: int|
                if k == i {
                    m.d[k].minus(t.times(x))
                } else if k == j {
                    m.d[k].plus(t.times(x))
                } else {
                    m.d[k]
                },
        ),
        v: Seq::new(
            (p * p) as nat,
            |k: int| rotated_vector(m.v, p, i, j, c, s, k % p, k / p),
        ),
    }
}

/// The matrix after the pair has been dealt with: cleared, unless it counts as zero.
pub open spec fn visited<T: Real>(m: Rotated<T>, p: int, i: int, j: int) -> Rotated<T> {
    if negligible(m, p, i, j) {
        m
    } else {
        rotate(m, p, i, j)
    }
}

/// The matrix after the pairs `(i, j)`, `(i, j + 1)`, … of row `i` have been visited.
pub open spec fn row_visited<T: Real>(m: Rotated<T>, p: int, i: int, j: int) -> Rotated<T>
    decreases p - j,
{
    if j >= p {
        m
    } else {
        row_visited(visited(m, p, i, j), p, i, j + 1)
    }
}

/// Every pair of row `i` from `j` on counts as zero when it is visited.
pub open spec fn row_quiet<T: Real>(m: Rotated<T>, p: int, i: int, j: int) -> bool
    decreases p - j,
{
    j >= p || (negligible(m, p, i, j) && row_quiet(m, p, i, j + 1))
}

/// The matrix after the pairs of the rows from `i` on have been visited.
pub open spec fn swept<T: Real>(m: Rotated<T>, p: int, i: int) -> Rotated<T>
    decreases p - i,
{
    if i >= p {
        m
    } else {
        swept(row_visited(m, p, i, i + 1), p, i + 1)
    }
}

/// Every pair of the rows from `i` on counts as zero.
pub open spec fn quiet<T: Real>(m: Rotated<T>, p: int, i: int) -> bool
    decreases p - i,
{
    i >= p || (row_quiet(m, p, i, i + 1) && quiet(m, p, i + 1))
}

/// The matrix after at most `sweeps` sweeps, or fewer if nothing is left to clear.
pub open spec fn diagonalized<T: Real>(m: Rotated<T>, p: int, sweeps: int) -> Rotated<T>
    decreases sweeps,
{
    if sweeps <= 0 || quiet(m, p, 0) {
        m
    } else {
        diagonalized(swept(m, p, 0), p, sweeps - 1)
    }
}

/// The matrix before any rotation.
pub open spec fn unrotated<T: Real>(a: Seq<T>, p: int) -> Rotated<T> {
    Rotated {
        w: a,
        d: Seq::new(p as nat, |i: int| a[i + i * p]),
        v: Seq::new(
            (p * p) as nat,
            |k: int|
                if k % p == k / p {
                    T::one_val()
                } else {
                    T::zero_val()
                },
        ),
    }
}

/// The arrays of a matrix under rotation.
pub struct RotatedArrays<T> {
    pub w: Vec<T>,
    pub d: Vec<T>,
    pub v: Vec<T>,
}

impl<T> View for RotatedArrays<T> {
    type V = Rotated<T>;

    open spec fn view(&self) -> Rotated<T> {
        Rotated { w: self.w@, d: self.d@, v: self.v@ }
    }
}

impl<T> Rotated<T> {
    /// The arrays have the right lengths.
    pub open spec fn shaped(self, p: int) -> bool {
        &&& self.w.len() == p * p
        &&& self.d.len() == p
        &&& self.v.len() == p * p
    }
}

/// Positions of entries are in range.
proof fn lemma_position(r: int, c: int, p: int)
    requires
        0 <= r < p,
        0 <= c < p,
        p * p <= usize::MAX,
    ensures
        0 <= c * p <= usize::MAX,
        0 <= r + c * p < p * p,
        (r + c * p) % p == r,
        (r + c * p) / p == c,
{
    lemma_flat(c, p, r, p);
    lemma_mul_le(c, p, p, p);
}

fn upper_of<T: Real>(w: &Vec<T>, p: usize, a: usize, b: usize) -> (x: T)
    requires
        w@.len() == p * p,
        p * p <= usize::MAX,
        a < p,
        b < p,
    ensures
        x == upper(w@, p as int, a as int, b as int),
{
    proof {
        lemma_position(a as int, b as int, p as int);
        lemma_position(b as int, a as int, p as int);
    }
    if a < b {
        w[a + b * p]
    } else {
        w[b + a * p]
    }
}

fn rotated_entry_of<T: Real>(
    w: &Vec<T>,
    p: usize,
    i: usize,
    j: usize,
    c: T,
    s: T,
    r: usize,
    col: usize,
) -> (x: T)
    requires
        w@.len() == p * p,
        p * p <= usize::MAX,
        i < p,
        j < p,
        r < p,
        col < p,
    ensures
        x == rotated_entry(w@, p as int, i as int, j as int, c, s, r as int, col as int),
{
    proof {
        lemma_position(r as int, col as int, p as int);
    }
    let old_value = w[r + col * p];
    if (r == i && col == j) || (r == j && col == i) {
        T::zero()
    } else if r >= col {
        old_value
    } else if r == i {
        c.mul(old_value).sub(s.mul(upper_of(w, p, j, col)))
    } else if col == i {
        c.mul(old_value).sub(s.mul(upper_of(w, p, j, r)))
    } else if r == j {
        s.mul(upper_of(w, p, i, col)).add(c.mul(old_value))
    } else if col == j {
        s.mul(upper_of(w, p, i, r)).add(c.mul(old_value))
    } else {
        old_value
    }
}

fn rotate_of<T: Real>(m: &RotatedArrays<T>, p: usize, i: usize, j: usize) -> (out: RotatedArrays<T>)
    requires
        m@.shaped(p as int),
        p * p <= usize::MAX,
        i < j < p,
    ensures
        out@ == rotate(m@, p as int, i as int, j as int),
        out@.shaped(p as int),
{
    proof {
        lemma_position(i as int, j as int, p as int);
    }
    let x = m.w[i + j * p];
    let tau = m.d[j].sub(m.d[i]).div(T::from_int(2).mul(x));
    let root = T::one().add(tau.mul(tau)).sqrt();
    let t = if T::zero().le(tau) {
        T::one().div(tau.add(root))
    } else {
        T::one().neg().div(tau.neg().add(root))
    };
    let c = T::one().div(T::one().add(t.mul(t)).sqrt());
    let s = t.mul(c);
    let ghost goal = rotate(m@, p as int, i as int, j as int);
    let mut w: Vec<T> = Vec::new();
    let mut v: Vec<T> = Vec::new();
    for k in 0..p * p
        invariant
            m@.shaped(p as int),
            p * p <= usize::MAX,
            i < j < p,
            t == tangent(m@, p as int, i as int, j as int),
            c == cosine_of(t),
            s == t.times(c),
            goal == rotate(m@, p as int, i as int, j as int),
            w@.len() == k,
            v@.len() == k,
            forall|x: int| 0 <= x < k ==> #[trigger] w@[x] == goal.w[x],
            forall|x: int| 0 <= x < k ==> #[trigger] v@[x] == goal.v[x],
    {
        proof {
            lemma_split(k as int, p as int, p as int);
            lemma_position(k as int % p as int, k as int / p as int, p as int);
            lemma_position(k as int % p as int, i as int, p as int);
            lemma_position(k as int % p as int, j as int, p as int);
        }
        let (r, col): (usize, usize) = (k % p, k / p);
        w.push(rotated_entry_of(&m.w, p, i, j, c, s, r, col));
        let y = if col == i {
            c.mul(m.v[r + i * p]).sub(s.mul(m.v[r + j * p]))
        } else if col == j {
            s.mul(m.v[r + i * p]).add(c.mul(m.v[r + j * p]))
        } else {
            m.v[r + col * p]
        };
        v.push(y);
    }
    let mut d: Vec<T> = Vec::new();
    for k in 0..p
        invariant
            m@.shaped(p as int),
            i < j < p,
            t == tangent(m@, p as int, i as int, j as int),
            x == m@.w[i + j * p],
            goal == rotate(m@, p as int, i as int, j as int),
            d@.len() == k,
            forall|x: int| 0 <= x < k ==> #[trigger] d@[x] == goal.d[x],
    {
        if k == i {
            d.push(m.d[k].sub(t.mul(x)));
        } else if k == j {
            d.push(m.d[k].add(t.mul(x)));
        } else {
            d.push(m.d[k]);
        }
    }
    let out = RotatedArrays { w, d, v };
    assert(out@ =~= goal);
    out
}

/// Quiet rows stay as they are when they are visited.
proof fn lemma_quiet_row<T: Real>(m: Rotated<T>, p: int, i: int, j: int)
    requires
        row_quiet(m, p, i, j),
    ensures
        row_visited(m, p, i, j) == m,
    decreases p - j,
{
    if j < p {
        lemma_quiet_row(m, p, i, j + 1);
    }
}

/// Sweeps over the pairs once; tells whether nothing was left to clear.
fn sweep<T: Real>(m: RotatedArrays<T>, p: usize) -> (r: (RotatedArrays<T>, bool))
    requires
        m@.shaped(p as int),
        p * p <= usize::MAX,
        p <= i64::MAX,
    ensures
        r.0@ == swept(m@, p as int, 0),
        r.0@.shaped(p as int),
        r.1 == quiet(m@, p as int, 0),
        r.1 ==> r.0@ == m@,
{
    let ghost start = m@;
    let mut m = m;
    let mut converged = true;
    for i in 0..p
        invariant
            m@.shaped(p as int),
            p * p <= usize::MAX,
            p <= i64::MAX,
            swept(start, p as int, 0) == swept(m@, p as int, i as int),
            converged ==> m@ == start,
            quiet(start, p as int, 0) == (converged && quiet(m@, p as int, i as int)),
    {
        let ghost row_start = m@;
        let ghost row_converged = converged;
        for j in i + 1..p
            invariant
                i < p,
                m@.shaped(p as int),
                p * p <= usize::MAX,
                p <= i64::MAX,
                row_visited(row_start, p as int, i as int, i + 1) == row_visited(
                    m@,
                    p as int,
                    i as int,
                    j as int,
                ),
                converged ==> row_converged && m@ == row_start,
                row_converged ==> row_start == start,
                (row_converged && row_quiet(row_start, p as int, i as int, i + 1)) == (converged
                    && row_quiet(m@, p as int, i as int, j as int)),
        {
            proof {
                lemma_position(i as int, j as int, p as int);
            }
            let tol = T::epsilon().mul(
                greater_of(greater_of(m.d[i].abs(), m.d[j].abs()), T::one()),
            ).mul(T::from_int(p as i64));
            if !m.w[i + j * p].abs().le(tol) {
                converged = false;
                m = rotate_of(&m, p, i, j);
            }
        }
        proof {
            if converged {
                lemma_quiet_row(row_start, p as int, i as int, i + 1);
            }
        }
    }
    (m, converged)
}

// ── order ───────────────────────────────────────────────────────────────────

/// Where a key goes among the first `k` of an ordered list of keys: behind the last one that is
/// not greater.
pub open spec fn place<T: Real>(keys: Seq<T>, order: Seq<int>, x: int, k: int) -> int
    decreases k,
{
    if k <= 0 {
        0
    } else if keys[x].less(keys[order[k - 1]]) {
        place(keys, order, x, k - 1)
    } else {
        k
    }
}

/// The positions of the first `n` keys in ascending order; equal keys keep their order.
pub open spec fn ascending<T: Real>(keys: Seq<T>, n: int) -> Seq<int>
    decreases n,
{
    if n <= 0 {
        Seq::empty()
    } else {
        let before = ascending(keys, n - 1);
        before.insert(place(keys, before, n - 1, n - 1), n - 1)
    }
}

/// Positions are in range, and there are as many as keys.
pub proof fn lemma_ascending<T: Real>(keys: Seq<T>, n: int)
    requires
        0 <= n,
    ensures
        ascending(keys, n).len() == n,
        forall|k: int| 0 <= k < n ==> 0 <= #[trigger] ascending(keys, n)[k] < n,
    decreases n,
{
    if n > 0 {
        lemma_ascending(keys, n - 1);
        lemma_place(keys, ascending(keys, n - 1), n - 1, n - 1);
    }
}

proof fn lemma_place<T: Real>(keys: Seq<T>, order: Seq<int>, x: int, k: int)
    requires
        0 <= k,
    ensures
        0 <= place(keys, order, x, k) <= k,
    decreases k,
{
    if k > 0 {
        lemma_place(keys, order, x, k - 1);
    }
}

/// The order of the numbers is a weak order.
pub open spec fn ordered_numbers<T: Real>() -> bool {
    &&& forall|a: T, b: T| #[trigger] a.less(b) ==> !b.less(a)
    &&& forall|a: T, b: T, c: T|
        !(#[trigger] a.less(b)) && !(#[trigger] b.less(c)) ==> !a.less(c)
}

/// The order lists keys in ascending order.
pub proof fn law_ascending_is_sorted<T: Real>(keys: Seq<T>, n: int, a: int, b: int)
    requires
        ordered_numbers::<T>(),
        0 <= a < b < n,
    ensures
        !keys[ascending(keys, n)[b]].less(keys[ascending(keys, n)[a]]),
    decreases n,
{
    let before = ascending(keys, n - 1);
    let x = n - 1;
    let at = place(keys, before, x, n - 1);
    lemma_ascending(keys, n - 1);
    lemma_place(keys, before, x, n - 1);
    lemma_placed(keys, before, x, n - 1);
    if b < at {
        law_ascending_is_sorted(keys, n - 1, a, b);
    } else if a > at {
        law_ascending_is_sorted(keys, n - 1, a - 1, b - 1);
    } else if b == at {
        // everything before the place is not greater than the one before it
        if a < at - 1 {
            law_ascending_is_sorted(keys, n - 1, a, at - 1);
            assert(!keys[before[at - 1]].less(keys[before[a]]));
            assert(!keys[x].less(keys[before[at - 1]]));
        }
    } else if a == at {
        assert(keys[x].less(keys[before[b - 1]]));
    } else {
        law_ascending_is_sorted(keys, n - 1, a, b - 1);
    }
}

/// What stands before the place is not greater, what stands behind it is.
proof fn lemma_placed<T: Real>(keys: Seq<T>, order: Seq<int>, x: int, k: int)
    requires
        0 <= k,
    ensures
        ({
            let at = place(keys, order, x, k);
            &&& at > 0 ==> !keys[x].less(keys[order[at - 1]])
            &&& forall|i: int| at <= i < k ==> keys[x].less(keys[#[trigger] order[i]])
        }),
    decreases k,
{
    if k > 0 {
        lemma_placed(keys, order, x, k - 1);
    }
}

/// Each position is listed exactly once.
pub proof fn law_ascending_is_permutation<T: Real>(keys: Seq<T>, n: int, x: int)
    requires
        0 <= x < n,
    ensures
        exists|k: int| 0 <= k < n && #[trigger] ascending(keys, n)[k] == x,
        forall|j: int, k: int|
            0 <= j < n && 0 <= k < n && ascending(keys, n)[j] == x && ascending(keys, n)[k] == x
                ==> j == k,
    decreases n,
{
    let before = ascending(keys, n - 1);
    let at = place(keys, before, n - 1, n - 1);
    let now = ascending(keys, n);
    lemma_ascending(keys, n - 1);
    lemma_place(keys, before, n - 1, n - 1);
    if x == n - 1 {
        assert(now[at] == x);
        assert forall|j: int| 0 <= j < n && now[j] == x implies j == at by {
            if j < at {
                assert(now[j] == before[j]);
            } else if j > at {
                assert(now[j] == before[j - 1]);
            }
        }
    } else {
        law_ascending_is_permutation(keys, n - 1, x);
        let k = choose|k: int| 0 <= k < n - 1 && #[trigger] before[k] == x;
        assert(now[if k < at {
            k
        } else {
            k + 1
        }] == x);
        assert forall|i: int, j: int|
            0 <= i < n && 0 <= j < n && now[i] == x && now[j] == x implies i == j by {
            let (a, b) = (
                if i < at {
                    i
                } else {
                    i - 1
                },
                if j < at {
                    j
                } else {
                    j - 1
                },
            );
            assert(i != at && j != at);
            assert(now[i] == before[a]);
            assert(now[j] == before[b]);
        }
    }
}

/// Computes [`ascending`].
fn ascending_of<T: Real>(keys: &Vec<T>) -> (order: Vec<usize>)
    ensures
        order@.len() == keys@.len(),
        forall|k: int|
            0 <= k < keys@.len() ==> #[trigger] order@[k] == ascending(
                keys@,
                keys@.len() as int,
            )[k],
        forall|k: int| 0 <= k < keys@.len() ==> #[trigger] order@[k] < keys@.len(),
{
    let n: usize = keys.len();
    let mut order: Vec<usize> = Vec::new();
    for x in 0..n
        invariant
            n == keys@.len(),
            order@.len() == x,
            forall|k: int| 0 <= k < x ==> #[trigger] order@[k] == ascending(keys@, x as int)[k],
    {
        let ghost before = ascending(keys@, x as int);
        proof {
            lemma_ascending(keys@, x as int);
        }
        let mut at: usize = x;
        while at > 0 && keys[x].lt(keys[order[at - 1]])
            invariant
                x < n,
                n == keys@.len(),
                at <= x,
                order@.len() == x,
                before == ascending(keys@, x as int),
                before.len() == x,
                forall|k: int| 0 <= k < x ==> 0 <= #[trigger] before[k] < x,
                forall|k: int| 0 <= k < x ==> #[trigger] order@[k] == before[k],
                place(keys@, before, x as int, x as int) == place(
                    keys@,
                    before,
                    x as int,
                    at as int,
                ),
            decreases at,
        {
            at = at - 1;
        }
        order.insert(at, x);
    }
    proof {
        lemma_ascending(keys@, n as int);
    }
    order
}

// ── eigenpairs ──────────────────────────────────────────────────────────────

/// The eigenvalues that the rotations give, in ascending order.
pub open spec fn eigenvalues<T: Real>(a: Seq<T>, p: int, sweeps: int) -> Seq<T> {
    let m = diagonalized(unrotated(a, p), p, sweeps);
    let order = ascending(m.d, p);
    Seq::new(p as nat, |k: int| m.d[order[k]])
}

/// The eigenvectors that the rotations give, in the order of the eigenvalues.
pub open spec fn eigenvectors<T: Real>(a: Seq<T>, p: int, sweeps: int) -> Seq<T> {
    let m = diagonalized(unrotated(a, p), p, sweeps);
    let order = ascending(m.d, p);
    Seq::new((p * p) as nat, |x: int| m.v[x % p + order[x / p] * p])
}

fn start_of<T: Real>(a: &[T], p: usize) -> (m: RotatedArrays<T>)
    requires
        a@.len() == p * p,
        p * p <= usize::MAX,
    ensures
        m@ == unrotated(a@, p as int),
        m@.shaped(p as int),
{
    let mut w: Vec<T> = Vec::new();
    let mut v: Vec<T> = Vec::new();
    for k in 0..p * p
        invariant
            a@.len() == p * p,
            p * p <= usize::MAX,
            w@.len() == k,
            v@.len() == k,
            forall|x: int| 0 <= x < k ==> #[trigger] w@[x] == a@[x],
            forall|x: int| 0 <= x < k ==> #[trigger] v@[x] == unrotated(a@, p as int).v[x],
    {
        proof {
            lemma_split(k as int, p as int, p as int);
        }
        w.push(a[k]);
        if k % p == k / p {
            v.push(T::one());
        } else {
            v.push(T::zero());
        }
    }
    let mut d: Vec<T> = Vec::new();
    for i in 0..p
        invariant
            a@.len() == p * p,
            p * p <= usize::MAX,
            d@.len() == i,
            forall|x: int| 0 <= x < i ==> #[trigger] d@[x] == a@[x + x * p],
    {
        proof {
            lemma_position(i as int, i as int, p as int);
        }
        d.push(a[i + i * p]);
    }
    let m = RotatedArrays { w, d, v };
    assert(m@ =~= unrotated(a@, p as int));
    m
}

/// Eigenvectors and eigenvalues of a symmetric matrix; only entries on and above the diagonal are
/// read. Stops after `max_sweeps` sweeps at the latest.
pub fn jacobi_eigen_symmetric<T: Real>(a: &[T], p: usize, max_sweeps: usize) -> (r: (
    Vec<T>,
    Vec<T>,
))
    requires
        a@.len() == p * p,
        p * p <= usize::MAX,
        p <= i64::MAX,
    ensures
        r.0@ == eigenvectors(a@, p as int, max_sweeps as int),
        r.1@ == eigenvalues(a@, p as int, max_sweeps as int),
{
    let mut m = start_of(a, p);
    let ghost start = m@;
    let mut left: usize = max_sweeps;
    let mut converged = false;
    while left > 0 && !converged
        invariant
            m@.shaped(p as int),
            p * p <= usize::MAX,
            p <= i64::MAX,
            converged ==> quiet(m@, p as int, 0),
            diagonalized(start, p as int, max_sweeps as int) == diagonalized(
                m@,
                p as int,
                left as int,
            ),
        decreases left,
    {
        let (next, done) = sweep(m, p);
        m = next;
        converged = done;
        left = left - 1;
    }
    let order = ascending_of(&m.d);
    let mut values: Vec<T> = Vec::new();
    for k in 0..p
        invariant
            m@.shaped(p as int),
            order@.len() == p,
            forall|i: int| 0 <= i < p ==> #[trigger] order@[i] < p,
            values@.len() == k,
            forall|i: int| 0 <= i < k ==> #[trigger] values@[i] == m@.d[order@[i] as int],
    {
        values.push(m.d[order[k]]);
    }
    let mut vectors: Vec<T> = Vec::new();
    for x in 0..p * p
        invariant
            m@.shaped(p as int),
            p * p <= usize::MAX,
            order@.len() == p,
            forall|i: int| 0 <= i < p ==> #[trigger] order@[i] < p,
            vectors@.len() == x,
            forall|i: int|
                0 <= i < x ==> #[trigger] vectors@[i] == m@.v[i % (p as int) + order@[i
                    / (p as int)] * p],
    {
        proof {
            lemma_split(x as int, p as int, p as int);
            assert(order@[x as int / p as int] < p);
            lemma_position(x as int % p as int, order@[x as int / p as int] as int, p as int);
        }
        vectors.push(m.v[x % p + order[x / p] * p]);
    }
    proof {
        assert(diagonalized(start, p as int, max_sweeps as int) == m@);
        assert(values@ =~= eigenvalues(a@, p as int, max_sweeps as int));
        let goal = eigenvectors(a@, p as int, max_sweeps as int);
        assert forall|x: int| 0 <= x < p * p implies #[trigger] vectors@[x] == goal[x] by {
            lemma_split(x, p as int, p as int);
            assert(order@[x / (p as int)] == ascending(m@.d, p as int)[x / (p as int)]);
        }
        assert(vectors@ =~= goal);
    }
    (vectors, values)
}

} // verus!
