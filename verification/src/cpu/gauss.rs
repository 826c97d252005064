//! Inversion of dense matrices by Gauss–Jordan elimination with row pivoting.

use vstd::prelude::*;

use crate::error::{ErrorKind, ReedError, ReedResult};
#[allow(unused_imports)]
use crate::error::refused;
#[allow(unused_imports)]
use crate::index::{lemma_flat, lemma_mul_le, lemma_split};
#[allow(unused_imports)]
use crate::linear::{lemma_sum_split, only, others};
use crate::operator::operator_error;
use crate::scalar::Real;
#[allow(unused_imports)]
use crate::scalar::{
    col_sums, exact_field, exact_ring, lemma_distribute, lemma_field, lemma_minus, lemma_negated,
    lemma_plus_assoc, lemma_plus_comm, lemma_plus_zero, lemma_sum_ext, lemma_sum_plus,
    lemma_sum_scale, lemma_sum_single, lemma_sum_swap, lemma_times_assoc, lemma_times_comm,
    lemma_times_negated, lemma_times_one, lemma_times_zero, row_sums, sum,
};
use crate::text::Message;
#[allow(unused_imports)]
use crate::text::decimal;

verus! {

// ── elimination ─────────────────────────────────────────────────────────────

/// The matrix with the identity to its right. `a` holds columns one after the other.
pub open spec fn augmented<T: Real>(a: Seq<T>, n: int) -> Seq<Seq<T>> {
    Seq::new(
        n as nat,
        |i: int|
            Seq::new(
                (2 * n) as nat,
                |j: int|
                    if j < n {
                        a[i + j * n]
                    } else if j - n == i {
                        T::one_val()
                    } else {
                        T::zero_val()
                    },
            ),
    )
}

/// Pivots up to this size count as zero.
pub open spec fn tolerance<T: Real>(n: int) -> T {
    T::epsilon_val().times(
        T::int_val(
            if n < 64 {
                64
            } else {
                n
            },
        ),
    )
}

/// The row with the largest entry in column `k`, among `best` and the rows from `r` on; the first
/// such row.
pub open spec fn pivot_from<T: Real>(w: Seq<Seq<T>>, k: int, r: int, best: int) -> int
    decreases w.len() - r,
{
    if r >= w.len() {
        best
    } else if w[best][k].magnitude().less(w[r][k].magnitude()) {
        pivot_from(w, k, r + 1, r)
    } else {
        pivot_from(w, k, r + 1, best)
    }
}

/// The pivot row of column `k`.
pub open spec fn pivot<T: Real>(w: Seq<Seq<T>>, k: int) -> int {
    pivot_from(w, k, k + 1, k)
}

/// Row `r` after rows `k` and `p` have been exchanged.
pub open spec fn exchanged<T>(w: Seq<Seq<T>>, k: int, p: int, r: int) -> Seq<T> {
    if r == k {
        w[p]
    } else if r == p {
        w[k]
    } else {
        w[r]
    }
}

/// A row times a number.
pub open spec fn scaled_row<T: Real>(row: Seq<T>, s: T) -> Seq<T> {
    Seq::new(row.len(), |c: int| row[c].times(s))
}

/// A row minus a multiple of another.
pub open spec fn cleared_row<T: Real>(row: Seq<T>, f: T, other: Seq<T>) -> Seq<T> {
    if f.same(T::zero_val()) {
        row
    } else {
        Seq::new(row.len(), |c: int| row[c].minus(f.times(other[c])))
    }
}

/// The pivot row after it has been scaled to a unit pivot.
pub open spec fn unit_row<T: Real>(w: Seq<Seq<T>>, k: int, p: int) -> Seq<T> {
    scaled_row(w[p], T::one_val().over(w[p][k]))
}

/// The matrix after column `k` has been cleared with pivot row `p`.
pub open spec fn eliminated<T: Real>(w: Seq<Seq<T>>, k: int, p: int) -> Seq<Seq<T>> {
    Seq::new(
        w.len(),
        |r: int|
            if r == k {
                unit_row(w, k, p)
            } else {
                cleared_row(
                    exchanged(w, k, p, r),
                    exchanged(w, k, p, r)[k],
                    unit_row(w, k, p),
                )
            },
    )
}

/// The matrix after the columns from `k` on have been cleared; `None` if a pivot counts as zero.
pub open spec fn reduced<T: Real>(w: Seq<Seq<T>>, tol: T, k: int) -> Option<Seq<Seq<T>>>
    decreases w.len() - k,
{
    if k >= w.len() {
        Some(w)
    } else if w[pivot(w, k)][k].magnitude().at_most(tol) {
        None
    } else {
        reduced(eliminated(w, k, pivot(w, k)), tol, k + 1)
    }
}

/// The right half of the reduced matrix, columns one after the other.
pub open spec fn inverse_of<T: Real>(a: Seq<T>, n: int) -> Option<Seq<T>> {
    match reduced(augmented(a, n), tolerance::<T>(n), 0) {
        Some(w) => Some(Seq::new((n * n) as nat, |k: int| w[k % n][n + k / n])),
        None => None,
    }
}

/// Why a matrix cannot be inverted, if it cannot.
pub open spec fn inversion_refusal<T: Real>(a: Seq<T>, n: int) -> Option<Seq<char>> {
    if a.len() != n * n {
        Some(
            "invert_dense_col_major: expected "@ + decimal((n * n) as nat) + " entries for n="@
                + decimal(n as nat) + ", got "@ + decimal(a.len()),
        )
    } else if n == 0 {
        None
    } else if n * 2 > usize::MAX {
        Some("invert_dense_col_major: n*2 overflow"@)
    } else if n * (n * 2) > usize::MAX {
        Some("invert_dense_col_major: augmented matrix size overflow"@)
    } else if inverse_of(a, n) is None {
        Some(
            "operator_create_fdm_element_inverse: assembled matrix is singular or ill-conditioned (dense inversion failed)"@,
        )
    } else {
        None
    }
}

/// The rows of a matrix.
pub open spec fn rows<T>(w: Seq<Vec<T>>) -> Seq<Seq<T>> {
    Seq::new(w.len(), |i: int| w[i]@)
}

/// Pivot rows are rows.
proof fn lemma_pivot<T: Real>(w: Seq<Seq<T>>, k: int, r: int, best: int)
    requires
        0 <= k <= best < r <= w.len(),
    ensures
        k <= pivot_from(w, k, r, best) < w.len(),
    decreases w.len() - r,
{
    if r < w.len() {
        lemma_pivot(w, k, r + 1, best);
        lemma_pivot(w, k, r + 1, r);
    }
}

fn find_pivot<T: Real>(w: &Vec<Vec<T>>, n: usize, k: usize) -> (p: usize)
    requires
        k < n,
        w@.len() == n,
        forall|i: int| 0 <= i < n ==> (#[trigger] w@[i])@.len() == 2 * n,
    ensures
        p == pivot(rows(w@), k as int),
        k <= p < n,
{
    let mut best: usize = k;
    for r in k + 1..n
        invariant
            k <= best < r <= n,
            w@.len() == n,
            forall|i: int| 0 <= i < n ==> (#[trigger] w@[i])@.len() == 2 * n,
            pivot(rows(w@), k as int) == pivot_from(rows(w@), k as int, r as int, best as int),
    {
        assert(w@[best as int]@.len() == 2 * n);
        assert(w@[r as int]@.len() == 2 * n);
        if w[best][k].abs().lt(w[r][k].abs()) {
            best = r;
        }
    }
    best
}

fn scale_row<T: Real>(row: &Vec<T>, s: T) -> (r: Vec<T>)
    ensures
        r@ == scaled_row(row@, s),
{
    let mut r: Vec<T> = Vec::new();
    for c in 0..row.len()
        invariant
            r@.len() == c,
            forall|i: int| 0 <= i < c ==> #[trigger] r@[i] == row@[i].times(s),
    {
        r.push(row[c].mul(s));
    }
    assert(r@ =~= scaled_row(row@, s));
    r
}

fn clear_row<T: Real>(row: &Vec<T>, f: T, other: &Vec<T>) -> (r: Vec<T>)
    requires
        other@.len() == row@.len(),
    ensures
        r@ == cleared_row(row@, f, other@),
        r@.len() == row@.len(),
{
    let skip = f.eq_value(T::zero());
    let mut r: Vec<T> = Vec::new();
    for c in 0..row.len()
        invariant
            other@.len() == row@.len(),
            skip == f.same(T::zero_val()),
            r@.len() == c,
            forall|i: int|
                0 <= i < c ==> #[trigger] r@[i] == cleared_row(row@, f, other@)[i],
    {
        if skip {
            r.push(row[c]);
        } else {
            r.push(row[c].sub(f.mul(other[c])));
        }
    }
    assert(r@ =~= cleared_row(row@, f, other@));
    r
}

fn eliminate<T: Real>(w: &Vec<Vec<T>>, n: usize, k: usize, p: usize) -> (out: Vec<Vec<T>>)
    requires
        k <= p < n,
        w@.len() == n,
        forall|i: int| 0 <= i < n ==> (#[trigger] w@[i])@.len() == 2 * n,
    ensures
        rows(out@) == eliminated(rows(w@), k as int, p as int),
        out@.len() == n,
        forall|i: int| 0 <= i < n ==> (#[trigger] out@[i])@.len() == 2 * n,
{
    let ghost before = rows(w@);
    assert(w@[p as int]@.len() == 2 * n);
    let unit = scale_row(&w[p], T::one().div(w[p][k]));
    let mut out: Vec<Vec<T>> = Vec::new();
    for r in 0..n
        invariant
            k <= p < n,
            w@.len() == n,
            before == rows(w@),
            forall|i: int| 0 <= i < n ==> (#[trigger] w@[i])@.len() == 2 * n,
            unit@ == unit_row(before, k as int, p as int),
            unit@.len() == 2 * n,
            out@.len() == r,
            forall|i: int|
                0 <= i < r ==> (#[trigger] out@[i])@ == eliminated(before, k as int, p as int)[i],
            forall|i: int| 0 <= i < r ==> (#[trigger] out@[i])@.len() == 2 * n,
    {
        let row = if r == k {
            scale_row(&w[p], T::one().div(w[p][k]))
        } else {
            let from: usize = if r == p {
                k
            } else {
                r
            };
            assert(w@[from as int]@ == exchanged(before, k as int, p as int, r as int));
            assert(w@[from as int]@.len() == 2 * n);
            clear_row(&w[from], w[from][k], &unit)
        };
        out.push(row);
    }
    assert(rows(out@) =~= eliminated(before, k as int, p as int));
    out
}

fn augment<T: Real>(a: &[T], n: usize) -> (w: Vec<Vec<T>>)
    requires
        a@.len() == n * n,
        2 * n <= usize::MAX,
        n * n <= usize::MAX,
    ensures
        rows(w@) == augmented(a@, n as int),
        w@.len() == n,
        forall|i: int| 0 <= i < n ==> (#[trigger] w@[i])@.len() == 2 * n,
{
    let mut w: Vec<Vec<T>> = Vec::new();
    for i in 0..n
        invariant
            a@.len() == n * n,
            2 * n <= usize::MAX,
            n * n <= usize::MAX,
            w@.len() == i,
            forall|r: int| 0 <= r < i ==> (#[trigger] w@[r])@ == augmented(a@, n as int)[r],
            forall|r: int| 0 <= r < i ==> (#[trigger] w@[r])@.len() == 2 * n,
    {
        let mut row: Vec<T> = Vec::new();
        for j in 0..2 * n
            invariant
                i < n,
                a@.len() == n * n,
                2 * n <= usize::MAX,
                n * n <= usize::MAX,
                row@.len() == j,
                forall|c: int|
                    0 <= c < j ==> #[trigger] row@[c] == augmented(a@, n as int)[i as int][c],
        {
            if j < n {
                proof {
                    lemma_flat(j as int, n as int, i as int, n as int);
                    lemma_mul_le(j as int, j as int, n as int, n as int);
                }
                row.push(a[i + j * n]);
            } else if j - n == i {
                row.push(T::one());
            } else {
                row.push(T::zero());
            }
        }
        assert(row@ =~= augmented(a@, n as int)[i as int]);
        w.push(row);
    }
    assert(rows(w@) =~= augmented(a@, n as int));
    w
}

/// Inverts an `n × n` matrix. Matrices are stored columns one after the other.
pub fn invert_dense_col_major<T: Real>(a: &[T], n: usize) -> (r: ReedResult<Vec<T>>)
    requires
        n * n <= usize::MAX,
        n <= i64::MAX,
    ensures
        match inversion_refusal(a@, n as int) {
            Some(m) => refused(r, ErrorKind::Operator, m),
            None => r matches Ok(v) && inverse_of(a@, n as int) == Some(v@),
        },
{
    if a.len() != n * n {
        return Err(
            ReedError::Operator(
                Message::new("invert_dense_col_major: expected ").num(n * n).text(
                    " entries for n=",
                ).num(n).text(", got ").num(a.len()).done(),
            ),
        );
    }
    if n == 0 {
        let empty: Vec<T> = Vec::new();
        assert(empty@ =~= inverse_of(a@, 0)->0);
        return Ok(empty);
    }
    let two_n: usize = match n.checked_mul(2) {
        Some(m) => m,
        None => {
            return Err(operator_error("invert_dense_col_major: n*2 overflow"));
        },
    };
    if n.checked_mul(two_n).is_none() {
        return Err(operator_error("invert_dense_col_major: augmented matrix size overflow"));
    }
    let scale: i64 = if n < 64 {
        64
    } else {
        n as i64
    };
    let tol = T::epsilon().mul(T::from_int(scale));
    let mut w = augment(a, n);
    let ghost start = augmented(a@, n as int);
    for k in 0..n
        invariant
            n > 0,
            n * n <= usize::MAX,
            n * 2 <= usize::MAX,
            n * (n * 2) <= usize::MAX,
            a@.len() == n * n,
            tol == tolerance::<T>(n as int),
            start == augmented(a@, n as int),
            w@.len() == n,
            forall|i: int| 0 <= i < n ==> (#[trigger] w@[i])@.len() == 2 * n,
            reduced(start, tol, 0) == reduced(rows(w@), tol, k as int),
    {
        let p: usize = find_pivot(&w, n, k);
        assert(w@[p as int]@.len() == 2 * n);
        if w[p][k].abs().le(tol) {
            return Err(
                operator_error(
                    "operator_create_fdm_element_inverse: assembled matrix is singular or ill-conditioned (dense inversion failed)",
                ),
            );
        }
        w = eliminate(&w, n, k, p);
    }
    let ghost goal = inverse_of(a@, n as int)->0;
    let mut inv: Vec<T> = Vec::new();
    for k in 0..n * n
        invariant
            n > 0,
            n * n <= usize::MAX,
            n * 2 <= usize::MAX,
            w@.len() == n,
            forall|i: int| 0 <= i < n ==> (#[trigger] w@[i])@.len() == 2 * n,
            goal == Seq::new((n * n) as nat, |k: int| rows(w@)[k % (n as int)][n + k / (n as int)]),
            inv@.len() == k,
            forall|i: int| 0 <= i < k ==> #[trigger] inv@[i] == goal[i],
    {
        proof {
            lemma_split(k as int, n as int, n as int);
        }
        assert(w@[(k % n) as int]@.len() == 2 * n);
        inv.push(w[k % n][n + k / n]);
    }
    assert(inv@ =~= goal);
    Ok(inv)
}

// ── the inverse is an inverse ───────────────────────────────────────────────

/// Products of an entry of a matrix product; both factors hold columns one after the other.
pub open spec fn product_terms<T: Real>(b: Seq<T>, a: Seq<T>, n: int, i: int, c: int) -> spec_fn(
    int,
) -> T {
    |j: int| b[i + j * n].times(a[j + c * n])
}

/// Products of the combination of matrix rows whose coefficients are the right half of `row`.
spec fn combo<T: Real>(row: Seq<T>, a: Seq<T>, n: int, c: int) -> spec_fn(int) -> T {
    |j: int| row[n + j].times(a[j + c * n])
}

/// The left half of `row` is the combination of matrix rows whose coefficients are its right half.
spec fn balanced<T: Real>(row: Seq<T>, a: Seq<T>, n: int) -> bool {
    &&& row.len() == 2 * n
    &&& forall|c: int| 0 <= c < n ==> #[trigger] row[c] == sum(n, combo(row, a, n, c))
}

/// Columns below `k` are those of the identity.
spec fn unit_columns<T: Real>(w: Seq<Seq<T>>, k: int) -> bool {
    forall|r: int, c: int|
        0 <= r < w.len() && 0 <= c < k ==> #[trigger] w[r][c] == if r == c {
            T::one_val()
        } else {
            T::zero_val()
        }
}

proof fn lemma_augmented_balanced<T: Real>(a: Seq<T>, n: int, i: int)
    requires
        exact_ring::<T>(),
        0 <= i < n,
    ensures
        balanced(augmented(a, n)[i], a, n),
{
    let row = augmented(a, n)[i];
    assert forall|c: int| 0 <= c < n implies #[trigger] row[c] == sum(n, combo(row, a, n, c)) by {
        let f = combo(row, a, n, c);
        assert forall|j: int| 0 <= j < n && j != i implies #[trigger] f(j) == T::zero_val() by {
            lemma_times_zero(a[j + c * n]);
        }
        lemma_sum_single(n, i, f);
        lemma_times_one(a[i + c * n]);
    }
}

proof fn lemma_scaled_balanced<T: Real>(row: Seq<T>, s: T, a: Seq<T>, n: int)
    requires
        exact_ring::<T>(),
        balanced(row, a, n),
    ensures
        balanced(scaled_row(row, s), a, n),
{
    let new = scaled_row(row, s);
    assert forall|c: int| 0 <= c < n implies #[trigger] new[c] == sum(n, combo(new, a, n, c)) by {
        let (f, h) = (combo(row, a, n, c), combo(new, a, n, c));
        assert forall|j: int| 0 <= j < n implies #[trigger] h(j) == s.times(f(j)) by {
            lemma_times_comm(row[n + j], s);
            lemma_times_assoc(s, row[n + j], a[j + c * n]);
        }
        lemma_sum_scale(n, s, f, h);
        assert(row[c] == sum(n, f));
        lemma_times_comm(row[c], s);
    }
}

proof fn lemma_cleared_balanced<T: Real>(row: Seq<T>, f: T, other: Seq<T>, a: Seq<T>, n: int)
    requires
        exact_ring::<T>(),
        balanced(row, a, n),
        balanced(other, a, n),
    ensures
        balanced(cleared_row(row, f, other), a, n),
{
    if !f.same(T::zero_val()) {
        let new = cleared_row(row, f, other);
        let m = f.negated();
        assert forall|c: int| 0 <= c < n implies #[trigger] new[c] == sum(
            n,
            combo(new, a, n, c),
        ) by {
            let (g, o, h) = (combo(row, a, n, c), combo(other, a, n, c), combo(new, a, n, c));
            let t = |j: int| m.times(o(j));
            assert forall|j: int| 0 <= j < n implies #[trigger] h(j) == g(j).plus(t(j)) by {
                let (x, y, z) = (row[n + j], other[n + j], a[j + c * n]);
                lemma_minus(x, f.times(y));
                lemma_times_negated(f, y);
                lemma_distribute(z, x, m.times(y));
                lemma_times_assoc(m, y, z);
            }
            lemma_sum_plus(n, g, t, h);
            lemma_sum_scale(n, m, o, t);
            assert(row[c] == sum(n, g));
            assert(other[c] == sum(n, o));
            lemma_minus(row[c], f.times(other[c]));
            lemma_times_negated(f, other[c]);
        }
    }
}

proof fn lemma_step_balanced<T: Real>(w: Seq<Seq<T>>, k: int, p: int, a: Seq<T>, n: int)
    requires
        exact_ring::<T>(),
        w.len() == n,
        0 <= k <= p < n,
        forall|r: int| 0 <= r < n ==> balanced(#[trigger] w[r], a, n),
    ensures
        forall|r: int| 0 <= r < n ==> balanced(#[trigger] eliminated(w, k, p)[r], a, n),
{
    lemma_scaled_balanced(w[p], T::one_val().over(w[p][k]), a, n);
    assert forall|r: int| 0 <= r < n implies balanced(#[trigger] eliminated(w, k, p)[r], a, n) by {
        if r != k {
            let x = exchanged(w, k, p, r);
            assert(balanced(w[p], a, n) && balanced(w[k], a, n) && balanced(w[r], a, n));
            lemma_cleared_balanced(x, x[k], unit_row(w, k, p), a, n);
        }
    }
}

proof fn lemma_step_units<T: Real>(w: Seq<Seq<T>>, k: int, p: int, n: int)
    requires
        exact_field::<T>(),
        w.len() == n,
        0 <= k <= p < n,
        forall|r: int| 0 <= r < n ==> (#[trigger] w[r]).len() == 2 * n,
        unit_columns(w, k),
        w[p][k] != T::zero_val(),
    ensures
        unit_columns(eliminated(w, k, p), k + 1),
{
    let new = eliminated(w, k, p);
    let unit = unit_row(w, k, p);
    let s = T::one_val().over(w[p][k]);
    lemma_field(w[p][k], w[p][k]);
    assert forall|r: int, c: int|
        0 <= r < new.len() && 0 <= c < k + 1 implies #[trigger] new[r][c] == if r == c {
        T::one_val()
    } else {
        T::zero_val()
    } by {
        let x = exchanged(w, k, p, r);
        let f = x[k];
        assert(w[p].len() == 2 * n && w[k].len() == 2 * n && w[r].len() == 2 * n);
        assert(unit[c] == w[p][c].times(s));
        lemma_field(f, T::zero_val());
        if c < k {
            assert(w[p][c] == T::zero_val());
            assert(w[k][c] == T::zero_val());
            lemma_times_zero(s);
            assert(unit[c] == T::zero_val());
            assert(w[r][c] == w[r][c]);
            if r != k {
                lemma_times_zero(f);
                lemma_minus(x[c], T::zero_val());
                lemma_negated(T::zero_val());
                lemma_plus_zero(T::zero_val().negated());
                lemma_plus_zero(x[c]);
            }
        } else {
            assert(unit[c] == T::one_val());
            if r != k {
                lemma_times_one(f);
                lemma_minus(f, f);
                lemma_negated(f);
            }
        }
    }
}

proof fn lemma_reduced<T: Real>(w: Seq<Seq<T>>, tol: T, k: int, a: Seq<T>, n: int)
    requires
        exact_field::<T>(),
        T::zero_val().magnitude().at_most(tol),
        w.len() == n,
        0 <= k <= n,
        forall|r: int| 0 <= r < n ==> balanced(#[trigger] w[r], a, n),
        unit_columns(w, k),
        reduced(w, tol, k) is Some,
    ensures
        ({
            let end = reduced(w, tol, k)->0;
            &&& end.len() == n
            &&& unit_columns(end, n)
            &&& forall|r: int| 0 <= r < n ==> balanced(#[trigger] end[r], a, n)
        }),
    decreases n - k,
{
    if k < n {
        lemma_field(T::zero_val(), T::zero_val());
        lemma_pivot(w, k, k + 1, k);
        let p = pivot(w, k);
        assert forall|r: int| 0 <= r < n implies (#[trigger] w[r]).len() == 2 * n by {
            assert(balanced(w[r], a, n));
        }
        lemma_step_balanced(w, k, p, a, n);
        lemma_step_units(w, k, p, n);
        lemma_reduced(eliminated(w, k, p), tol, k + 1, a, n);
    }
}

/// In exact arithmetic the inverse times the matrix is the identity, provided that a zero pivot
/// counts as zero.
pub proof fn law_inverse_times_matrix<T: Real>(a: Seq<T>, n: int, i: int, c: int)
    requires
        exact_field::<T>(),
        T::zero_val().magnitude().at_most(tolerance::<T>(n)),
        0 <= i < n,
        0 <= c < n,
        a.len() == n * n,
        inverse_of(a, n) is Some,
    ensures
        sum(n, product_terms(inverse_of(a, n)->0, a, n, i, c)) == if i == c {
            T::one_val()
        } else {
            T::zero_val()
        },
{
    lemma_field(T::zero_val(), T::zero_val());
    let w = augmented(a, n);
    let tol = tolerance::<T>(n);
    assert forall|r: int| 0 <= r < n implies balanced(#[trigger] w[r], a, n) by {
        lemma_augmented_balanced(a, n, r);
    }
    lemma_reduced(w, tol, 0, a, n);
    let end = reduced(w, tol, 0)->0;
    let inv = inverse_of(a, n)->0;
    assert(balanced(end[i], a, n));
    let (f, g) = (combo(end[i], a, n, c), product_terms(inv, a, n, i, c));
    assert forall|j: int| 0 <= j < n implies #[trigger] f(j) == g(j) by {
        lemma_flat(j, n, i, n);
    }
    lemma_sum_ext(n, f, g);
    assert(end[i][c] == sum(n, f));
}

// ── the inverse is an inverse from the right ────────────────────────────────

/// Index `r` after `k` and `p` have been exchanged.
spec fn partner(k: int, p: int, r: int) -> int {
    if r == k {
        p
    } else if r == p {
        k
    } else {
        r
    }
}

/// Exchanging two terms keeps a sum.
proof fn lemma_sum_exchange<T: Real>(
    n: int,
    k: int,
    p: int,
    f: spec_fn(int) -> T,
    g: spec_fn(int) -> T,
)
    requires
        exact_ring::<T>(),
        0 <= k < n,
        0 <= p < n,
        forall|r: int| 0 <= r < n ==> #[trigger] g(r) == f(partner(k, p, r)),
    ensures
        sum(n, g) == sum(n, f),
{
    if k == p {
        lemma_sum_ext(n, g, f);
    } else {
        lemma_sum_split(n, k, p, f);
        lemma_sum_split(n, k, p, g);
        lemma_sum_ext(n, others(g, k, p), others(f, k, p));
        assert(g(k) == f(p) && g(p) == f(k));
        lemma_plus_comm(f(k), f(p));
    }
}

/// Products of row `i` of `u` with column `c` of the right half of `w`.
spec fn undo_terms<T: Real>(u: Seq<Seq<T>>, w: Seq<Seq<T>>, n: int, i: int, c: int) -> spec_fn(
    int,
) -> T {
    |q: int| u[i][q].times(w[q][n + c])
}

/// `u` times the right half of `w` is the identity.
spec fn undoes<T: Real>(u: Seq<Seq<T>>, w: Seq<Seq<T>>, n: int) -> bool {
    forall|i: int, c: int|
        0 <= i < n && 0 <= c < n ==> #[trigger] sum(n, undo_terms(u, w, n, i, c)) == if i == c {
            T::one_val()
        } else {
            T::zero_val()
        }
}

/// Shares of the pivot row in row `i` of the matrix that undoes a step.
spec fn pivot_shares<T: Real>(u: Seq<Seq<T>>, w: Seq<Seq<T>>, k: int, p: int, i: int) -> spec_fn(
    int,
) -> T {
    |r: int| u[i][partner(k, p, r)].times(exchanged(w, k, p, r)[k])
}

/// The matrix that undoes one more step.
spec fn undo_step<T: Real>(u: Seq<Seq<T>>, w: Seq<Seq<T>>, n: int, k: int, p: int) -> Seq<Seq<T>> {
    Seq::new(
        n as nat,
        |i: int|
            Seq::new(
                n as nat,
                |r: int|
                    if r == k {
                        sum(n, pivot_shares(u, w, k, p, i))
                    } else {
                        u[i][partner(k, p, r)]
                    },
            ),
    )
}

/// A row before a step is the row after it plus a multiple of the new pivot row.
proof fn lemma_row_back<T: Real>(w: Seq<Seq<T>>, n: int, k: int, p: int, r: int, c: int)
    requires
        exact_field::<T>(),
        w.len() == n,
        0 <= k <= p < n,
        0 <= r < n,
        0 <= c < 2 * n,
        forall|q: int| 0 <= q < n ==> (#[trigger] w[q]).len() == 2 * n,
        w[p][k] != T::zero_val(),
    ensures
        ({
            let x = exchanged(w, k, p, r);
            let new = eliminated(w, k, p);
            x[c] == if r == k {
                x[k].times(new[k][c])
            } else {
                new[r][c].plus(x[k].times(new[k][c]))
            }
        }),
{
    let x = exchanged(w, k, p, r);
    let new = eliminated(w, k, p);
    let f = x[k];
    let s = T::one_val().over(w[p][k]);
    lemma_field(w[p][k], w[p][k]);
    lemma_field(f, T::zero_val());
    assert(w[p].len() == 2 * n && w[k].len() == 2 * n && w[r].len() == 2 * n);
    assert(new[k][c] == w[p][c].times(s));
    if r == k {
        lemma_times_comm(w[p][c], s);
        lemma_times_assoc(f, s, w[p][c]);
        lemma_times_one(w[p][c]);
    } else {
        let y = f.times(new[k][c]);
        if f == T::zero_val() {
            lemma_times_zero(new[k][c]);
            lemma_plus_zero(x[c]);
        } else {
            lemma_minus(x[c], y);
            lemma_plus_assoc(x[c], y.negated(), y);
            lemma_negated(y);
            lemma_plus_zero(x[c]);
        }
    }
}

proof fn lemma_undo_step<T: Real>(u: Seq<Seq<T>>, w: Seq<Seq<T>>, n: int, k: int, p: int)
    requires
        exact_field::<T>(),
        w.len() == n,
        0 <= k <= p < n,
        forall|q: int| 0 <= q < n ==> (#[trigger] w[q]).len() == 2 * n,
        w[p][k] != T::zero_val(),
        undoes(u, w, n),
    ensures
        undoes(undo_step(u, w, n, k, p), eliminated(w, k, p), n),
{
    lemma_field(w[p][k], w[p][k]);
    let new = eliminated(w, k, p);
    let u2 = undo_step(u, w, n, k, p);
    assert forall|i: int, c: int| 0 <= i < n && 0 <= c < n implies #[trigger] sum(
        n,
        undo_terms(u2, new, n, i, c),
    ) == if i == c {
        T::one_val()
    } else {
        T::zero_val()
    } by {
        let before = undo_terms(u, w, n, i, c);
        let after = undo_terms(u2, new, n, i, c);
        let moved = |r: int| before(partner(k, p, r));
        let shares = pivot_shares(u, w, k, p, i);
        let pivot_entry = new[k][n + c];
        let kept = |r: int|
            if r == k {
                T::zero_val()
            } else {
                u[i][partner(k, p, r)].times(new[r][n + c])
            };
        let taken = |r: int| pivot_entry.times(shares(r));
        lemma_sum_exchange(n, k, p, before, moved);
        assert forall|r: int| 0 <= r < n implies #[trigger] moved(r) == kept(r).plus(
            taken(r),
        ) by {
            lemma_row_back(w, n, k, p, r, n + c);
            let x = exchanged(w, k, p, r);
            let y = u[i][partner(k, p, r)];
            assert(moved(r) == y.times(x[n + c]));
            lemma_times_assoc(y, x[k], pivot_entry);
            lemma_times_comm(pivot_entry, y.times(x[k]));
            if r == k {
                lemma_plus_zero(taken(r));
            } else {
                lemma_distribute(y, new[r][n + c], x[k].times(pivot_entry));
            }
        }
        lemma_sum_plus(n, kept, taken, moved);
        lemma_sum_scale(n, pivot_entry, shares, taken);
        let at_k = only(k, u2[i][k].times(pivot_entry));
        assert forall|r: int| 0 <= r < n implies #[trigger] after(r) == kept(r).plus(at_k(r)) by {
            lemma_plus_zero(after(r));
        }
        lemma_sum_plus(n, kept, at_k, after);
        lemma_sum_single(n, k, at_k);
        lemma_times_comm(pivot_entry, sum(n, shares));
        assert(sum(n, before) == if i == c {
            T::one_val()
        } else {
            T::zero_val()
        });
    }
}

/// The elimination can be undone.
proof fn lemma_undo<T: Real>(u: Seq<Seq<T>>, w: Seq<Seq<T>>, tol: T, n: int, k: int) -> (end: Seq<
    Seq<T>,
>)
    requires
        exact_field::<T>(),
        T::zero_val().magnitude().at_most(tol),
        w.len() == n,
        0 <= k <= n,
        forall|q: int| 0 <= q < n ==> (#[trigger] w[q]).len() == 2 * n,
        undoes(u, w, n),
        reduced(w, tol, k) is Some,
    ensures
        undoes(end, reduced(w, tol, k)->0, n),
    decreases n - k,
{
    if k < n {
        lemma_pivot(w, k, k + 1, k);
        let p = pivot(w, k);
        lemma_undo_step(u, w, n, k, p);
        let new = eliminated(w, k, p);
        assert forall|q: int| 0 <= q < n implies (#[trigger] new[q]).len() == 2 * n by {
            assert(w[p].len() == 2 * n && w[k].len() == 2 * n && w[q].len() == 2 * n);
        }
        lemma_undo(undo_step(u, w, n, k, p), new, tol, n, k + 1)
    } else {
        u
    }
}

/// In exact arithmetic the matrix times the inverse is the identity, provided that a zero pivot
/// counts as zero.
pub proof fn law_matrix_times_inverse<T: Real>(a: Seq<T>, n: int, i: int, c: int)
    requires
        exact_field::<T>(),
        T::zero_val().magnitude().at_most(tolerance::<T>(n)),
        0 <= i < n,
        0 <= c < n,
        a.len() == n * n,
        inverse_of(a, n) is Some,
    ensures
        sum(n, product_terms(a, inverse_of(a, n)->0, n, i, c)) == if i == c {
            T::one_val()
        } else {
            T::zero_val()
        },
{
    lemma_field(T::zero_val(), T::zero_val());
    let w = augmented(a, n);
    let tol = tolerance::<T>(n);
    let identity = Seq::new(
        n as nat,
        |i: int|
            Seq::new(
                n as nat,
                |j: int|
                    if i == j {
                        T::one_val()
                    } else {
                        T::zero_val()
                    },
            ),
    );
    assert forall|i: int, c: int| 0 <= i < n && 0 <= c < n implies #[trigger] sum(
        n,
        undo_terms(identity, w, n, i, c),
    ) == if i == c {
        T::one_val()
    } else {
        T::zero_val()
    } by {
        let f = undo_terms(identity, w, n, i, c);
        assert forall|j: int| 0 <= j < n && j != i implies #[trigger] f(j) == T::zero_val() by {
            lemma_times_zero(w[j][n + c]);
        }
        lemma_sum_single(n, i, f);
        lemma_times_one(w[i][n + c]);
    }
    let u = lemma_undo(identity, w, tol, n, 0);
    let end = reduced(w, tol, 0)->0;
    let inv = inverse_of(a, n)->0;
    assert forall|j: int| 0 <= j < n implies u[i][j] == #[trigger] a[i + j * n] by {
        lemma_undo_is_matrix(u, end, a, n, i, j);
    }
    let (f, g) = (undo_terms(u, end, n, i, c), product_terms(a, inv, n, i, c));
    assert forall|j: int| 0 <= j < n implies #[trigger] f(j) == g(j) by {
        lemma_flat(c, n, j, n);
        assert(u[i][j] == a[i + j * n]);
    }
    lemma_sum_ext(n, f, g);
    assert(sum(n, f) == if i == c {
        T::one_val()
    } else {
        T::zero_val()
    });
}

/// What undoes the elimination of `a` is `a`.
proof fn lemma_undo_is_matrix<T: Real>(
    u: Seq<Seq<T>>,
    end: Seq<Seq<T>>,
    a: Seq<T>,
    n: int,
    i: int,
    j: int,
)
    requires
        exact_field::<T>(),
        T::zero_val().magnitude().at_most(tolerance::<T>(n)),
        0 <= i < n,
        0 <= j < n,
        a.len() == n * n,
        reduced(augmented(a, n), tolerance::<T>(n), 0) == Some(end),
        undoes(u, end, n),
    ensures
        u[i][j] == a[i + j * n],
{
    lemma_field(T::zero_val(), T::zero_val());
    let inv = inverse_of(a, n)->0;
    // both sides of: sum over r, q of u[i][r] * end[r][n + q] * a[q + j n]
    let f = |r: int, q: int| u[i][r].times(end[r][n + q]).times(a[q + j * n]);
    lemma_sum_swap(n, n, f);
    let by_row = only(j, u[i][j]);
    assert forall|r: int| 0 <= r < n implies #[trigger] row_sums(n, f)(r) == by_row(r) by {
        law_inverse_times_matrix(a, n, r, j);
        let g = product_terms(inv, a, n, r, j);
        let h = |q: int| f(r, q);
        assert forall|q: int| 0 <= q < n implies #[trigger] h(q) == u[i][r].times(g(q)) by {
            lemma_flat(q, n, r, n);
            lemma_times_assoc(u[i][r], end[r][n + q], a[q + j * n]);
        }
        lemma_sum_scale(n, u[i][r], g, h);
        lemma_times_one(u[i][r]);
        lemma_times_zero(u[i][r]);
    }
    lemma_sum_ext(n, row_sums(n, f), by_row);
    lemma_sum_single(n, j, by_row);
    let by_col = only(i, a[i + j * n]);
    assert forall|q: int| 0 <= q < n implies #[trigger] col_sums(n, f)(q) == by_col(q) by {
        let g = undo_terms(u, end, n, i, q);
        let h = |r: int| f(r, q);
        let x = a[q + j * n];
        assert forall|r: int| 0 <= r < n implies #[trigger] h(r) == x.times(g(r)) by {
            lemma_times_comm(x, g(r));
        }
        lemma_sum_scale(n, x, g, h);
        assert(sum(n, g) == if i == q {
            T::one_val()
        } else {
            T::zero_val()
        });
        lemma_times_one(x);
        lemma_times_zero(x);
    }
    lemma_sum_ext(n, col_sums(n, f), by_col);
    lemma_sum_single(n, i, by_col);
}

} // verus!
