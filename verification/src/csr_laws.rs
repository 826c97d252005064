//! Laws of sparse matrices.

use vstd::prelude::*;

#[allow(unused_imports)]
use crate::csr::{law_entry_position_is_unique, row_terms, CsrMatrix};
use crate::scalar::Real;
#[allow(unused_imports)]
use crate::scalar::{
    exact_ring, lemma_plus_zero, lemma_sum_ext, lemma_sum_plus, lemma_sum_single, lemma_sum_zero,
    lemma_times_zero, sum,
};

verus! {

/// The entry at `(row, col)` among the first `n` stored entries of the row: the stored value, or
/// zero where none is stored.
pub open spec fn entry_before<T: Real>(m: CsrMatrix<T>, row: int, col: int, n: int) -> T
    decreases n,
{
    let k = m.pattern.row_ptr@[row] + n - 1;
    if n <= 0 {
        T::zero_val()
    } else if m.pattern.col_ind@[k] == col {
        m.values@[k]
    } else {
        entry_before(m, row, col, n - 1)
    }
}

/// The entry at `(row, col)` of the matrix.
pub open spec fn entry<T: Real>(m: CsrMatrix<T>, row: int, col: int) -> T {
    entry_before(m, row, col, m.pattern.row_ptr@[row + 1] - m.pattern.row_ptr@[row])
}

/// Entries are the stored values, and zero elsewhere.
proof fn lemma_entry_before<T: Real>(m: CsrMatrix<T>, row: int, col: int, n: int)
    requires
        m.pattern.wf(),
        0 <= row < m.pattern.nrows,
        0 <= n <= m.pattern.row_ptr@[row + 1] - m.pattern.row_ptr@[row],
    ensures
        forall|k: int|
            #[trigger] m.pattern.stores(row, col, k) && k < m.pattern.row_ptr@[row] + n
                ==> entry_before(m, row, col, n) == m.values@[k],
        (forall|k: int| #[trigger]
            m.pattern.stores(row, col, k) ==> k >= m.pattern.row_ptr@[row] + n) ==> entry_before(
            m,
            row,
            col,
            n,
        ) == T::zero_val(),
    decreases n,
{
    if n > 0 {
        lemma_entry_before(m, row, col, n - 1);
        let last = m.pattern.row_ptr@[row] + n - 1;
        if m.pattern.col_ind@[last] == col {
            assert(m.pattern.stores(row, col, last));
            assert forall|k: int|
                #[trigger] m.pattern.stores(row, col, k) && k < m.pattern.row_ptr@[row]
                    + n implies entry_before(m, row, col, n) == m.values@[k] by {
                law_entry_position_is_unique(m.pattern, row, col, last, k);
            }
        } else {
            assert forall|k: int|
                #[trigger] m.pattern.stores(row, col, k) && k < m.pattern.row_ptr@[row]
                    + n implies entry_before(m, row, col, n) == m.values@[k] by {
                assert(k != last);
            }
        }
    }
}

/// What [`CsrMatrix::get`] returns is the entry, and an entry that it does not find is zero.
pub proof fn law_get_returns_entry<T: Real>(m: CsrMatrix<T>, row: int, col: int)
    requires
        m.pattern.wf(),
        0 <= row < m.pattern.nrows,
    ensures
        forall|k: int| #[trigger]
            m.pattern.stores(row, col, k) ==> m.values@[k] == entry(m, row, col),
        !m.pattern.has(row, col) ==> entry(m, row, col) == T::zero_val(),
{
    let n = m.pattern.row_ptr@[row + 1] - m.pattern.row_ptr@[row];
    assert(m.pattern.row_ptr@[row] <= m.pattern.row_ptr@[row + 1]);
    lemma_entry_before(m, row, col, n);
    if !m.pattern.has(row, col) {
        assert forall|k: int| #[trigger] m.pattern.stores(row, col, k) implies k
            >= m.pattern.row_ptr@[row] + n by {
            assert(m.pattern.has(row, col));
        }
    }
}

/// Products of the entries of a row, up to `n` stored ones, with a vector.
spec fn column_terms<T: Real>(m: CsrMatrix<T>, row: int, n: int, x: Seq<T>) -> spec_fn(int) -> T {
    |j: int| entry_before(m, row, j, n).times(x[j])
}

proof fn lemma_row_product<T: Real>(m: CsrMatrix<T>, row: int, n: int, x: Seq<T>)
    requires
        exact_ring::<T>(),
        m.pattern.wf(),
        x.len() == m.pattern.ncols,
        0 <= row < m.pattern.nrows,
        0 <= n <= m.pattern.row_ptr@[row + 1] - m.pattern.row_ptr@[row],
    ensures
        sum(n, row_terms(m, row, x)) == sum(m.pattern.ncols as int, column_terms(m, row, n, x)),
    decreases n,
{
    let (nc, f) = (m.pattern.ncols as int, column_terms(m, row, n, x));
    if n == 0 {
        assert forall|j: int| 0 <= j < nc implies #[trigger] f(j) == T::zero_val() by {
            lemma_times_zero(x[j]);
        }
        lemma_sum_zero(nc, f);
    } else {
        lemma_row_product(m, row, n - 1, x);
        let last = m.pattern.row_ptr@[row] + n - 1;
        assert(m.pattern.row_ptr@[row + 1] <= m.pattern.row_ptr@[m.pattern.nrows as int]);
        let c = m.pattern.col_ind@[last] as int;
        let v = m.values@[last].times(x[c]);
        let g = column_terms(m, row, n - 1, x);
        let h = |j: int|
            if j == c {
                v
            } else {
                T::zero_val()
            };
        lemma_entry_before(m, row, c, n - 1);
        assert forall|k: int| #[trigger] m.pattern.stores(row, c, k) implies k
            >= m.pattern.row_ptr@[row] + (n - 1) by {
            assert(m.pattern.stores(row, c, last));
            law_entry_position_is_unique(m.pattern, row, c, last, k);
        }
        assert forall|j: int| 0 <= j < nc implies #[trigger] f(j) == g(j).plus(h(j)) by {
            lemma_times_zero(x[j]);
            lemma_plus_zero(v);
            lemma_plus_zero(g(j));
        }
        lemma_sum_plus(nc, g, h, f);
        lemma_sum_single(nc, c, h);
    }
}

/// The product with a vector is the sum over all columns of the entries of a row times the numbers
/// of the vector.
pub proof fn law_product_sums_entries<T: Real>(m: CsrMatrix<T>, x: Seq<T>, row: int)
    requires
        exact_ring::<T>(),
        m.pattern.wf(),
        x.len() == m.pattern.ncols,
        0 <= row < m.pattern.nrows,
    ensures
        m.product(x)[row] == sum(
            m.pattern.ncols as int,
            |col: int| entry(m, row, col).times(x[col]),
        ),
{
    let n = m.pattern.row_ptr@[row + 1] - m.pattern.row_ptr@[row];
    assert(m.pattern.row_ptr@[row] <= m.pattern.row_ptr@[row + 1]);
    lemma_row_product(m, row, n, x);
    lemma_sum_ext(
        m.pattern.ncols as int,
        column_terms(m, row, n, x),
        |col: int| entry(m, row, col).times(x[col]),
    );
    lemma_plus_zero(m.row_product(row, x));
}

} // verus!
