//! Compressed sparse row (CSR) patterns and matrices.

use vstd::prelude::*;

use crate::error::{ErrorKind, ReedError, ReedResult};
#[allow(unused_imports)]
use crate::error::refused;
#[allow(unused_imports)]
use crate::index::{lemma_flat, lemma_flat3, lemma_split};
use crate::scalar::Real;
#[allow(unused_imports)]
use crate::scalar::sum;
use crate::text::Message;
#[allow(unused_imports)]
use crate::text::{decimal, signed_decimal};

verus! {

/// CSR sparsity pattern: `row_ptr` has `nrows + 1` entries, `col_ind` has `nnz`.
#[derive(Debug, PartialEq, Eq)]
pub struct CsrPattern {
    pub nrows: usize,
    pub ncols: usize,
    pub row_ptr: Vec<usize>,
    pub col_ind: Vec<usize>,
}

/// `s` increases strictly on the positions from `lo` up to, not including, `hi`.
pub open spec fn increasing(s: Seq<usize>, lo: int, hi: int) -> bool {
    forall|a: int, b: int| lo <= a < b < hi ==> s[a] < s[b]
}

impl Clone for CsrPattern {
    fn clone(&self) -> (r: Self)
        ensures
            r.nrows == self.nrows,
            r.ncols == self.ncols,
            r.row_ptr@ == self.row_ptr@,
            r.col_ind@ == self.col_ind@,
    {
        CsrPattern {
            nrows: self.nrows,
            ncols: self.ncols,
            row_ptr: self.row_ptr.clone(),
            col_ind: self.col_ind.clone(),
        }
    }
}

impl CsrPattern {
    /// Row pointers and column indices are in range.
    pub open spec fn shaped(self) -> bool {
        &&& self.row_ptr@.len() == self.nrows + 1
        &&& forall|r: int, s: int|
            0 <= r <= s <= self.nrows ==> #[trigger] self.row_ptr@[r] <= #[trigger] self.row_ptr@[s]
        &&& self.row_ptr@[self.nrows as int] == self.col_ind@.len()
        &&& forall|k: int| 0 <= k < self.col_ind@.len() ==> #[trigger] self.col_ind@[k] < self.ncols
    }

    /// The columns of row `r` increase strictly.
    pub open spec fn row_sorted(self, r: int) -> bool {
        increasing(self.col_ind@, self.row_ptr@[r] as int, self.row_ptr@[r + 1] as int)
    }

    /// Within every row the columns increase strictly.
    pub open spec fn sorted(self) -> bool {
        forall|r: int| 0 <= r < self.nrows ==> #[trigger] self.row_sorted(r)
    }

    /// The pattern's invariant.
    pub open spec fn wf(self) -> bool {
        self.shaped() && self.sorted()
    }

    /// Storage position `k` holds the entry at `(row, col)`.
    pub open spec fn stores(self, row: int, col: int, k: int) -> bool {
        &&& 0 <= row < self.nrows
        &&& self.row_ptr@[row] <= k < self.row_ptr@[row + 1]
        &&& self.col_ind@[k] == col
    }

    /// The pattern has an entry at `(row, col)`.
    pub open spec fn has(self, row: int, col: int) -> bool {
        exists|k: int| self.stores(row, col, k)
    }

    /// Number of stored entries.
    pub fn nnz(&self) -> (n: usize)
        ensures
            n == self.col_ind@.len(),
    {
        self.col_ind.len()
    }

    /// Storage index of the entry at `(row, col)`, if present.
    pub fn index_of(&self, row: usize, col: usize) -> (r: Option<usize>)
        requires
            self.wf(),
        ensures
            match r {
                Some(k) => self.stores(row as int, col as int, k as int),
                None => !self.has(row as int, col as int),
            },
    {
        if row >= self.nrows || col >= self.ncols {
            return None;
        }
        let lo: usize = self.row_ptr[row];
        let hi: usize = self.row_ptr[row + 1];
        assert(self.row_ptr@[row + 1] <= self.row_ptr@[self.nrows as int]);
        assert(self.row_sorted(row as int));
        let k: usize = lower_bound(&self.col_ind, lo, hi, col);
        if k < hi && self.col_ind[k] == col {
            Some(k)
        } else {
            None
        }
    }
}

/// First position in `lo..hi` whose value is at least `c`, or `hi`.
fn lower_bound(s: &Vec<usize>, lo: usize, hi: usize, c: usize) -> (k: usize)
    requires
        lo <= hi <= s@.len(),
        increasing(s@, lo as int, hi as int),
    ensures
        lo <= k <= hi,
        forall|a: int| lo <= a < k ==> #[trigger] s@[a] < c,
        forall|a: int| k <= a < hi ==> #[trigger] s@[a] >= c,
{
    let mut a: usize = lo;
    let mut b: usize = hi;
    while a < b
        invariant
            lo <= a <= b <= hi <= s@.len(),
            increasing(s@, lo as int, hi as int),
            forall|i: int| lo <= i < a ==> #[trigger] s@[i] < c,
            forall|i: int| b <= i < hi ==> #[trigger] s@[i] >= c,
        decreases b - a,
    {
        let mid: usize = a + (b - a) / 2;
        if s[mid] < c {
            assert(forall|i: int| lo <= i < mid ==> s@[i] < s@[mid as int]);
            a = mid + 1;
        } else {
            assert(forall|i: int| mid < i < hi ==> s@[mid as int] < s@[i]);
            b = mid;
        }
    }
    a
}

/// CSR matrix: a pattern with one value per stored entry.
#[derive(Clone, Debug, PartialEq)]
pub struct CsrMatrix<T> {
    pub pattern: CsrPattern,
    pub values: Vec<T>,
}

/// The products `values[k] * x[col_ind[k]]` of one row, in storage order.
pub open spec fn row_terms<T: Real>(m: CsrMatrix<T>, row: int, x: Seq<T>) -> spec_fn(int) -> T {
    |t: int|
        m.values@[m.pattern.row_ptr@[row] + t].times(
            x[m.pattern.col_ind@[m.pattern.row_ptr@[row] + t] as int],
        )
}

impl<T: Real> CsrMatrix<T> {
    /// Row `row` of the product with `x`.
    pub open spec fn row_product(self, row: int, x: Seq<T>) -> T {
        sum(
            self.pattern.row_ptr@[row + 1] - self.pattern.row_ptr@[row],
            row_terms(self, row, x),
        )
    }

    /// The product with `x`.
    pub open spec fn product(self, x: Seq<T>) -> Seq<T> {
        Seq::new(
            self.pattern.nrows as nat,
            |row: int| T::zero_val().plus(self.row_product(row, x)),
        )
    }

    /// The product with `x`, added to `y`.
    pub open spec fn product_added(self, x: Seq<T>, y: Seq<T>) -> Seq<T> {
        Seq::new(self.pattern.nrows as nat, |row: int| y[row].plus(self.row_product(row, x)))
    }

    /// The message that reports vectors of the wrong length.
    pub open spec fn shape_message(self, who: Seq<char>, xlen: nat, ylen: nat) -> Seq<char> {
        who + ": x len "@ + decimal(xlen) + " (need "@ + decimal(self.pattern.ncols as nat)
            + "), y len "@ + decimal(ylen) + " (need "@ + decimal(self.pattern.nrows as nat) + ")"@
    }

    fn shape_error(&self, who: &str, xlen: usize, ylen: usize) -> (e: ReedError)
        ensures
            e@ == (ErrorKind::InvalidArgument, self.shape_message(who@, xlen as nat, ylen as nat)),
    {
        ReedError::InvalidArgument(
            Message::new(who).text(": x len ").num(xlen).text(" (need ").num(
                self.pattern.ncols,
            ).text("), y len ").num(ylen).text(" (need ").num(self.pattern.nrows).text(")").done(),
        )
    }

    /// The value stored at `(row, col)`, if the pattern has that entry.
    pub fn get(&self, row: usize, col: usize) -> (r: Option<T>)
        requires
            self.pattern.wf(),
            self.values@.len() == self.pattern.col_ind@.len(),
        ensures
            match r {
                Some(v) => exists|k: int| #[trigger]
                    self.pattern.stores(row as int, col as int, k) && v == self.values@[k],
                None => !self.pattern.has(row as int, col as int),
            },
    {
        match self.pattern.index_of(row, col) {
            Some(i) => {
                assert(self.pattern.row_ptr@[row + 1] <= self.pattern.row_ptr@[self.pattern.nrows as int]);
                Some(self.values[i])
            },
            None => None,
        }
    }

    /// `y = A x`; overwrites `y`.
    pub fn mul_vec(&self, x: &[T], y: &mut [T]) -> (r: ReedResult<()>)
        requires
            x@.len() == self.pattern.ncols && old(y)@.len() == self.pattern.nrows
                ==> self.pattern.shaped() && self.values@.len() == self.pattern.col_ind@.len(),
        ensures
            final(y)@.len() == old(y)@.len(),
            if x@.len() == self.pattern.ncols && old(y)@.len() == self.pattern.nrows {
                r is Ok && final(y)@ == self.product(x@)
            } else {
                &&& refused(
                    r,
                    ErrorKind::InvalidArgument,
                    self.shape_message("CsrMatrix::mul_vec"@, x@.len(), old(y)@.len()),
                )
                &&& final(y)@ == old(y)@
            },
    {
        if x.len() != self.pattern.ncols || y.len() != self.pattern.nrows {
            return Err(self.shape_error("CsrMatrix::mul_vec", x.len(), y.len()));
        }
        let n: usize = y.len();
        for i in 0..n
            invariant
                n == y@.len(),
                y@.len() == old(y)@.len(),
                forall|j: int| 0 <= j < i ==> #[trigger] y@[j] == T::zero_val(),
        {
            y[i] = T::zero();
        }
        let ghost start = y@;
        let r = self.mul_vec_add(x, y);
        assert(self.product_added(x@, start) =~= self.product(x@));
        r
    }

    /// `y += A x`.
    pub fn mul_vec_add(&self, x: &[T], y: &mut [T]) -> (r: ReedResult<()>)
        requires
            x@.len() == self.pattern.ncols && old(y)@.len() == self.pattern.nrows
                ==> self.pattern.shaped() && self.values@.len() == self.pattern.col_ind@.len(),
        ensures
            final(y)@.len() == old(y)@.len(),
            if x@.len() == self.pattern.ncols && old(y)@.len() == self.pattern.nrows {
                r is Ok && final(y)@ == self.product_added(x@, old(y)@)
            } else {
                &&& refused(
                    r,
                    ErrorKind::InvalidArgument,
                    self.shape_message("CsrMatrix::mul_vec_add"@, x@.len(), old(y)@.len()),
                )
                &&& final(y)@ == old(y)@
            },
    {
        if x.len() != self.pattern.ncols || y.len() != self.pattern.nrows {
            return Err(self.shape_error("CsrMatrix::mul_vec_add", x.len(), y.len()));
        }
        let nrows: usize = self.pattern.nrows;
        for row in 0..nrows
            invariant
                nrows == self.pattern.nrows,
                self.pattern.shaped(),
                self.values@.len() == self.pattern.col_ind@.len(),
                x@.len() == self.pattern.ncols,
                y@.len() == nrows,
                old(y)@.len() == nrows,
                forall|i: int|
                    0 <= i < row ==> #[trigger] y@[i] == old(y)@[i].plus(self.row_product(i, x@)),
                forall|i: int| row <= i < nrows ==> #[trigger] y@[i] == old(y)@[i],
        {
            let r0: usize = self.pattern.row_ptr[row];
            let r1: usize = self.pattern.row_ptr[row + 1];
            assert(self.pattern.row_ptr@[row + 1] <= self.pattern.row_ptr@[nrows as int]);
            let mut acc = T::zero();
            for k in r0..r1
                invariant
                    self.pattern.shaped(),
                    self.values@.len() == self.pattern.col_ind@.len(),
                    x@.len() == self.pattern.ncols,
                    row < self.pattern.nrows,
                    r0 == self.pattern.row_ptr@[row as int],
                    r0 <= r1 <= self.pattern.col_ind@.len(),
                    acc == sum(k - r0, row_terms(*self, row as int, x@)),
            {
                let col: usize = self.pattern.col_ind[k];
                acc = acc.add(self.values[k].mul(x[col]));
            }
            y[row] = y[row].add(acc);
        }
        assert(y@ =~= self.product_added(x@, old(y)@));
        Ok(())
    }
}

/// Adding to zero changes no sum that starts from zero. This holds in exact arithmetic, and also
/// where sums are rounded to the nearest number: there only a negative zero is changed, and no sum
/// that starts from zero is one.
pub open spec fn zero_keeps_sums<T: Real>() -> bool {
    &&& T::zero_val().plus(T::zero_val()) == T::zero_val()
    &&& forall|a: T, b: T|
        T::zero_val().plus(a) == a ==> #[trigger] T::zero_val().plus(a.plus(b)) == a.plus(b)
}

proof fn lemma_zero_plus_sum<T: Real>(n: int, f: spec_fn(int) -> T)
    requires
        zero_keeps_sums::<T>(),
    ensures
        T::zero_val().plus(sum(n, f)) == sum(n, f),
    decreases n,
{
    if n > 0 {
        lemma_zero_plus_sum(n - 1, f);
        assert(T::zero_val().plus(sum(n - 1, f).plus(f(n - 1))) == sum(n - 1, f).plus(f(n - 1)));
    }
}

/// Adding a product adds, entry by entry, what the product itself is.
pub proof fn law_product_is_added<T: Real>(m: CsrMatrix<T>, x: Seq<T>, y: Seq<T>)
    requires
        zero_keeps_sums::<T>(),
        y.len() == m.pattern.nrows,
    ensures
        m.product_added(x, y).len() == y.len(),
        forall|row: int|
            0 <= row < m.pattern.nrows ==> #[trigger] m.product_added(x, y)[row] == y[row].plus(
                m.product(x)[row],
            ),
{
    assert forall|row: int| 0 <= row < m.pattern.nrows implies #[trigger] m.product_added(x, y)[row]
        == y[row].plus(m.product(x)[row]) by {
        lemma_zero_plus_sum(
            m.pattern.row_ptr@[row + 1] - m.pattern.row_ptr@[row],
            row_terms(m, row, x),
        );
    }
}

/// A row without stored entries keeps its number, unless adding zero changes that number.
pub proof fn law_empty_row_is_kept<T: Real>(m: CsrMatrix<T>, x: Seq<T>, y: Seq<T>, row: int)
    requires
        0 <= row < m.pattern.nrows,
        m.pattern.row_ptr@[row] == m.pattern.row_ptr@[row + 1],
        y[row].plus(T::zero_val()) == y[row],
    ensures
        m.product_added(x, y)[row] == y[row],
{
}

// ── sparsity of element connectivity ────────────────────────────────────────

/// The element-to-global map of an offset table: element `e` holds, for each component `c` and
/// local node `l`, the global degree of freedom `offsets[e * elemsize + l] + c * compstride`.
pub struct OffsetMap {
    pub nelem: int,
    pub elemsize: int,
    pub ncomp: int,
    pub compstride: int,
    pub offsets: Seq<i32>,
}

impl OffsetMap {
    /// Global degree of freedom of component `c` at local node `l` of element `e`.
    pub open spec fn entry(self, e: int, c: int, l: int) -> int {
        self.offsets[e * self.elemsize + l] + c * self.compstride
    }

    /// Element `e` holds the global degree of freedom `g`.
    pub open spec fn touches(self, e: int, g: int) -> bool {
        exists|c: int, l: int|
            0 <= c < self.ncomp && 0 <= l < self.elemsize && #[trigger] self.entry(e, c, l) == g
    }

    /// Some element holds both `i` and `j`.
    pub open spec fn coupled(self, i: int, j: int) -> bool {
        exists|e: int| 0 <= e < self.nelem && #[trigger] self.touches(e, i) && self.touches(e, j)
    }

    /// Number of `(element, component, local)` positions.
    pub open spec fn count(self) -> int {
        self.nelem * self.ncomp * self.elemsize
    }

    /// What is wrong with the position `(e, c, l)`, if anything.
    pub open spec fn fault(self, lsize: int, e: int, c: int, l: int) -> Option<Seq<char>> {
        let base = self.offsets[e * self.elemsize + l] as int;
        if c * self.compstride > usize::MAX {
            Some("csr_sparsity: comp * compstride overflow"@)
        } else if base < 0 {
            Some(
                "csr_sparsity_from_offset_restriction: negative offset "@ + signed_decimal(base)
                    + " at element "@ + decimal(e as nat),
            )
        } else if base + c * self.compstride > usize::MAX {
            Some("csr_sparsity_from_offset_restriction: global index overflow"@)
        } else if base + c * self.compstride >= lsize {
            Some(
                "csr_sparsity_from_offset_restriction: global index "@ + decimal(
                    (base + c * self.compstride) as nat,
                ) + " >= lsize "@ + decimal(lsize as nat),
            )
        } else {
            None
        }
    }

    /// What is wrong at the flat position `t`, positions being numbered by element, then
    /// component, then local node.
    pub open spec fn fault_at(self, lsize: int, t: int) -> Option<Seq<char>> {
        self.fault(
            lsize,
            t / self.elemsize / self.ncomp,
            t / self.elemsize % self.ncomp,
            t % self.elemsize,
        )
    }

    /// `t` is the first faulty position.
    pub open spec fn first_fault(self, lsize: int, t: int) -> bool {
        &&& 0 <= t < self.count()
        &&& self.fault_at(lsize, t) is Some
        &&& forall|s: int| 0 <= s < t ==> #[trigger] self.fault_at(lsize, s) is None
    }

    /// No position is faulty.
    pub open spec fn faultless(self, lsize: int) -> bool {
        forall|t: int| 0 <= t < self.count() ==> #[trigger] self.fault_at(lsize, t) is None
    }
}

/// The product of `a` and `b`, or the largest `usize` where that is smaller.
pub open spec fn saturated_product(a: usize, b: usize) -> int {
    if a * b > usize::MAX {
        usize::MAX as int
    } else {
        a * b
    }
}

fn saturating_product(a: usize, b: usize) -> (r: usize)
    ensures
        r == saturated_product(a, b),
{
    match a.checked_mul(b) {
        Some(r) => r,
        None => usize::MAX,
    }
}

/// Inserts `c` into a strictly increasing row, unless it is there.
fn insert_sorted(row: &mut Vec<usize>, c: usize)
    requires
        increasing(old(row)@, 0, old(row)@.len() as int),
    ensures
        increasing(final(row)@, 0, final(row)@.len() as int),
        forall|x: usize| #[trigger] final(row)@.contains(x) <==> old(row)@.contains(x) || x == c,
{
    let n: usize = row.len();
    let k: usize = lower_bound(row, 0, n, c);
    if k < n && row[k] == c {
        assert(row@[k as int] == c);
        return ;
    }
    let ghost before = row@;
    row.insert(k, c);
    assert(row@ == before.insert(k as int, c));
    assert forall|x: usize| #[trigger] row@.contains(x) <==> before.contains(x) || x == c by {
        if row@.contains(x) {
            let i = choose|i: int| 0 <= i < row@.len() && row@[i] == x;
            if i < k {
                assert(before[i] == x);
            } else if i > k {
                assert(before[i - 1] == x);
            }
        }
        if before.contains(x) {
            let i = choose|i: int| 0 <= i < before.len() && before[i] == x;
            if i < k {
                assert(row@[i] == x);
            } else {
                assert(row@[i + 1] == x);
            }
        }
        assert(row@[k as int] == c);
    }
}

/// Global degrees of freedom of element `elem`, component by component, or the first fault.
fn element_dofs(
    nelem: usize,
    elemsize: usize,
    ncomp: usize,
    compstride: usize,
    lsize: usize,
    offsets: &[i32],
    elem: usize,
) -> (r: ReedResult<Vec<usize>>)
    requires
        elem < nelem,
        elemsize > 0,
        ncomp > 0,
        offsets@.len() == nelem * elemsize,
        nelem * elemsize <= usize::MAX,
    ensures
        ({
            let map = OffsetMap {
                nelem: nelem as int,
                elemsize: elemsize as int,
                ncomp: ncomp as int,
                compstride: compstride as int,
                offsets: offsets@,
            };
            match r {
                Ok(v) => {
                    &&& v@.len() == ncomp * elemsize
                    &&& forall|k: int|
                        0 <= k < v@.len() ==> #[trigger] v@[k] == map.entry(
                            elem as int,
                            k / (elemsize as int),
                            k % (elemsize as int),
                        )
                    &&& forall|k: int|
                        0 <= k < ncomp * elemsize ==> #[trigger] map.fault(
                            lsize as int,
                            elem as int,
                            k / (elemsize as int),
                            k % (elemsize as int),
                        ) is None
                    &&& forall|k: int| 0 <= k < v@.len() ==> #[trigger] v@[k] < lsize
                },
                Err(e) => exists|k: int|
                    {
                        &&& 0 <= k < ncomp * elemsize
                        &&& #[trigger] map.fault(
                            lsize as int,
                            elem as int,
                            k / (elemsize as int),
                            k % (elemsize as int),
                        ) is Some
                        &&& e@ == (
                            ErrorKind::InvalidArgument,
                            map.fault(
                                lsize as int,
                                elem as int,
                                k / (elemsize as int),
                                k % (elemsize as int),
                            )->0,
                        )
                        &&& forall|j: int|
                            0 <= j < k ==> #[trigger] map.fault(
                                lsize as int,
                                elem as int,
                                j / (elemsize as int),
                                j % (elemsize as int),
                            ) is None
                    },
            }
        }),
{
    let ghost es = elemsize as int;
    let ghost map = OffsetMap {
        nelem: nelem as int,
        elemsize: elemsize as int,
        ncomp: ncomp as int,
        compstride: compstride as int,
        offsets: offsets@,
    };
    let mut indices: Vec<usize> = Vec::new();
    proof {
        lemma_flat(elem as int, nelem as int, 0, es);
        assert(0 * es == 0);
    }
    let start: usize = elem * elemsize;
    for comp in 0..ncomp
        invariant
            es == elemsize,
            elemsize > 0,
            elem < nelem,
            offsets@.len() == nelem * elemsize,
            nelem * elemsize <= usize::MAX,
            start == elem * elemsize,
            map == (OffsetMap {
                nelem: nelem as int,
                elemsize: elemsize as int,
                ncomp: ncomp as int,
                compstride: compstride as int,
                offsets: offsets@,
            }),
            indices@.len() == comp * es,
            forall|k: int|
                0 <= k < comp * es ==> #[trigger] indices@[k] == map.entry(
                    elem as int,
                    k / es,
                    k % es,
                ) && indices@[k] < lsize,
            forall|k: int|
                0 <= k < comp * es ==> #[trigger] map.fault(
                    lsize as int,
                    elem as int,
                    k / es,
                    k % es,
                ) is None,
    {
        assert(comp * es + es == (comp + 1) * es) by (nonlinear_arith);
        let comp_base: usize = match comp.checked_mul(compstride) {
            Some(b) => b,
            None => {
                proof {
                    lemma_flat(comp as int, ncomp as int, 0, es);
                    let k = comp * es + 0;
                    assert(map.fault(lsize as int, elem as int, k / es, k % es) is Some);
                }
                return Err(
                    ReedError::InvalidArgument(
                        Message::new("csr_sparsity: comp * compstride overflow").done(),
                    ),
                );
            },
        };
        for local in 0..elemsize
            invariant
                es == elemsize,
                elemsize > 0,
                elem < nelem,
                comp < ncomp,
                offsets@.len() == nelem * elemsize,
                nelem * elemsize <= usize::MAX,
                start == elem * elemsize,
                comp_base == comp * compstride,
                map == (OffsetMap {
                    nelem: nelem as int,
                    elemsize: elemsize as int,
                    ncomp: ncomp as int,
                    compstride: compstride as int,
                    offsets: offsets@,
                }),
                indices@.len() == comp * es + local,
                forall|k: int|
                    0 <= k < comp * es + local ==> #[trigger] indices@[k] == map.entry(
                        elem as int,
                        k / es,
                        k % es,
                    ) && indices@[k] < lsize,
                forall|k: int|
                    0 <= k < comp * es + local ==> #[trigger] map.fault(
                        lsize as int,
                        elem as int,
                        k / es,
                        k % es,
                    ) is None,
        {
            let ghost k = comp * es + local;
            proof {
                lemma_flat(elem as int, nelem as int, local as int, es);
                lemma_flat(comp as int, ncomp as int, local as int, es);
                assert(k / es == comp && k % es == local);
            }
            let base: i32 = offsets[start + local];
            if base < 0 {
                proof {
                    assert(map.fault(lsize as int, elem as int, k / es, k % es) is Some);
                }
                return Err(
                    ReedError::InvalidArgument(
                        Message::new(
                            "csr_sparsity_from_offset_restriction: negative offset ",
                        ).signed(base as i64).text(" at element ").num(elem).done(),
                    ),
                );
            }
            let g: usize = match (base as usize).checked_add(comp_base) {
                Some(g) => g,
                None => {
                    proof {
                        assert(map.fault(lsize as int, elem as int, k / es, k % es) is Some);
                    }
                    return Err(
                        ReedError::InvalidArgument(
                            Message::new(
                                "csr_sparsity_from_offset_restriction: global index overflow",
                            ).done(),
                        ),
                    );
                },
            };
            if g >= lsize {
                proof {
                    assert(map.fault(lsize as int, elem as int, k / es, k % es) is Some);
                }
                return Err(
                    ReedError::InvalidArgument(
                        Message::new("csr_sparsity_from_offset_restriction: global index ").num(
                            g,
                        ).text(" >= lsize ").num(lsize).done(),
                    ),
                );
            }
            indices.push(g);
        }
    }
    Ok(indices)
}

/// Copies sorted rows into CSR storage.
fn pattern_from_rows(rows: &Vec<Vec<usize>>, n: usize) -> (p: CsrPattern)
    requires
        rows@.len() == n,
        forall|r: int|
            0 <= r < n ==> increasing(#[trigger] rows@[r]@, 0, rows@[r]@.len() as int),
        forall|r: int, k: int| 0 <= r < n && 0 <= k < rows@[r]@.len() ==> #[trigger] rows@[r]@[k] < n,
    ensures
        p.nrows == n,
        p.ncols == n,
        p.row_ptr@[0] == 0,
        p.wf(),
        forall|i: int, j: int|
            #![trigger p.has(i, j)]
            p.has(i, j) <==> 0 <= i < n && 0 <= j <= usize::MAX && rows@[i]@.contains(j as usize),
{
    let mut row_ptr: Vec<usize> = Vec::new();
    let mut col_ind: Vec<usize> = Vec::new();
    row_ptr.push(0);
    for r in 0..n
        invariant
            rows@.len() == n,
            forall|i: int, k: int|
                0 <= i < n && 0 <= k < rows@[i]@.len() ==> #[trigger] rows@[i]@[k] < n,
            row_ptr@.len() == r + 1,
            row_ptr@[0] == 0,
            row_ptr@[r as int] == col_ind@.len(),
            forall|i: int, j: int|
                0 <= i <= j <= r ==> #[trigger] row_ptr@[i] <= #[trigger] row_ptr@[j],
            forall|i: int|
                #![trigger rows@[i]]
                0 <= i < r ==> row_ptr@[i + 1] == row_ptr@[i] + rows@[i]@.len(),
            forall|i: int, k: int|
                0 <= i < r && 0 <= k < rows@[i]@.len() ==> col_ind@[row_ptr@[i] + k]
                    == #[trigger] rows@[i]@[k],
            forall|k: int| 0 <= k < col_ind@.len() ==> #[trigger] col_ind@[k] < n,
    {
        let ghost start = col_ind@.len();
        let ghost before = col_ind@;
        let m: usize = rows[r].len();
        for k in 0..m
            invariant
                r < n,
                rows@.len() == n,
                m == rows@[r as int]@.len(),
                start == before.len(),
                forall|i: int, j: int|
                    0 <= i < n && 0 <= j < rows@[i]@.len() ==> #[trigger] rows@[i]@[j] < n,
                col_ind@.len() == start + k,
                forall|i: int| 0 <= i < start ==> #[trigger] col_ind@[i] == before[i],
                forall|i: int|
                    0 <= i < k ==> col_ind@[start + i] == #[trigger] rows@[r as int]@[i],
                forall|i: int| 0 <= i < col_ind@.len() ==> #[trigger] col_ind@[i] < n,
        {
            col_ind.push(rows[r][k]);
        }
        let end: usize = col_ind.len();
        row_ptr.push(end);
        assert forall|i: int, k: int| 0 <= i < r + 1 && 0 <= k < rows@[i]@.len() implies col_ind@[
            row_ptr@[i] + k
        ] == #[trigger] rows@[i]@[k] by {
            if i < r {
                assert(row_ptr@[i + 1] == row_ptr@[i] + rows@[i]@.len());
                assert(row_ptr@[i + 1] <= row_ptr@[r as int]);
                assert(col_ind@[row_ptr@[i] + k] == before[row_ptr@[i] + k]);
            }
        }
    }
    let p = CsrPattern { nrows: n, ncols: n, row_ptr, col_ind };
    assert forall|r: int| 0 <= r < p.nrows implies #[trigger] p.row_sorted(r) by {
        let lo = p.row_ptr@[r] as int;
        let hi = p.row_ptr@[r + 1] as int;
        assert(increasing(rows@[r]@, 0, rows@[r]@.len() as int));
        assert forall|a: int, b: int| lo <= a < b < hi implies p.col_ind@[a] < p.col_ind@[b] by {
            assert(rows@[r]@[a - lo] < rows@[r]@[b - lo]);
        }
    }
    assert forall|i: int, j: int|
        #![trigger p.has(i, j)]
        p.has(i, j) <==> 0 <= i < n && 0 <= j <= usize::MAX && rows@[i]@.contains(j as usize) by {
        if p.has(i, j) {
            let k = choose|k: int| p.stores(i, j, k);
            assert(rows@[i]@[k - p.row_ptr@[i]] == j);
        }
        if 0 <= i < n && 0 <= j <= usize::MAX && rows@[i]@.contains(j as usize) {
            let k = choose|k: int| 0 <= k < rows@[i]@.len() && rows@[i]@[k] == j as usize;
            assert(p.col_ind@[p.row_ptr@[i] + k] == rows@[i]@[k]);
            assert(p.stores(i, j, p.row_ptr@[i] + k));
        }
    }
    p
}

/// Couples every pair of an element's degrees of freedom.
fn couple_element(rows: &mut Vec<Vec<usize>>, dofs: &Vec<usize>, n: usize)
    requires
        old(rows)@.len() == n,
        forall|k: int| 0 <= k < dofs@.len() ==> #[trigger] dofs@[k] < n,
        forall|r: int|
            0 <= r < n ==> increasing(#[trigger] old(rows)@[r]@, 0, old(rows)@[r]@.len() as int),
    ensures
        final(rows)@.len() == n,
        forall|r: int|
            0 <= r < n ==> increasing(#[trigger] final(rows)@[r]@, 0, final(rows)@[r]@.len() as int),
        forall|r: int, c: usize|
            0 <= r < n ==> (#[trigger] final(rows)@[r]@.contains(c) <==> old(rows)@[r]@.contains(c)
                || (dofs@.contains(r as usize) && dofs@.contains(c))),
{
    let m: usize = dofs.len();
    for a in 0..m
        invariant
            m == dofs@.len(),
            rows@.len() == n,
            old(rows)@.len() == n,
            forall|k: int| 0 <= k < dofs@.len() ==> #[trigger] dofs@[k] < n,
            forall|r: int|
                0 <= r < n ==> increasing(#[trigger] rows@[r]@, 0, rows@[r]@.len() as int),
            forall|r: int, c: usize|
                0 <= r < n ==> (#[trigger] rows@[r]@.contains(c) <==> old(rows)@[r]@.contains(c) || (
                dofs@.take(a as int).contains(r as usize) && dofs@.contains(c))),
    {
        let gi: usize = dofs[a];
        let ghost before = rows@;
        for b in 0..m
            invariant
                m == dofs@.len(),
                gi < n,
                rows@.len() == n,
                before.len() == n,
                forall|k: int| 0 <= k < dofs@.len() ==> #[trigger] dofs@[k] < n,
                forall|r: int|
                    0 <= r < n ==> increasing(#[trigger] rows@[r]@, 0, rows@[r]@.len() as int),
                forall|r: int, c: usize|
                    0 <= r < n ==> (#[trigger] rows@[r]@.contains(c) <==> before[r]@.contains(c) || (
                    r == gi && dofs@.take(b as int).contains(c))),
        {
            let gj: usize = dofs[b];
            let ghost earlier = rows@;
            insert_sorted(&mut rows[gi], gj);
            proof {
                lemma_take_contains(dofs@, b as int);
                assert forall|r: int, c: usize| 0 <= r < n implies (#[trigger] rows@[r]@.contains(c)
                    <==> before[r]@.contains(c) || (r == gi && dofs@.take(b + 1).contains(c))) by {
                    assert(rows@[r]@.contains(c) <==> earlier[r]@.contains(c) || (r == gi && c
                        == gj));
                    assert(earlier[r]@.contains(c) <==> before[r]@.contains(c) || (r == gi
                        && dofs@.take(b as int).contains(c)));
                }
            }
        }
        proof {
            lemma_take_contains(dofs@, a as int);
            assert(dofs@.take(m as int) =~= dofs@);
        }
    }
    proof {
        assert(dofs@.take(m as int) =~= dofs@);
    }
}

/// A prefix one longer contains one element more.
proof fn lemma_take_contains(s: Seq<usize>, k: int)
    requires
        0 <= k < s.len(),
    ensures
        forall|x: usize| #[trigger] s.take(k + 1).contains(x) <==> s.take(k).contains(x) || x == s[k],
{
    let short = s.take(k);
    let long = s.take(k + 1);
    assert forall|x: usize| #[trigger] long.contains(x) <==> short.contains(x) || x == s[k] by {
        if long.contains(x) {
            let i = choose|i: int| 0 <= i < long.len() && long[i] == x;
            if i < k {
                assert(short[i] == x);
            }
        }
        if short.contains(x) {
            let i = choose|i: int| 0 <= i < short.len() && short[i] == x;
            assert(long[i] == x);
        }
        assert(long[k] == s[k]);
    }
}

/// The message that reports an offset table of the wrong length.
pub open spec fn offsets_length_message(len: nat, nelem: usize, elemsize: usize) -> Seq<char> {
    "csr_sparsity_from_offset_restriction: offsets.len "@ + decimal(len) + " != nelem*elemsize "@
        + decimal(saturated_product(nelem, elemsize) as nat)
}

/// What building the sparsity pattern of an offset table gives.
///
/// The table is refused when `ncomp` or `elemsize` is zero, when its length is not
/// `nelem * elemsize`, and otherwise for its first faulty position. Without a fault the result is
/// the sorted pattern on `0..lsize` that couples `i` and `j` exactly when some element holds both.
pub open spec fn sparsity_outcome(
    nelem: usize,
    elemsize: usize,
    ncomp: usize,
    compstride: usize,
    lsize: usize,
    offsets: Seq<i32>,
    r: ReedResult<CsrPattern>,
) -> bool {
    let map = OffsetMap {
        nelem: nelem as int,
        elemsize: elemsize as int,
        ncomp: ncomp as int,
        compstride: compstride as int,
        offsets,
    };
    if ncomp == 0 || elemsize == 0 {
        refused(
            r,
            ErrorKind::InvalidArgument,
            "csr_sparsity_from_offset_restriction: ncomp and elemsize must be positive"@,
        )
    } else if offsets.len() != saturated_product(nelem, elemsize) {
        refused(
            r,
            ErrorKind::InvalidArgument,
            offsets_length_message(offsets.len(), nelem, elemsize),
        )
    } else {
        match r {
            Ok(p) => {
                &&& map.faultless(lsize as int)
                &&& p.nrows == lsize
                &&& p.ncols == lsize
                &&& p.row_ptr@[0] == 0
                &&& p.wf()
                &&& forall|i: int, j: int| #[trigger] p.has(i, j) <==> map.coupled(i, j)
            },
            Err(e) => exists|t: int| #[trigger]
                map.first_fault(lsize as int, t) && e@ == (
                    ErrorKind::InvalidArgument,
                    map.fault_at(lsize as int, t)->0,
                ),
        }
    }
}

/// Builds the finite-element sparsity pattern on `0..lsize`: `i` and `j` are coupled exactly when
/// some element holds both of them.
pub fn csr_sparsity_from_offset_restriction(
    nelem: usize,
    elemsize: usize,
    ncomp: usize,
    compstride: usize,
    lsize: usize,
    offsets: &[i32],
) -> (r: ReedResult<CsrPattern>)
    requires
        nelem * elemsize > usize::MAX ==> offsets@.len() < usize::MAX,
    ensures
        sparsity_outcome(nelem, elemsize, ncomp, compstride, lsize, offsets@, r),
{
    if ncomp == 0 || elemsize == 0 {
        return Err(
            ReedError::InvalidArgument(
                Message::new(
                    "csr_sparsity_from_offset_restriction: ncomp and elemsize must be positive",
                ).done(),
            ),
        );
    }
    let expected: usize = saturating_product(nelem, elemsize);
    if offsets.len() != expected {
        return Err(
            ReedError::InvalidArgument(
                Message::new("csr_sparsity_from_offset_restriction: offsets.len ").num(
                    offsets.len(),
                ).text(" != nelem*elemsize ").num(expected).done(),
            ),
        );
    }
    let ghost map = OffsetMap {
        nelem: nelem as int,
        elemsize: elemsize as int,
        ncomp: ncomp as int,
        compstride: compstride as int,
        offsets: offsets@,
    };
    let ghost es = elemsize as int;
    let ghost nc = ncomp as int;
    let mut rows: Vec<Vec<usize>> = Vec::new();
    for r in 0..lsize
        invariant
            rows@.len() == r,
            forall|i: int| 0 <= i < r ==> (#[trigger] rows@[i])@ == Seq::<usize>::empty(),
    {
        rows.push(Vec::new());
    }
    proof {
        assert(0 * nc * es == 0) by (nonlinear_arith);
    }
    for elem in 0..nelem
        invariant
            nc == ncomp,
            es == elemsize,
            nc > 0,
            es > 0,
            offsets@.len() == nelem * elemsize,
            offsets@.len() <= usize::MAX,
            map == (OffsetMap {
                nelem: nelem as int,
                elemsize: elemsize as int,
                ncomp: ncomp as int,
                compstride: compstride as int,
                offsets: offsets@,
            }),
            rows@.len() == lsize,
            forall|r: int|
                0 <= r < lsize ==> increasing(#[trigger] rows@[r]@, 0, rows@[r]@.len() as int),
            forall|r: int, c: usize|
                0 <= r < lsize ==> (#[trigger] rows@[r]@.contains(c) <==> (exists|e: int|
                    0 <= e < elem && #[trigger] map.touches(e, r) && map.touches(e, c as int))),
            forall|e: int, g: int| 0 <= e < elem && #[trigger] map.touches(e, g) ==> 0 <= g < lsize,
            forall|t: int|
                0 <= t < elem * nc * es ==> #[trigger] map.fault_at(lsize as int, t) is None,
    {
        let ghost before = rows@;
        match element_dofs(nelem, elemsize, ncomp, compstride, lsize, offsets, elem) {
            Ok(dofs) => {
                couple_element(&mut rows, &dofs, lsize);
                proof {
                    lemma_element_dofs(map, lsize as int, elem as int, dofs@);
                    assert forall|t: int| 0 <= t < (elem + 1) * nc * es implies #[trigger] map.fault_at(
                        lsize as int,
                        t,
                    ) is None by {
                        if t >= elem * nc * es {
                            lemma_elem_position(t, elem as int, nc, es);
                            let k = t - elem * nc * es;
                            assert(map.fault(lsize as int, elem as int, k / es, k % es) is None);
                        }
                    }
                    assert forall|r: int, c: usize| 0 <= r < lsize implies (
                    #[trigger] rows@[r]@.contains(c) <==> (exists|e: int|
                        0 <= e < elem + 1 && #[trigger] map.touches(e, r) && map.touches(
                            e,
                            c as int,
                        ))) by {
                        assert(rows@[r]@.contains(c) <==> before[r]@.contains(c) || (dofs@.contains(
                            r as usize,
                        ) && dofs@.contains(c)));
                        assert(dofs@.contains(r as usize) <==> map.touches(elem as int, r));
                        assert(dofs@.contains(c) <==> map.touches(elem as int, c as int));
                    }
                }
            },
            Err(err) => {
                proof {
                    let k = choose|k: int|
                        {
                            &&& 0 <= k < ncomp * elemsize
                            &&& #[trigger] map.fault(lsize as int, elem as int, k / es, k % es) is Some
                            &&& err@ == (
                                ErrorKind::InvalidArgument,
                                map.fault(lsize as int, elem as int, k / es, k % es)->0,
                            )
                            &&& forall|j: int|
                                0 <= j < k ==> #[trigger] map.fault(
                                    lsize as int,
                                    elem as int,
                                    j / es,
                                    j % es,
                                ) is None
                        };
                    let t = elem * nc * es + k;
                    lemma_elem_bound(elem as int, nelem as int, k, nc, es);
                    lemma_elem_position(t, elem as int, nc, es);
                    assert forall|s: int| 0 <= s < t implies #[trigger] map.fault_at(
                        lsize as int,
                        s,
                    ) is None by {
                        if s >= elem * nc * es {
                            lemma_elem_position(s, elem as int, nc, es);
                            let j = s - elem * nc * es;
                            assert(map.fault(lsize as int, elem as int, j / es, j % es) is None);
                        }
                    }
                    assert(map.first_fault(lsize as int, t));
                }
                return Err(err);
            },
        }
    }
    proof {
        assert forall|r: int, k: int| 0 <= r < lsize && 0 <= k < rows@[r]@.len() implies #[trigger] rows@[r]@[k]
            < lsize by {
            assert(rows@[r]@.contains(rows@[r]@[k]));
        }
    }
    let p = pattern_from_rows(&rows, lsize);
    proof {
        assert forall|i: int, j: int| #[trigger] p.has(i, j) <==> map.coupled(i, j) by {
            if map.coupled(i, j) {
                let e = choose|e: int|
                    0 <= e < map.nelem && #[trigger] map.touches(e, i) && map.touches(e, j);
                assert(0 <= i < lsize && 0 <= j < lsize);
                assert(rows@[i]@.contains(j as usize));
            }
        }
    }
    Ok(p)
}

/// Position `t` inside element `e` splits into `e` and the position within the element.
proof fn lemma_elem_position(t: int, e: int, nc: int, es: int)
    requires
        0 <= e,
        0 < nc,
        0 < es,
        e * nc * es <= t < (e + 1) * nc * es,
    ensures
        0 <= t - e * nc * es < nc * es,
        t / es / nc == e,
        t / es % nc == (t - e * nc * es) / es,
        t % es == (t - e * nc * es) % es,
{
    let k = t - e * nc * es;
    assert((e + 1) * nc * es == e * nc * es + nc * es) by (nonlinear_arith);
    lemma_split(k, nc, es);
    let c = k / es;
    let l = k % es;
    lemma_flat3(e, e + 1, c, nc, l, es);
    assert(t == (e * nc + c) * es + l) by (nonlinear_arith)
        requires
            t == e * nc * es + k,
            k == c * es + l,
    ;
}

/// Positions within element `e` come before those of the next element.
proof fn lemma_elem_bound(e: int, nelem: int, k: int, nc: int, es: int)
    requires
        0 <= e < nelem,
        0 < nc,
        0 < es,
        0 <= k < nc * es,
    ensures
        0 <= e * nc * es,
        e * nc * es + k < (e + 1) * nc * es <= nelem * nc * es,
{
    assert(0 <= e * nc * es) by (nonlinear_arith)
        requires
            0 <= e,
            0 < nc,
            0 < es,
    ;
    assert((e + 1) * nc * es == e * nc * es + nc * es) by (nonlinear_arith);
    assert((e + 1) * nc * es <= nelem * nc * es) by (nonlinear_arith)
        requires
            e + 1 <= nelem,
            0 < nc,
            0 < es,
    ;
}

/// The collected degrees of freedom of an element are those it touches.
proof fn lemma_element_dofs(map: OffsetMap, lsize: int, e: int, dofs: Seq<usize>)
    requires
        map.elemsize > 0,
        map.ncomp > 0,
        dofs.len() == map.ncomp * map.elemsize,
        forall|k: int|
            0 <= k < dofs.len() ==> #[trigger] dofs[k] == map.entry(
                e,
                k / map.elemsize,
                k % map.elemsize,
            ) && dofs[k] < lsize,
    ensures
        forall|g: usize| #[trigger] dofs.contains(g) <==> map.touches(e, g as int),
        forall|g: int| #[trigger] map.touches(e, g) ==> 0 <= g < lsize && g <= usize::MAX,
{
    assert forall|g: int| #[trigger] map.touches(e, g) implies 0 <= g < lsize && g <= usize::MAX
        && dofs.contains(g as usize) by {
        let (c, l) = choose|c: int, l: int|
            0 <= c < map.ncomp && 0 <= l < map.elemsize && #[trigger] map.entry(e, c, l) == g;
        lemma_flat(c, map.ncomp, l, map.elemsize);
        assert(dofs[c * map.elemsize + l] == g);
    }
    assert forall|g: usize| #[trigger] dofs.contains(g) implies map.touches(e, g as int) by {
        let k = choose|k: int| 0 <= k < dofs.len() && dofs[k] == g;
        lemma_split(k, map.ncomp, map.elemsize);
        assert(map.entry(e, k / map.elemsize, k % map.elemsize) == g);
    }
}

/// The sparsity pattern of scalar nodes: one component, unit stride.
pub fn csr_sparsity_from_offset_lnodes(
    nelem: usize,
    elemsize: usize,
    lsize: usize,
    offsets: &[i32],
) -> (r: ReedResult<CsrPattern>)
    requires
        nelem * elemsize > usize::MAX ==> offsets@.len() < usize::MAX,
    ensures
        sparsity_outcome(nelem, elemsize, 1, 1, lsize, offsets@, r),
{
    csr_sparsity_from_offset_restriction(nelem, elemsize, 1, 1, lsize, offsets)
}

// ── laws ────────────────────────────────────────────────────────────────────

/// A well-formed pattern stores each entry once: the storage position of `(row, col)` is unique.
pub proof fn law_entry_position_is_unique(p: CsrPattern, row: int, col: int, j: int, k: int)
    requires
        p.wf(),
        p.stores(row, col, j),
        p.stores(row, col, k),
    ensures
        j == k,
{
    assert(p.row_sorted(row));
    if j < k {
        assert(p.col_ind@[j] < p.col_ind@[k]);
    } else if k < j {
        assert(p.col_ind@[k] < p.col_ind@[j]);
    }
}

/// Coupling is symmetric, so the sparsity pattern of an offset table is symmetric.
pub proof fn law_sparsity_is_symmetric(
    nelem: usize,
    elemsize: usize,
    ncomp: usize,
    compstride: usize,
    lsize: usize,
    offsets: Seq<i32>,
    p: CsrPattern,
    i: int,
    j: int,
)
    requires
        ncomp > 0 && elemsize > 0,
        offsets.len() == saturated_product(nelem, elemsize),
        sparsity_outcome(nelem, elemsize, ncomp, compstride, lsize, offsets, Ok(p)),
    ensures
        p.has(i, j) == p.has(j, i),
{
    let map = OffsetMap {
        nelem: nelem as int,
        elemsize: elemsize as int,
        ncomp: ncomp as int,
        compstride: compstride as int,
        offsets,
    };
    assert(p.has(i, j) <==> map.coupled(i, j));
    assert(p.has(j, i) <==> map.coupled(j, i));
    if map.coupled(i, j) {
        let e = choose|e: int| 0 <= e < map.nelem && #[trigger] map.touches(e, i) && map.touches(e, j);
        assert(map.touches(e, j) && map.touches(e, i));
    }
    if map.coupled(j, i) {
        let e = choose|e: int| 0 <= e < map.nelem && #[trigger] map.touches(e, j) && map.touches(e, i);
        assert(map.touches(e, i) && map.touches(e, j));
    }
}

/// Every degree of freedom that some element holds has its diagonal entry, and no other row has
/// any entry.
pub proof fn law_sparsity_has_diagonal(
    nelem: usize,
    elemsize: usize,
    ncomp: usize,
    compstride: usize,
    lsize: usize,
    offsets: Seq<i32>,
    p: CsrPattern,
    i: int,
)
    requires
        ncomp > 0 && elemsize > 0,
        offsets.len() == saturated_product(nelem, elemsize),
        sparsity_outcome(nelem, elemsize, ncomp, compstride, lsize, offsets, Ok(p)),
    ensures
        p.has(i, i) <==> exists|j: int| p.has(i, j),
        p.has(i, i) <==> exists|e: int|
            0 <= e < nelem && #[trigger] (OffsetMap {
                nelem: nelem as int,
                elemsize: elemsize as int,
                ncomp: ncomp as int,
                compstride: compstride as int,
                offsets,
            }).touches(e, i),
{
    let map = OffsetMap {
        nelem: nelem as int,
        elemsize: elemsize as int,
        ncomp: ncomp as int,
        compstride: compstride as int,
        offsets,
    };
    assert(p.has(i, i) <==> map.coupled(i, i));
    if exists|j: int| p.has(i, j) {
        let j = choose|j: int| p.has(i, j);
        assert(map.coupled(i, j));
        let e = choose|e: int| 0 <= e < map.nelem && #[trigger] map.touches(e, i) && map.touches(e, j);
        assert(map.touches(e, i));
        assert(map.coupled(i, i));
    }
    if exists|e: int| 0 <= e < nelem && #[trigger] map.touches(e, i) {
        let e = choose|e: int| 0 <= e < nelem && #[trigger] map.touches(e, i);
        assert(map.touches(e, i));
        assert(map.coupled(i, i));
    }
}

} // verus!
