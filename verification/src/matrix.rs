//! Matrix handles for assembled operators.

use vstd::prelude::*;

use crate::csr::{CsrMatrix, CsrPattern};
use crate::error::{ErrorKind, ReedError, ReedResult};
#[allow(unused_imports)]
use crate::error::refused;
use crate::scalar::{zeros, Real};
use crate::text::Message;
#[allow(unused_imports)]
use crate::text::decimal;

verus! {

/// Storage behind a matrix handle.
#[derive(Clone, Debug, PartialEq)]
pub enum CeedMatrixStorage<T> {
    DenseColMajor { nrows: usize, ncols: usize, values: Vec<T> },
    Csr(CsrMatrix<T>),
}

impl<T> CeedMatrixStorage<T> {
    /// The stored numbers.
    pub open spec fn numbers(&self) -> Seq<T> {
        match *self {
            CeedMatrixStorage::DenseColMajor { values, .. } => values@,
            CeedMatrixStorage::Csr(m) => m.values@,
        }
    }

    /// The two storages have the same structure: shape and, if sparse, sparsity.
    pub open spec fn same_structure(&self, other: &CeedMatrixStorage<T>) -> bool {
        &&& self.numbers().len() == other.numbers().len()
        &&& match (*self, *other) {
            (
                CeedMatrixStorage::DenseColMajor { nrows: a, ncols: b, .. },
                CeedMatrixStorage::DenseColMajor { nrows: c, ncols: d, .. },
            ) => a == c && b == d,
            (CeedMatrixStorage::Csr(a), CeedMatrixStorage::Csr(b)) => a.pattern == b.pattern,
            _ => false,
        }
    }
}

/// A matrix handle: storage, and whether structure and numbers are ready.
#[derive(Clone, Debug, PartialEq)]
pub struct CeedMatrix<T> {
    storage: CeedMatrixStorage<T>,
    symbolic_done: bool,
    numeric_done: bool,
}

/// Why a dense addition is refused, if it is.
pub open spec fn add_refusal<T>(
    storage: CeedMatrixStorage<T>,
    nrows: usize,
    ncols: usize,
    len: nat,
) -> Option<Seq<char>> {
    match storage {
        CeedMatrixStorage::DenseColMajor { nrows: mr, ncols: mc, values } => if mr != nrows || mc
            != ncols {
            Some(
                "dense shape mismatch: matrix is "@ + decimal(mr as nat) + "x"@ + decimal(mc as nat)
                    + ", add is "@ + decimal(nrows as nat) + "x"@ + decimal(ncols as nat),
            )
        } else if len != values@.len() {
            Some(
                "dense value length mismatch: matrix "@ + decimal(values@.len()) + ", add "@
                    + decimal(len),
            )
        } else {
            None
        },
        CeedMatrixStorage::Csr(_) => Some("add_dense_col_major on CSR matrix"@),
    }
}

impl<T> CeedMatrix<T> {
    /// The storage.
    pub closed spec fn stored(&self) -> CeedMatrixStorage<T> {
        self.storage
    }

    /// The structure is ready.
    pub closed spec fn symbolic(&self) -> bool {
        self.symbolic_done
    }

    /// The numbers are ready.
    pub closed spec fn numeric(&self) -> bool {
        self.numeric_done
    }

    /// Whether the structure is ready.
    pub fn symbolic_done(&self) -> (b: bool)
        ensures
            b == self.symbolic(),
    {
        self.symbolic_done
    }

    /// Whether the numbers are ready.
    pub fn numeric_done(&self) -> (b: bool)
        ensures
            b == self.numeric(),
    {
        self.numeric_done
    }

    /// The storage.
    pub fn storage(&self) -> (s: &CeedMatrixStorage<T>)
        ensures
            *s == self.stored(),
    {
        &self.storage
    }

    /// The storage, for writing. The readiness flags stay.
    pub fn storage_mut(&mut self) -> (s: &mut CeedMatrixStorage<T>)
        ensures
            *s == old(self).stored(),
            final(self).stored() == *final(s),
            final(self).symbolic() == old(self).symbolic(),
            final(self).numeric() == old(self).numeric(),
    {
        &mut self.storage
    }

    /// Sets whether the numbers are ready.
    pub fn mark_numeric_done(&mut self, done: bool)
        ensures
            final(self).numeric() == done,
            final(self).stored() == old(self).stored(),
            final(self).symbolic() == old(self).symbolic(),
    {
        self.numeric_done = done;
    }
}

impl<T: Real> CeedMatrix<T> {
    /// A zero dense matrix, columns one after the other.
    pub fn dense_col_major_symbolic(nrows: usize, ncols: usize) -> (r: ReedResult<Self>)
        ensures
            if nrows * ncols > usize::MAX {
                refused(r, ErrorKind::InvalidArgument, "dense matrix size overflow"@)
            } else {
                &&& r matches Ok(m)
                &&& m.symbolic()
                &&& !m.numeric()
                &&& m.stored() matches CeedMatrixStorage::DenseColMajor {
                    nrows: mr,
                    ncols: mc,
                    values,
                }
                &&& mr == nrows
                &&& mc == ncols
                &&& values@ == Seq::new((nrows * ncols) as nat, |i: int| T::zero_val())
            },
    {
        match nrows.checked_mul(ncols) {
            Some(len) => Ok(
                CeedMatrix {
                    storage: CeedMatrixStorage::DenseColMajor { nrows, ncols, values: zeros(len) },
                    symbolic_done: true,
                    numeric_done: false,
                },
            ),
            None => Err(
                ReedError::InvalidArgument(Message::new("dense matrix size overflow").done()),
            ),
        }
    }

    /// A zero sparse matrix with the given sparsity.
    pub fn csr_symbolic(pattern: CsrPattern) -> (m: Self)
        ensures
            m.symbolic(),
            !m.numeric(),
            m.stored() matches CeedMatrixStorage::Csr(c) && c.pattern == pattern && c.values@
                == Seq::new(pattern.col_ind@.len(), |i: int| T::zero_val()),
    {
        let nnz: usize = pattern.nnz();
        CeedMatrix {
            storage: CeedMatrixStorage::Csr(CsrMatrix { pattern, values: zeros(nnz) }),
            symbolic_done: true,
            numeric_done: false,
        }
    }

    /// Sets all numbers to zero; they then count as not ready.
    pub fn clear_numeric_values(&mut self)
        ensures
            final(self).stored().same_structure(&old(self).stored()),
            final(self).stored().numbers() == Seq::new(
                old(self).stored().numbers().len(),
                |i: int| T::zero_val(),
            ),
            !final(self).numeric(),
            final(self).symbolic() == old(self).symbolic(),
    {
        match &mut self.storage {
            CeedMatrixStorage::DenseColMajor { values, .. } => {
                let n: usize = values.len();
                *values = zeros(n);
            },
            CeedMatrixStorage::Csr(m) => {
                let n: usize = m.values.len();
                m.values = zeros(n);
            },
        }
        self.numeric_done = false;
    }

    /// Adds the numbers `a` of a dense matrix of the same shape; the numbers are then ready.
    pub fn add_dense_col_major(&mut self, nrows: usize, ncols: usize, a: &[T]) -> (r: ReedResult<
        (),
    >)
        ensures
            final(self).stored().same_structure(&old(self).stored()),
            final(self).symbolic() == old(self).symbolic(),
            match add_refusal(old(self).stored(), nrows, ncols, a@.len()) {
                Some(m) => {
                    &&& refused(r, ErrorKind::InvalidArgument, m)
                    &&& *final(self) == *old(self)
                },
                None => {
                    &&& r is Ok
                    &&& final(self).numeric()
                    &&& final(self).stored().numbers() == Seq::new(
                        a@.len(),
                        |i: int| old(self).stored().numbers()[i].plus(a@[i]),
                    )
                },
            },
    {
        let ghost before = self.storage.numbers();
        match &mut self.storage {
            CeedMatrixStorage::DenseColMajor { nrows: mr, ncols: mc, values } => {
                if *mr != nrows || *mc != ncols {
                    let (h, w): (usize, usize) = (*mr, *mc);
                    return Err(
                        ReedError::InvalidArgument(
                            Message::new("dense shape mismatch: matrix is ").num(h).text("x").num(
                                w,
                            ).text(", add is ").num(nrows).text("x").num(ncols).done(),
                        ),
                    );
                }
                if a.len() != values.len() {
                    return Err(
                        ReedError::InvalidArgument(
                            Message::new("dense value length mismatch: matrix ").num(
                                values.len(),
                            ).text(", add ").num(a.len()).done(),
                        ),
                    );
                }
                let mut total: Vec<T> = Vec::new();
                for i in 0..a.len()
                    invariant
                        before == values@,
                        a@.len() == values@.len(),
                        total@.len() == i,
                        forall|k: int|
                            0 <= k < i ==> #[trigger] total@[k] == before[k].plus(a@[k]),
                {
                    total.push(values[i].add(a[i]));
                }
                assert(total@ =~= Seq::new(a@.len(), |i: int| before[i].plus(a@[i])));
                *values = total;
            },
            CeedMatrixStorage::Csr(_) => {
                return Err(
                    ReedError::InvalidArgument(
                        Message::new("add_dense_col_major on CSR matrix").done(),
                    ),
                );
            },
        }
        self.numeric_done = true;
        Ok(())
    }
}

} // verus!
