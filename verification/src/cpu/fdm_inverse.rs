//! Operators that apply an inverse computed beforehand: a dense matrix or a diagonal.

use vstd::prelude::*;

pub use crate::cpu::gauss::invert_dense_col_major;
use crate::error::{ErrorKind, ReedError, ReedResult};
#[allow(unused_imports)]
use crate::index::{lemma_flat, lemma_mul_le};
use crate::operator::{
    no_add_diagonal, no_adjoint, no_named, FieldBuffer, OperatorAssembleKind, OperatorTrait,
    OperatorTransposeRequest,
};
#[allow(unused_imports)]
use crate::operator::{
    no_add_diagonal_text, no_adjoint_text, no_named_outcome, BufferView, NamedOutcome, NamedSink,
    Sink,
};
#[allow(unused_imports)]
use crate::cpu::gauss::{
    inverse_of, law_inverse_times_matrix, law_matrix_times_inverse, product_terms, tolerance,
};
#[allow(unused_imports)]
use crate::linear::{col_terms, lemma_matrix_adjoint, row_terms};
use crate::scalar::Real;
#[allow(unused_imports)]
use crate::scalar::{
    col_sums, exact_field, exact_ring, inner, lemma_field, lemma_sum_ext, lemma_sum_scale,
    lemma_sum_single, lemma_sum_swap, lemma_times_assoc, lemma_times_comm, lemma_times_one,
    lemma_times_zero, row_sums, sum,
};
use crate::text::Message;
#[allow(unused_imports)]
use crate::text::decimal;
use crate::vector::VectorTrait;
#[allow(unused_imports)]
use crate::vector::Outcome;

verus! {

/// Largest number of unknowns for which a dense inverse is formed.
pub const FDM_DENSE_MAX_N: usize = 256;

/// The message about vectors of the wrong length; `title` names the operator.
pub open spec fn length_message(title: Seq<char>, n: nat, xlen: nat, ylen: nat) -> Seq<char> {
    title + ": expected length "@ + decimal(n) + ", got x="@ + decimal(xlen) + ", y="@ + decimal(
        ylen,
    )
}

fn length_error(title: &str, n: usize, xlen: usize, ylen: usize) -> (e: ReedError)
    ensures
        e@ == (
            ErrorKind::Operator,
            length_message(title@, n as nat, xlen as nat, ylen as nat),
        ),
{
    ReedError::Operator(
        Message::new(title).text(": expected length ").num(n).text(", got x=").num(xlen).text(
            ", y=",
        ).num(ylen).done(),
    )
}

/// The message about a diagonal of the wrong length.
pub open spec fn diagonal_message(add: bool, len: nat, n: nat) -> Seq<char> {
    (if add {
        "linear_assemble_add_diagonal"@
    } else {
        "linear_assemble_diagonal"@
    }) + ": assembled length "@ + decimal(len) + " != "@ + decimal(n)
}

fn diagonal_error(add: bool, len: usize, n: usize) -> (e: ReedError)
    ensures
        e@ == (ErrorKind::Operator, diagonal_message(add, len as nat, n as nat)),
{
    let what = if add {
        "linear_assemble_add_diagonal"
    } else {
        "linear_assemble_diagonal"
    };
    ReedError::Operator(
        Message::new(what).text(": assembled length ").num(len).text(" != ").num(n).done(),
    )
}

/// `v` where it replaces `old`, and their sum where it is added.
pub open spec fn stored_or_added<T: Real>(add: bool, old_value: T, v: T) -> T {
    if add {
        old_value.plus(v)
    } else {
        v
    }
}

// ── dense inverse ───────────────────────────────────────────────────────────

/// The operator of a square matrix that holds columns one after the other.
pub struct CpuFdmDenseInverseOperator<T> {
    n: usize,
    inv_col_major: Vec<T>,
}

/// Products of entry `i` of the matrix, or of its transpose, times `x`.
pub open spec fn matrix_terms<T: Real>(
    m: Seq<T>,
    n: int,
    request: OperatorTransposeRequest,
    x: Seq<T>,
    i: int,
) -> spec_fn(int) -> T {
    |j: int|
        match request {
            OperatorTransposeRequest::Forward => m[i + j * n],
            OperatorTransposeRequest::Adjoint => m[j + i * n],
        }.times(x[j])
}

/// The matrix, or its transpose, times `x`.
pub open spec fn matrix_times<T: Real>(
    m: Seq<T>,
    n: int,
    request: OperatorTransposeRequest,
    x: Seq<T>,
) -> Seq<T> {
    Seq::new(n as nat, |i: int| sum(n, matrix_terms(m, n, request, x, i)))
}

impl<T: Real> CpuFdmDenseInverseOperator<T> {
    /// Number of rows.
    pub closed spec fn size(&self) -> usize {
        self.n
    }

    /// The entries, columns one after the other.
    pub closed spec fn entries(&self) -> Seq<T> {
        self.inv_col_major@
    }

    /// The operator of an `n × n` matrix.
    pub fn new(n: usize, inv_col_major: Vec<T>) -> (r: Self)
        ensures
            r.size() == n,
            r.entries() == inv_col_major@,
            inv_col_major@.len() >= n * n ==> r.wf(),
    {
        let _len: usize = inv_col_major.len();
        CpuFdmDenseInverseOperator { n, inv_col_major }
    }

    fn matvec(&self, request: OperatorTransposeRequest, x: &[T], y: &mut [T], add: bool) -> (r:
        ReedResult<()>)
        requires
            self.wf(),
        ensures
            final(y)@.len() == old(y)@.len(),
            final(y)@ == self.product(request, add, x@, old(y)@).values,
            self.product(request, add, x@, old(y)@).reported(r),
    {
        let n: usize = self.n;
        if x.len() != n || y.len() != n {
            return Err(length_error("CpuFdmDenseInverseOperator", n, x.len(), y.len()));
        }
        let ghost before = y@;
        let ghost goal = self.product(request, add, x@, before).values;
        for i in 0..n
            invariant
                self.wf(),
                n == self.size(),
                x@.len() == n,
                y@.len() == n,
                before.len() == n,
                before == old(y)@,
                goal == self.product(request, add, x@, before).values,
                self.product(request, add, x@, before).error is None,
                forall|k: int| 0 <= k < i ==> #[trigger] y@[k] == goal[k],
                forall|k: int| i <= k < n ==> #[trigger] y@[k] == before[k],
        {
            let mut acc = T::zero();
            for j in 0..n
                invariant
                    self.wf(),
                    n == self.size(),
                    i < n,
                    x@.len() == n,
                    acc == sum(
                        j as int,
                        matrix_terms(self.entries(), n as int, request, x@, i as int),
                    ),
            {
                proof {
                    lemma_flat(j as int, n as int, i as int, n as int);
                    lemma_flat(i as int, n as int, j as int, n as int);
                    lemma_mul_le(i as int, i as int, n as int, n as int);
                    lemma_mul_le(j as int, j as int, n as int, n as int);
                    lemma_mul_le(i as int, n as int, n as int, n as int);
                    lemma_mul_le(j as int, n as int, n as int, n as int);
                }
                let m = match request {
                    OperatorTransposeRequest::Forward => self.inv_col_major[i + j * n],
                    OperatorTransposeRequest::Adjoint => self.inv_col_major[j + i * n],
                };
                acc = acc.add(m.mul(x[j]));
            }
            y[i] = if add {
                y[i].add(acc)
            } else {
                acc
            };
        }
        assert(y@ =~= goal);
        Ok(())
    }

    fn diagonal(&self, assembled: &mut [T], add: bool) -> (r: ReedResult<()>)
        requires
            self.wf(),
        ensures
            final(assembled)@.len() == old(assembled)@.len(),
            final(assembled)@ == self.diagonal_result(add, old(assembled)@).values,
            self.diagonal_result(add, old(assembled)@).reported(r),
    {
        let n: usize = self.n;
        if assembled.len() != n {
            return Err(diagonal_error(add, assembled.len(), n));
        }
        let ghost before = assembled@;
        let ghost goal = self.diagonal_result(add, before).values;
        for i in 0..n
            invariant
                self.wf(),
                n == self.size(),
                assembled@.len() == n,
                before.len() == n,
                goal == self.diagonal_result(add, before).values,
                self.diagonal_result(add, before).error is None,
                forall|k: int| 0 <= k < i ==> #[trigger] assembled@[k] == goal[k],
                forall|k: int| i <= k < n ==> #[trigger] assembled@[k] == before[k],
        {
            proof {
                lemma_flat(i as int, n as int, i as int, n as int);
                lemma_mul_le(i as int, n as int, n as int, n as int);
            }
            let m = self.inv_col_major[i + i * n];
            assembled[i] = if add {
                assembled[i].add(m)
            } else {
                m
            };
        }
        assert(assembled@ =~= goal);
        Ok(())
    }

    /// What an application does to the numbers of a vector; it overwrites `y` or, with `add`, adds
    /// to it.
    pub open spec fn product(
        &self,
        request: OperatorTransposeRequest,
        add: bool,
        x: Seq<T>,
        y: Seq<T>,
    ) -> Outcome<T> {
        let n = self.size();
        if x.len() != n || y.len() != n {
            Outcome::failed(
                ErrorKind::Operator,
                length_message("CpuFdmDenseInverseOperator"@, n as nat, x.len(), y.len()),
                y,
            )
        } else {
            let p = matrix_times(self.entries(), n as int, request, x);
            Outcome::done(Seq::new(n as nat, |i: int| stored_or_added(add, y[i], p[i])))
        }
    }

    /// What assembling the diagonal does to the numbers of a vector.
    pub open spec fn diagonal_result(&self, add: bool, y: Seq<T>) -> Outcome<T> {
        let n = self.size();
        if y.len() != n {
            Outcome::failed(ErrorKind::Operator, diagonal_message(add, y.len(), n as nat), y)
        } else {
            Outcome::done(
                Seq::new(
                    n as nat,
                    |i: int| stored_or_added(add, y[i], self.entries()[i + i * n]),
                ),
            )
        }
    }
}

impl<T: Real> OperatorTrait<T> for CpuFdmDenseInverseOperator<T> {
    open spec fn wf(&self) -> bool {
        &&& self.entries().len() >= self.size() * self.size()
        &&& self.size() * self.size() <= usize::MAX
    }

    open spec fn admits(
        &self,
        request: OperatorTransposeRequest,
        add: bool,
        xlen: nat,
        ylen: nat,
    ) -> bool {
        true
    }

    open spec fn outcome(
        &self,
        request: OperatorTransposeRequest,
        x: Seq<T>,
        y: Sink<T>,
    ) -> Outcome<T> {
        self.product(request, y.adds(), x, y.values())
    }

    open spec fn admits_named(
        &self,
        request: OperatorTransposeRequest,
        inputs: Seq<BufferView<T>>,
        outputs: NamedSink<T>,
    ) -> bool {
        true
    }

    open spec fn named_outcome(
        &self,
        request: OperatorTransposeRequest,
        inputs: Seq<BufferView<T>>,
        outputs: NamedSink<T>,
    ) -> NamedOutcome<T> {
        no_named_outcome(request, outputs)
    }

    open spec fn admits_diagonal(&self, add: bool, len: nat) -> bool {
        true
    }

    open spec fn diagonal_outcome(&self, y: Sink<T>) -> Outcome<T> {
        self.diagonal_result(y.adds(), y.values())
    }

    open spec fn len_hint(&self) -> Option<usize> {
        Some(self.size())
    }

    open spec fn needs_named(&self) -> bool {
        false
    }

    open spec fn readiness(&self) -> Option<(ErrorKind, Seq<char>)> {
        None
    }

    open spec fn supports(&self, kind: OperatorAssembleKind) -> bool {
        kind == OperatorAssembleKind::Diagonal
    }

    fn apply(
        &self,
        x: &Box<dyn VectorTrait<T>>,
        y: &mut Box<dyn VectorTrait<T>>,
    ) -> (r: ReedResult<()>) {
        self.matvec(OperatorTransposeRequest::Forward, x.as_slice(), y.as_mut_slice(), false)
    }

    fn apply_add(
        &self,
        x: &Box<dyn VectorTrait<T>>,
        y: &mut Box<dyn VectorTrait<T>>,
    ) -> (r: ReedResult<()>) {
        self.matvec(OperatorTransposeRequest::Forward, x.as_slice(), y.as_mut_slice(), true)
    }

    fn apply_with_transpose(
        &self,
        request: OperatorTransposeRequest,
        x: &Box<dyn VectorTrait<T>>,
        y: &mut Box<dyn VectorTrait<T>>,
    ) -> (r: ReedResult<()>) {
        self.matvec(request, x.as_slice(), y.as_mut_slice(), false)
    }

    fn apply_add_with_transpose(
        &self,
        request: OperatorTransposeRequest,
        x: &Box<dyn VectorTrait<T>>,
        y: &mut Box<dyn VectorTrait<T>>,
    ) -> (r: ReedResult<()>) {
        self.matvec(request, x.as_slice(), y.as_mut_slice(), true)
    }

    fn linear_assemble_diagonal(&self, assembled: &mut Box<dyn VectorTrait<T>>) -> (r: ReedResult<()>) {
        self.diagonal(assembled.as_mut_slice(), false)
    }

    fn linear_assemble_add_diagonal(&self, assembled: &mut Box<dyn VectorTrait<T>>) -> (r: ReedResult<()>) {
        self.diagonal(assembled.as_mut_slice(), true)
    }

    fn apply_field_buffers(
        &self,
        _inputs: &Vec<FieldBuffer<T>>,
        _outputs: &mut Vec<FieldBuffer<T>>,
    ) -> (r: ReedResult<()>) {
        Err(no_named(OperatorTransposeRequest::Forward, false))
    }

    fn apply_add_field_buffers(
        &self,
        _inputs: &Vec<FieldBuffer<T>>,
        _outputs: &mut Vec<FieldBuffer<T>>,
    ) -> (r: ReedResult<()>) {
        Err(no_named(OperatorTransposeRequest::Forward, true))
    }

    fn apply_field_buffers_with_transpose(
        &self,
        request: OperatorTransposeRequest,
        _inputs: &Vec<FieldBuffer<T>>,
        _outputs: &mut Vec<FieldBuffer<T>>,
    ) -> (r: ReedResult<()>) {
        Err(no_named(request, false))
    }

    fn apply_add_field_buffers_with_transpose(
        &self,
        request: OperatorTransposeRequest,
        _inputs: &Vec<FieldBuffer<T>>,
        _outputs: &mut Vec<FieldBuffer<T>>,
    ) -> (r: ReedResult<()>) {
        Err(no_named(request, true))
    }

    fn global_vector_len_hint(&self) -> (n: Option<usize>) {
        Some(self.n)
    }

    fn requires_field_named_buffers(&self) -> (b: bool) {
        false
    }

    fn check_ready(&self) -> (r: ReedResult<()>) {
        Ok(())
    }

    fn operator_supports_assemble(&self, kind: OperatorAssembleKind) -> (b: bool) {
        match kind {
            OperatorAssembleKind::Diagonal => true,
            _ => false,
        }
    }
}

// ── diagonal inverse ────────────────────────────────────────────────────────

/// The operator of a diagonal matrix.
pub struct CpuFdmJacobiInverseOperator<T> {
    inv_diag: Vec<T>,
}

impl<T: Real> CpuFdmJacobiInverseOperator<T> {
    /// The diagonal.
    pub closed spec fn entries(&self) -> Seq<T> {
        self.inv_diag@
    }

    /// Number of rows.
    pub closed spec fn size(&self) -> usize {
        self.inv_diag.len()
    }

    /// The operator that scales entry by entry.
    pub fn new(inv_diag: Vec<T>) -> (r: Self)
        ensures
            r.entries() == inv_diag@,
            r.wf(),
    {
        CpuFdmJacobiInverseOperator { inv_diag }
    }

    fn scale(&self, x: &[T], y: &mut [T], add: bool) -> (r: ReedResult<()>)
        requires
            self.wf(),
        ensures
            final(y)@.len() == old(y)@.len(),
            final(y)@ == self.product(OperatorTransposeRequest::Forward, add, x@, old(y)@).values,
            self.product(OperatorTransposeRequest::Forward, add, x@, old(y)@).reported(r),
    {
        let n: usize = self.inv_diag.len();
        if x.len() != n || y.len() != n {
            return Err(length_error("CpuFdmJacobiInverseOperator", n, x.len(), y.len()));
        }
        let ghost before = y@;
        let ghost goal = self.product(OperatorTransposeRequest::Forward, add, x@, before).values;
        for i in 0..n
            invariant
                n == self.entries().len(),
                x@.len() == n,
                y@.len() == n,
                before.len() == n,
                goal == Seq::new(
                    n as nat,
                    |i: int|
                        stored_or_added(add, before[i], self.entries()[i].times(x@[i])),
                ),
                forall|k: int| 0 <= k < i ==> #[trigger] y@[k] == goal[k],
                forall|k: int| i <= k < n ==> #[trigger] y@[k] == before[k],
        {
            let p = self.inv_diag[i].mul(x[i]);
            y[i] = if add {
                y[i].add(p)
            } else {
                p
            };
        }
        assert(y@ =~= goal);
        Ok(())
    }

    /// What an application does to the numbers of a vector; it overwrites `y` or, with `add`, adds
    /// to it.
    pub open spec fn product(
        &self,
        request: OperatorTransposeRequest,
        add: bool,
        x: Seq<T>,
        y: Seq<T>,
    ) -> Outcome<T> {
        let n = self.entries().len();
        if request == OperatorTransposeRequest::Adjoint {
            Outcome::failed(ErrorKind::Operator, no_adjoint_text(add), y)
        } else if x.len() != n || y.len() != n {
            Outcome::failed(
                ErrorKind::Operator,
                length_message("CpuFdmJacobiInverseOperator"@, n, x.len(), y.len()),
                y,
            )
        } else {
            Outcome::done(
                Seq::new(
                    n,
                    |i: int| stored_or_added(add, y[i], self.entries()[i].times(x[i])),
                ),
            )
        }
    }
}

impl<T: Real> OperatorTrait<T> for CpuFdmJacobiInverseOperator<T> {
    open spec fn wf(&self) -> bool {
        self.size() == self.entries().len()
    }

    open spec fn admits(
        &self,
        request: OperatorTransposeRequest,
        add: bool,
        xlen: nat,
        ylen: nat,
    ) -> bool {
        true
    }

    open spec fn outcome(
        &self,
        request: OperatorTransposeRequest,
        x: Seq<T>,
        y: Sink<T>,
    ) -> Outcome<T> {
        self.product(request, y.adds(), x, y.values())
    }

    open spec fn admits_named(
        &self,
        request: OperatorTransposeRequest,
        inputs: Seq<BufferView<T>>,
        outputs: NamedSink<T>,
    ) -> bool {
        true
    }

    open spec fn named_outcome(
        &self,
        request: OperatorTransposeRequest,
        inputs: Seq<BufferView<T>>,
        outputs: NamedSink<T>,
    ) -> NamedOutcome<T> {
        no_named_outcome(request, outputs)
    }

    open spec fn admits_diagonal(&self, add: bool, len: nat) -> bool {
        true
    }

    open spec fn diagonal_outcome(&self, y: Sink<T>) -> Outcome<T> {
        let n = self.entries().len();
        match y {
            Sink::Accumulate(d) => Outcome::failed(
                ErrorKind::Operator,
                no_add_diagonal_text(),
                d,
            ),
            Sink::Overwrite(v) => if v.values.len() != n {
                Outcome::failed(
                    ErrorKind::Operator,
                    diagonal_message(false, v.values.len(), n),
                    v.values,
                )
            } else {
                (v.copied)(self.entries())
            },
        }
    }

    open spec fn len_hint(&self) -> Option<usize> {
        Some(self.size())
    }

    open spec fn needs_named(&self) -> bool {
        false
    }

    open spec fn readiness(&self) -> Option<(ErrorKind, Seq<char>)> {
        None
    }

    open spec fn supports(&self, kind: OperatorAssembleKind) -> bool {
        kind == OperatorAssembleKind::Diagonal
    }

    fn apply(
        &self,
        x: &Box<dyn VectorTrait<T>>,
        y: &mut Box<dyn VectorTrait<T>>,
    ) -> (r: ReedResult<()>) {
        self.scale(x.as_slice(), y.as_mut_slice(), false)
    }

    fn apply_add(
        &self,
        x: &Box<dyn VectorTrait<T>>,
        y: &mut Box<dyn VectorTrait<T>>,
    ) -> (r: ReedResult<()>) {
        self.scale(x.as_slice(), y.as_mut_slice(), true)
    }

    fn apply_with_transpose(
        &self,
        request: OperatorTransposeRequest,
        x: &Box<dyn VectorTrait<T>>,
        y: &mut Box<dyn VectorTrait<T>>,
    ) -> (r: ReedResult<()>) {
        match request {
            OperatorTransposeRequest::Forward => self.scale(x.as_slice(), y.as_mut_slice(), false),
            OperatorTransposeRequest::Adjoint => Err(no_adjoint(false)),
        }
    }

    fn apply_add_with_transpose(
        &self,
        request: OperatorTransposeRequest,
        x: &Box<dyn VectorTrait<T>>,
        y: &mut Box<dyn VectorTrait<T>>,
    ) -> (r: ReedResult<()>) {
        match request {
            OperatorTransposeRequest::Forward => self.scale(x.as_slice(), y.as_mut_slice(), true),
            OperatorTransposeRequest::Adjoint => Err(no_adjoint(true)),
        }
    }

    fn linear_assemble_diagonal(&self, assembled: &mut Box<dyn VectorTrait<T>>) -> (r: ReedResult<()>) {
        let n: usize = self.inv_diag.len();
        if assembled.len() != n {
            return Err(diagonal_error(false, assembled.len(), n));
        }
        assembled.copy_from_slice(self.inv_diag.as_slice())
    }

    fn linear_assemble_add_diagonal(&self, assembled: &mut Box<dyn VectorTrait<T>>) -> (r: ReedResult<()>) {
        let _ = assembled;
        Err(no_add_diagonal())
    }

    fn apply_field_buffers(
        &self,
        _inputs: &Vec<FieldBuffer<T>>,
        _outputs: &mut Vec<FieldBuffer<T>>,
    ) -> (r: ReedResult<()>) {
        Err(no_named(OperatorTransposeRequest::Forward, false))
    }

    fn apply_add_field_buffers(
        &self,
        _inputs: &Vec<FieldBuffer<T>>,
        _outputs: &mut Vec<FieldBuffer<T>>,
    ) -> (r: ReedResult<()>) {
        Err(no_named(OperatorTransposeRequest::Forward, true))
    }

    fn apply_field_buffers_with_transpose(
        &self,
        request: OperatorTransposeRequest,
        _inputs: &Vec<FieldBuffer<T>>,
        _outputs: &mut Vec<FieldBuffer<T>>,
    ) -> (r: ReedResult<()>) {
        Err(no_named(request, false))
    }

    fn apply_add_field_buffers_with_transpose(
        &self,
        request: OperatorTransposeRequest,
        _inputs: &Vec<FieldBuffer<T>>,
        _outputs: &mut Vec<FieldBuffer<T>>,
    ) -> (r: ReedResult<()>) {
        Err(no_named(request, true))
    }

    fn global_vector_len_hint(&self) -> (n: Option<usize>) {
        Some(self.inv_diag.len())
    }

    fn requires_field_named_buffers(&self) -> (b: bool) {
        false
    }

    fn check_ready(&self) -> (r: ReedResult<()>) {
        Ok(())
    }

    fn operator_supports_assemble(&self, kind: OperatorAssembleKind) -> (b: bool) {
        match kind {
            OperatorAssembleKind::Diagonal => true,
            _ => false,
        }
    }
}

// ── laws of the dense inverse ───────────────────────────────────────────────

/// Two matrices whose product is the identity undo each other.
proof fn lemma_undo<T: Real>(l: Seq<T>, r: Seq<T>, n: int, x: Seq<T>)
    requires
        exact_ring::<T>(),
        0 <= n,
        x.len() == n,
        forall|i: int, c: int|
            0 <= i < n && 0 <= c < n ==> #[trigger] sum(n, product_terms(l, r, n, i, c)) == if i == c {
                T::one_val()
            } else {
                T::zero_val()
            },
    ensures
        matrix_times(
            l,
            n,
            OperatorTransposeRequest::Forward,
            matrix_times(r, n, OperatorTransposeRequest::Forward, x),
        ) == x,
{
    let go = OperatorTransposeRequest::Forward;
    let mid = matrix_times(r, n, go, x);
    let end = matrix_times(l, n, go, mid);
    assert forall|i: int| 0 <= i < n implies #[trigger] end[i] == x[i] by {
        let f = |j: int, c: int| l[i + j * n].times(r[j + c * n].times(x[c]));
        let g = matrix_terms(l, n, go, mid, i);
        assert forall|j: int| 0 <= j < n implies #[trigger] g(j) == row_sums(n, f)(j) by {
            let (h, k) = (matrix_terms(r, n, go, x, j), |c: int| f(j, c));
            assert forall|c: int| 0 <= c < n implies #[trigger] k(c) == l[i + j * n].times(h(c)) by {}
            lemma_sum_scale(n, l[i + j * n], h, k);
            assert(mid[j] == sum(n, h));
        }
        lemma_sum_ext(n, g, row_sums(n, f));
        lemma_sum_swap(n, n, f);
        let cols = col_sums(n, f);
        assert forall|c: int| 0 <= c < n implies #[trigger] cols(c) == if i == c {
            x[i]
        } else {
            T::zero_val()
        } by {
            let (h, k) = (product_terms(l, r, n, i, c), |j: int| f(j, c));
            assert forall|j: int| 0 <= j < n implies #[trigger] k(j) == x[c].times(h(j)) by {
                lemma_times_assoc(l[i + j * n], r[j + c * n], x[c]);
                lemma_times_comm(h(j), x[c]);
            }
            lemma_sum_scale(n, x[c], h, k);
            assert(sum(n, h) == if i == c {
                T::one_val()
            } else {
                T::zero_val()
            });
            lemma_times_one(x[c]);
            lemma_times_zero(x[c]);
        }
        lemma_sum_single(n, i, cols);
    }
    assert(end =~= x);
}

/// In exact arithmetic the operator of the inverse undoes the matrix, and the matrix undoes it.
pub proof fn law_dense_inverse_undoes<T: Real>(a: Seq<T>, n: int, x: Seq<T>)
    requires
        exact_field::<T>(),
        T::zero_val().magnitude().at_most(tolerance::<T>(n)),
        0 <= n,
        a.len() == n * n,
        x.len() == n,
        inverse_of(a, n) is Some,
    ensures
        matrix_times(
            inverse_of(a, n)->0,
            n,
            OperatorTransposeRequest::Forward,
            matrix_times(a, n, OperatorTransposeRequest::Forward, x),
        ) == x,
        matrix_times(
            a,
            n,
            OperatorTransposeRequest::Forward,
            matrix_times(inverse_of(a, n)->0, n, OperatorTransposeRequest::Forward, x),
        ) == x,
{
    lemma_field(T::zero_val(), T::zero_val());
    let inv = inverse_of(a, n)->0;
    assert forall|i: int, c: int| 0 <= i < n && 0 <= c < n implies #[trigger] sum(
        n,
        product_terms(inv, a, n, i, c),
    ) == if i == c {
        T::one_val()
    } else {
        T::zero_val()
    } by {
        law_inverse_times_matrix(a, n, i, c);
    }
    lemma_undo(inv, a, n, x);
    assert forall|i: int, c: int| 0 <= i < n && 0 <= c < n implies #[trigger] sum(
        n,
        product_terms(a, inv, n, i, c),
    ) == if i == c {
        T::one_val()
    } else {
        T::zero_val()
    } by {
        law_matrix_times_inverse(a, n, i, c);
    }
    lemma_undo(a, inv, n, x);
}

/// In exact arithmetic the two directions of a dense operator are adjoint.
pub proof fn law_dense_adjoint<T: Real>(m: Seq<T>, n: int, x: Seq<T>, y: Seq<T>)
    requires
        exact_ring::<T>(),
        0 <= n,
        x.len() == n,
        y.len() == n,
    ensures
        inner(matrix_times(m, n, OperatorTransposeRequest::Forward, x), y) == inner(
            x,
            matrix_times(m, n, OperatorTransposeRequest::Adjoint, y),
        ),
{
    let a = |k: int, j: int| m[k + j * n];
    let ax = matrix_times(m, n, OperatorTransposeRequest::Forward, x);
    let ay = matrix_times(m, n, OperatorTransposeRequest::Adjoint, y);
    assert forall|k: int| 0 <= k < n implies #[trigger] ax[k] == sum(n, row_terms(a, x, k)) by {
        lemma_sum_ext(
            n,
            matrix_terms(m, n, OperatorTransposeRequest::Forward, x, k),
            row_terms(a, x, k),
        );
    }
    assert forall|j: int| 0 <= j < n implies #[trigger] ay[j] == sum(n, col_terms(a, y, j)) by {
        lemma_sum_ext(
            n,
            matrix_terms(m, n, OperatorTransposeRequest::Adjoint, y, j),
            col_terms(a, y, j),
        );
    }
    lemma_matrix_adjoint(a, x, y, ax, ay);
}

} // verus!
