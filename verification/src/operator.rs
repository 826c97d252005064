//! Discrete operators between global vectors.
//!
//! An operator applies to one input and one output vector, or, if it has several active fields,
//! to vectors that are matched by field name.

use vstd::prelude::*;

use crate::csr::{CsrMatrix, CsrPattern};
use crate::error::{ErrorKind, ReedError, ReedResult};
#[allow(unused_imports)]
use crate::error::refused;
use crate::matrix::CeedMatrix;
use crate::scalar::Real;
use crate::text::Message;
use crate::vector::VectorTrait;
#[allow(unused_imports)]
use crate::vector::{write_target, Outcome, WriteTarget};

verus! {

/// The direction of an application.
#[derive(Clone, Copy, Debug, PartialEq, Eq, Hash, Structural)]
pub enum OperatorTransposeRequest {
    Forward,
    Adjoint,
}

/// Optional assembly paths of an operator.
#[non_exhaustive]
#[derive(Clone, Copy, Debug, PartialEq, Eq, Hash, Structural)]
pub enum OperatorAssembleKind {
    /// The diagonal, set or added.
    Diagonal,
    /// The structure of a dense matrix.
    LinearSymbolic,
    /// The numbers of a dense matrix, set or added.
    LinearNumeric,
    /// The numbers of a sparse matrix, set or added.
    LinearCsrNumeric,
    /// An inverse by fast diagonalization.
    FdmElementInverse,
}

/// A vector with the name of the field it belongs to.
#[verifier::reject_recursive_types(T)]
pub struct FieldBuffer<T: Real> {
    pub name: String,
    pub vector: Box<dyn VectorTrait<T>>,
}

/// The name and the numbers of a [`FieldBuffer`].
pub struct BufferView<T> {
    pub name: Seq<char>,
    pub values: Seq<T>,
}

/// A [`FieldBuffer`] as something to write to.
#[verifier::reject_recursive_types(T)]
pub struct BufferTarget<T> {
    pub name: Seq<char>,
    pub vector: WriteTarget<T>,
}

impl<T: Real> View for FieldBuffer<T> {
    type V = BufferView<T>;

    open spec fn view(&self) -> BufferView<T> {
        BufferView { name: self.name@, values: self.vector.values() }
    }
}

/// The names and numbers of a list of named vectors.
pub open spec fn buffer_views<T: Real>(b: Seq<FieldBuffer<T>>) -> Seq<BufferView<T>> {
    Seq::new(b.len(), |i: int| b[i]@)
}

/// A list of named vectors as something to write to.
pub open spec fn buffer_targets<T: Real>(b: Seq<FieldBuffer<T>>) -> Seq<BufferTarget<T>> {
    Seq::new(
        b.len(),
        |i: int| BufferTarget { name: b[i].name@, vector: write_target(&*b[i].vector) },
    )
}

/// The vector that an application writes to. What overwrites may fill it or copy into it; what
/// adds depends on its numbers alone.
#[verifier::reject_recursive_types(T)]
pub enum Sink<T> {
    Overwrite(WriteTarget<T>),
    Accumulate(Seq<T>),
}

impl<T> Sink<T> {
    /// The application adds.
    pub open spec fn adds(self) -> bool {
        self is Accumulate
    }

    /// The numbers before the application.
    pub open spec fn values(self) -> Seq<T> {
        match self {
            Sink::Overwrite(v) => v.values,
            Sink::Accumulate(y) => y,
        }
    }
}

/// The named vectors that an application writes to.
#[verifier::reject_recursive_types(T)]
pub enum NamedSink<T> {
    Overwrite(Seq<BufferTarget<T>>),
    Accumulate(Seq<BufferView<T>>),
}

impl<T> NamedSink<T> {
    /// The application adds.
    pub open spec fn adds(self) -> bool {
        self is Accumulate
    }

    /// The names and numbers before the application.
    pub open spec fn views(self) -> Seq<BufferView<T>> {
        match self {
            NamedSink::Overwrite(b) => Seq::new(
                b.len(),
                |i: int| BufferView { name: b[i].name, values: b[i].vector.values },
            ),
            NamedSink::Accumulate(b) => b,
        }
    }
}

/// What an application to named vectors leaves behind.
pub struct NamedOutcome<T> {
    pub error: Option<(ErrorKind, Seq<char>)>,
    pub outputs: Seq<BufferView<T>>,
}

impl<T> NamedOutcome<T> {
    /// `r` reports this outcome.
    pub open spec fn reported<A>(self, r: ReedResult<A>) -> bool {
        match self.error {
            Some(e) => r matches Err(x) && x@ == e,
            None => r is Ok,
        }
    }
}

/// An operator in weak form, `v = A u`.
///
/// An implementation says, by its specification functions, on which vectors it is defined and
/// what each application leaves behind, failures included. One that has no adjoint, no
/// named vectors or no diagonal to add answers with [`default_apply_with_transpose`] and its
/// companions.
///
/// The specification functions default to an unknown value; a verified implementation defines
/// them.
pub trait OperatorTrait<T: Real> {
    /// The operator is valid.
    closed spec fn wf(&self) -> bool {
        arbitrary()
    }

    /// The operator is defined on vectors of these lengths.
    closed spec fn admits(&self, request: OperatorTransposeRequest, add: bool, xlen: nat, ylen: nat) -> bool {
        arbitrary()
    }

    /// What an application does.
    closed spec fn outcome(
        &self,
        request: OperatorTransposeRequest,
        x: Seq<T>,
        y: Sink<T>,
    ) -> Outcome<T> {
        arbitrary()
    }

    /// The operator is defined on these named vectors.
    closed spec fn admits_named(
        &self,
        request: OperatorTransposeRequest,
        inputs: Seq<BufferView<T>>,
        outputs: NamedSink<T>,
    ) -> bool {
        arbitrary()
    }

    /// What an application to named vectors does.
    closed spec fn named_outcome(
        &self,
        request: OperatorTransposeRequest,
        inputs: Seq<BufferView<T>>,
        outputs: NamedSink<T>,
    ) -> NamedOutcome<T> {
        arbitrary()
    }

    /// The diagonal is defined on vectors of this length.
    closed spec fn admits_diagonal(&self, add: bool, len: nat) -> bool {
        arbitrary()
    }

    /// What assembling the diagonal does.
    closed spec fn diagonal_outcome(&self, y: Sink<T>) -> Outcome<T> {
        arbitrary()
    }

    /// Length of the global vectors, where it is known.
    closed spec fn len_hint(&self) -> Option<usize> {
        arbitrary()
    }

    /// The operator can only be applied to named vectors.
    closed spec fn needs_named(&self) -> bool {
        arbitrary()
    }

    /// Why the operator is not ready, if it is not.
    closed spec fn readiness(&self) -> Option<(ErrorKind, Seq<char>)> {
        arbitrary()
    }

    /// The operator has this assembly path.
    closed spec fn supports(&self, kind: OperatorAssembleKind) -> bool {
        arbitrary()
    }

    /// Computes `y = A x`.
    fn apply(
        &self,
        x: &Box<dyn VectorTrait<T>>,
        y: &mut Box<dyn VectorTrait<T>>,
    ) -> (r: ReedResult<()>)
        requires
            self.wf(),
            self.admits(
                OperatorTransposeRequest::Forward,
                false,
                x.values().len(),
                old(y).values().len(),
            ),
        ensures
            final(y).values().len() == old(y).values().len(),
            ({
                let o = self.outcome(
                    OperatorTransposeRequest::Forward,
                    x.values(),
                    Sink::Overwrite(write_target(&**old(y))),
                );
                final(y).values() == o.values && o.reported(r)
            }),
    ;

    /// Computes `y += A x`.
    fn apply_add(
        &self,
        x: &Box<dyn VectorTrait<T>>,
        y: &mut Box<dyn VectorTrait<T>>,
    ) -> (r: ReedResult<()>)
        requires
            self.wf(),
            self.admits(
                OperatorTransposeRequest::Forward,
                true,
                x.values().len(),
                old(y).values().len(),
            ),
        ensures
            final(y).values().len() == old(y).values().len(),
            ({
                let o = self.outcome(
                    OperatorTransposeRequest::Forward,
                    x.values(),
                    Sink::Accumulate(old(y).values()),
                );
                final(y).values() == o.values && o.reported(r)
            }),
    ;

    /// Computes `y = A x` or `y = Aᵀ x`.
    fn apply_with_transpose(
        &self,
        request: OperatorTransposeRequest,
        x: &Box<dyn VectorTrait<T>>,
        y: &mut Box<dyn VectorTrait<T>>,
    ) -> (r: ReedResult<()>)
        requires
            self.wf(),
            self.admits(request, false, x.values().len(), old(y).values().len()),
        ensures
            final(y).values().len() == old(y).values().len(),
            ({
                let o = self.outcome(request, x.values(), Sink::Overwrite(write_target(&**old(y))));
                final(y).values() == o.values && o.reported(r)
            }),
    ;

    /// Computes `y += A x` or `y += Aᵀ x`.
    fn apply_add_with_transpose(
        &self,
        request: OperatorTransposeRequest,
        x: &Box<dyn VectorTrait<T>>,
        y: &mut Box<dyn VectorTrait<T>>,
    ) -> (r: ReedResult<()>)
        requires
            self.wf(),
            self.admits(request, true, x.values().len(), old(y).values().len()),
        ensures
            final(y).values().len() == old(y).values().len(),
            ({
                let o = self.outcome(request, x.values(), Sink::Accumulate(old(y).values()));
                final(y).values() == o.values && o.reported(r)
            }),
    ;

    /// Applies to named vectors, overwriting the outputs.
    fn apply_field_buffers(
        &self,
        inputs: &Vec<FieldBuffer<T>>,
        outputs: &mut Vec<FieldBuffer<T>>,
    ) -> (r: ReedResult<()>)
        requires
            self.wf(),
            self.admits_named(
                OperatorTransposeRequest::Forward,
                buffer_views(inputs@),
                NamedSink::Overwrite(buffer_targets(old(outputs)@)),
            ),
        ensures
            ({
                let o = self.named_outcome(
                    OperatorTransposeRequest::Forward,
                    buffer_views(inputs@),
                    NamedSink::Overwrite(buffer_targets(old(outputs)@)),
                );
                buffer_views(final(outputs)@) == o.outputs && o.reported(r)
            }),
    ;

    /// Applies to named vectors, adding to the outputs.
    fn apply_add_field_buffers(
        &self,
        inputs: &Vec<FieldBuffer<T>>,
        outputs: &mut Vec<FieldBuffer<T>>,
    ) -> (r: ReedResult<()>)
        requires
            self.wf(),
            self.admits_named(
                OperatorTransposeRequest::Forward,
                buffer_views(inputs@),
                NamedSink::Accumulate(buffer_views(old(outputs)@)),
            ),
        ensures
            ({
                let o = self.named_outcome(
                    OperatorTransposeRequest::Forward,
                    buffer_views(inputs@),
                    NamedSink::Accumulate(buffer_views(old(outputs)@)),
                );
                buffer_views(final(outputs)@) == o.outputs && o.reported(r)
            }),
    ;

    /// Applies in a direction to named vectors, overwriting the outputs. The adjoint takes one
    /// input per output field and gives one output per active input field.
    fn apply_field_buffers_with_transpose(
        &self,
        request: OperatorTransposeRequest,
        inputs: &Vec<FieldBuffer<T>>,
        outputs: &mut Vec<FieldBuffer<T>>,
    ) -> (r: ReedResult<()>)
        requires
            self.wf(),
            self.admits_named(
                request,
                buffer_views(inputs@),
                NamedSink::Overwrite(buffer_targets(old(outputs)@)),
            ),
        ensures
            ({
                let o = self.named_outcome(
                    request,
                    buffer_views(inputs@),
                    NamedSink::Overwrite(buffer_targets(old(outputs)@)),
                );
                buffer_views(final(outputs)@) == o.outputs && o.reported(r)
            }),
    ;

    /// Applies in a direction to named vectors, adding to the outputs.
    fn apply_add_field_buffers_with_transpose(
        &self,
        request: OperatorTransposeRequest,
        inputs: &Vec<FieldBuffer<T>>,
        outputs: &mut Vec<FieldBuffer<T>>,
    ) -> (r: ReedResult<()>)
        requires
            self.wf(),
            self.admits_named(
                request,
                buffer_views(inputs@),
                NamedSink::Accumulate(buffer_views(old(outputs)@)),
            ),
        ensures
            ({
                let o = self.named_outcome(
                    request,
                    buffer_views(inputs@),
                    NamedSink::Accumulate(buffer_views(old(outputs)@)),
                );
                buffer_views(final(outputs)@) == o.outputs && o.reported(r)
            }),
    ;

    /// Overwrites `assembled` with the diagonal of the operator.
    fn linear_assemble_diagonal(&self, assembled: &mut Box<dyn VectorTrait<T>>) -> (r: ReedResult<()>)
        requires
            self.wf(),
            self.admits_diagonal(false, old(assembled).values().len()),
        ensures
            final(assembled).values().len() == old(assembled).values().len(),
            ({
                let o = self.diagonal_outcome(Sink::Overwrite(write_target(&**old(assembled))));
                final(assembled).values() == o.values && o.reported(r)
            }),
    ;

    /// Adds the diagonal of the operator to `assembled`.
    fn linear_assemble_add_diagonal(&self, assembled: &mut Box<dyn VectorTrait<T>>) -> (r: ReedResult<()>)
        requires
            self.wf(),
            self.admits_diagonal(true, old(assembled).values().len()),
        ensures
            final(assembled).values().len() == old(assembled).values().len(),
            ({
                let o = self.diagonal_outcome(Sink::Accumulate(old(assembled).values()));
                final(assembled).values() == o.values && o.reported(r)
            }),
    ;

    /// Length of the global vectors, where it is known.
    fn global_vector_len_hint(&self) -> (n: Option<usize>)
        requires
            self.wf(),
        ensures
            n == self.len_hint(),
    ;

    /// Whether the operator can only be applied to named vectors.
    fn requires_field_named_buffers(&self) -> (b: bool)
        requires
            self.wf(),
        ensures
            b == self.needs_named(),
    ;

    /// Checks that the operator can be applied.
    fn check_ready(&self) -> (r: ReedResult<()>)
        requires
            self.wf(),
        ensures
            match self.readiness() {
                Some(e) => r matches Err(x) && x@ == e,
                None => r is Ok,
            },
    ;

    /// Whether the operator has an assembly path.
    fn operator_supports_assemble(&self, kind: OperatorAssembleKind) -> (b: bool)
        requires
            self.wf(),
        ensures
            b == self.supports(kind),
    ;

    /// A label for messages, if there is one.
    fn operator_label(&self) -> (r: Option<&str>)
        default_ensures
            r is None,
    {
        None
    }

    /// Allocates the dense matrix of the operator.
    fn linear_assemble_symbolic(&self) -> (r: ReedResult<()>)
        default_ensures
            refused(
                r,
                ErrorKind::Operator,
                "OperatorTrait::linear_assemble_symbolic is not implemented (libCEED CeedOperatorLinearAssembleSymbolic)"@,
            ),
    {
        Err(
            operator_error(
                "OperatorTrait::linear_assemble_symbolic is not implemented (libCEED CeedOperatorLinearAssembleSymbolic)",
            ),
        )
    }

    /// Sets the numbers of the dense matrix of the operator.
    fn linear_assemble(&self) -> (r: ReedResult<()>)
        default_ensures
            refused(
                r,
                ErrorKind::Operator,
                "OperatorTrait::linear_assemble is not implemented (libCEED CeedOperatorLinearAssemble)"@,
            ),
    {
        Err(
            operator_error(
                "OperatorTrait::linear_assemble is not implemented (libCEED CeedOperatorLinearAssemble)",
            ),
        )
    }

    /// Adds to the numbers of the dense matrix of the operator.
    fn linear_assemble_add(&self) -> (r: ReedResult<()>)
        default_ensures
            refused(
                r,
                ErrorKind::Operator,
                "OperatorTrait::linear_assemble_add is not implemented (libCEED CeedOperatorLinearAssembleAdd)"@,
            ),
    {
        Err(
            operator_error(
                "OperatorTrait::linear_assemble_add is not implemented (libCEED CeedOperatorLinearAssembleAdd)",
            ),
        )
    }

    /// The operator as a sparse matrix with the given sparsity.
    fn linear_assemble_csr_matrix(&self, _pattern: &CsrPattern) -> (r: ReedResult<CsrMatrix<T>>)
        default_ensures
            refused(
                r,
                ErrorKind::Operator,
                "OperatorTrait::linear_assemble_csr_matrix is not implemented (use reed_cpu::CpuOperator or supply a CsrPattern from ElemRestrictionTrait::assembled_csr_pattern)"@,
            ),
    {
        Err(
            operator_error(
                "OperatorTrait::linear_assemble_csr_matrix is not implemented (use reed_cpu::CpuOperator or supply a CsrPattern from ElemRestrictionTrait::assembled_csr_pattern)",
            ),
        )
    }

    /// Adds the operator to a sparse matrix.
    fn linear_assemble_csr_matrix_add(&self, matrix: &mut CsrMatrix<T>) -> (r: ReedResult<()>)
        default_ensures
            *final(matrix) == *old(matrix),
            refused(
                r,
                ErrorKind::Operator,
                "OperatorTrait::linear_assemble_csr_matrix_add is not implemented (libCEED CeedOperatorLinearAssembleAdd into CSR)"@,
            ),
    {
        let _ = matrix;
        Err(
            operator_error(
                "OperatorTrait::linear_assemble_csr_matrix_add is not implemented (libCEED CeedOperatorLinearAssembleAdd into CSR)",
            ),
        )
    }

    /// Sets a matrix handle to the operator.
    fn linear_assemble_ceed_matrix(&self, matrix: &mut CeedMatrix<T>) -> (r: ReedResult<()>)
        default_ensures
            *final(matrix) == *old(matrix),
            refused(
                r,
                ErrorKind::Operator,
                "OperatorTrait::linear_assemble_ceed_matrix is not implemented (libCEED-style matrix handle set assembly)"@,
            ),
    {
        let _ = matrix;
        Err(
            operator_error(
                "OperatorTrait::linear_assemble_ceed_matrix is not implemented (libCEED-style matrix handle set assembly)",
            ),
        )
    }

    /// Adds the operator to a matrix handle.
    fn linear_assemble_add_ceed_matrix(&self, matrix: &mut CeedMatrix<T>) -> (r: ReedResult<()>)
        default_ensures
            *final(matrix) == *old(matrix),
            refused(
                r,
                ErrorKind::Operator,
                "OperatorTrait::linear_assemble_add_ceed_matrix is not implemented (libCEED-style matrix handle add assembly)"@,
            ),
    {
        let _ = matrix;
        Err(
            operator_error(
                "OperatorTrait::linear_assemble_add_ceed_matrix is not implemented (libCEED-style matrix handle add assembly)",
            ),
        )
    }
}

/// Operators that may offer an inverse of their own.
pub trait ElementInverse<T: Real>: OperatorTrait<T> {
    /// An inverse by fast diagonalization.
    fn operator_create_fdm_element_inverse(&self) -> (r: ReedResult<Box<dyn OperatorTrait<T>>>)
        default_ensures
            refused(
                r,
                ErrorKind::Operator,
                "OperatorTrait::operator_create_fdm_element_inverse is not implemented (libCEED CeedOperatorCreateFDMElementInverse)"@,
            ),
    {
        Err(
            operator_error(
                "OperatorTrait::operator_create_fdm_element_inverse is not implemented (libCEED CeedOperatorCreateFDMElementInverse)",
            ),
        )
    }

    /// An inverse of the diagonal.
    fn operator_create_fdm_element_inverse_jacobi(&self) -> (r: ReedResult<
        Box<dyn OperatorTrait<T>>,
    >)
        default_ensures
            refused(
                r,
                ErrorKind::Operator,
                "OperatorTrait::operator_create_fdm_element_inverse_jacobi is not implemented"@,
            ),
    {
        Err(
            operator_error(
                "OperatorTrait::operator_create_fdm_element_inverse_jacobi is not implemented",
            ),
        )
    }
}

/// An operator error with the given text.
pub fn operator_error(text: &str) -> (e: ReedError)
    ensures
        e@ == (ErrorKind::Operator, text@),
{
    ReedError::Operator(Message::new(text).done())
}

// ── answers of operators that lack a feature ────────────────────────────────

/// Text of the refusal of an adjoint application.
pub open spec fn no_adjoint_text(add: bool) -> Seq<char> {
    if add {
        "OperatorTrait::apply_add_with_transpose(Adjoint) is not implemented for this operator (libCEED CeedOperatorApplyTranspose)"@
    } else {
        "OperatorTrait::apply_with_transpose(Adjoint) is not implemented for this operator (libCEED CeedOperatorApplyTranspose)"@
    }
}

/// Refuses an adjoint application.
pub fn no_adjoint(add: bool) -> (e: ReedError)
    ensures
        e@ == (ErrorKind::Operator, no_adjoint_text(add)),
{
    if add {
        operator_error(
            "OperatorTrait::apply_add_with_transpose(Adjoint) is not implemented for this operator (libCEED CeedOperatorApplyTranspose)",
        )
    } else {
        operator_error(
            "OperatorTrait::apply_with_transpose(Adjoint) is not implemented for this operator (libCEED CeedOperatorApplyTranspose)",
        )
    }
}

/// What an operator without an adjoint does: the forward application is its own, the adjoint one is
/// refused and leaves the output as it was.
pub open spec fn default_outcome<T: Real, O: OperatorTrait<T> + ?Sized>(
    op: &O,
    request: OperatorTransposeRequest,
    x: Seq<T>,
    y: Sink<T>,
) -> Outcome<T> {
    match request {
        OperatorTransposeRequest::Forward => op.outcome(request, x, y),
        OperatorTransposeRequest::Adjoint => Outcome::failed(
            ErrorKind::Operator,
            no_adjoint_text(y.adds()),
            y.values(),
        ),
    }
}

/// Application in a direction by an operator without an adjoint: forward by
/// [`OperatorTrait::apply`].
pub fn default_apply_with_transpose<T: Real, O: OperatorTrait<T> + ?Sized>(
    op: &O,
    request: OperatorTransposeRequest,
    x: &Box<dyn VectorTrait<T>>,
    y: &mut Box<dyn VectorTrait<T>>,
) -> (r: ReedResult<()>)
    requires
        op.wf(),
        request == OperatorTransposeRequest::Forward ==> op.admits(
            request,
            false,
            x.values().len(),
            old(y).values().len(),
        ),
    ensures
        final(y).values().len() == old(y).values().len(),
        ({
            let o = default_outcome(op, request, x.values(), Sink::Overwrite(write_target(&**old(y))));
            final(y).values() == o.values && o.reported(r)
        }),
{
    match request {
        OperatorTransposeRequest::Forward => op.apply(x, y),
        OperatorTransposeRequest::Adjoint => Err(no_adjoint(false)),
    }
}

/// Adding application in a direction by an operator without an adjoint: forward by
/// [`OperatorTrait::apply_add`].
pub fn default_apply_add_with_transpose<T: Real, O: OperatorTrait<T> + ?Sized>(
    op: &O,
    request: OperatorTransposeRequest,
    x: &Box<dyn VectorTrait<T>>,
    y: &mut Box<dyn VectorTrait<T>>,
) -> (r: ReedResult<()>)
    requires
        op.wf(),
        request == OperatorTransposeRequest::Forward ==> op.admits(
            request,
            true,
            x.values().len(),
            old(y).values().len(),
        ),
    ensures
        final(y).values().len() == old(y).values().len(),
        ({
            let o = default_outcome(op, request, x.values(), Sink::Accumulate(old(y).values()));
            final(y).values() == o.values && o.reported(r)
        }),
{
    match request {
        OperatorTransposeRequest::Forward => op.apply_add(x, y),
        OperatorTransposeRequest::Adjoint => Err(no_adjoint(true)),
    }
}

/// Text of the refusal of an application to named vectors.
pub open spec fn no_named_text(request: OperatorTransposeRequest, add: bool) -> Seq<char> {
    match (request, add) {
        (
            OperatorTransposeRequest::Forward,
            false,
        ) => "OperatorTrait::apply_field_buffers is not implemented for this operator type (only reed_cpu::CpuOperator from OperatorBuilder)"@,
        (
            OperatorTransposeRequest::Forward,
            true,
        ) => "OperatorTrait::apply_add_field_buffers is not implemented for this operator type (only reed_cpu::CpuOperator from OperatorBuilder)"@,
        (
            OperatorTransposeRequest::Adjoint,
            false,
        ) => "OperatorTrait::apply_field_buffers_with_transpose(Adjoint) is not implemented for this operator"@,
        (
            OperatorTransposeRequest::Adjoint,
            true,
        ) => "OperatorTrait::apply_add_field_buffers_with_transpose(Adjoint) is not implemented for this operator"@,
    }
}

/// What an application to named vectors does if it is refused.
pub open spec fn no_named_outcome<T>(
    request: OperatorTransposeRequest,
    outputs: NamedSink<T>,
) -> NamedOutcome<T> {
    NamedOutcome {
        error: Some((ErrorKind::Operator, no_named_text(request, outputs.adds()))),
        outputs: outputs.views(),
    }
}

/// Refuses an application to named vectors.
pub fn no_named(request: OperatorTransposeRequest, add: bool) -> (e: ReedError)
    ensures
        e@ == (ErrorKind::Operator, no_named_text(request, add)),
{
    match (request, add) {
        (OperatorTransposeRequest::Forward, false) => operator_error(
            "OperatorTrait::apply_field_buffers is not implemented for this operator type (only reed_cpu::CpuOperator from OperatorBuilder)",
        ),
        (OperatorTransposeRequest::Forward, true) => operator_error(
            "OperatorTrait::apply_add_field_buffers is not implemented for this operator type (only reed_cpu::CpuOperator from OperatorBuilder)",
        ),
        (OperatorTransposeRequest::Adjoint, false) => operator_error(
            "OperatorTrait::apply_field_buffers_with_transpose(Adjoint) is not implemented for this operator",
        ),
        (OperatorTransposeRequest::Adjoint, true) => operator_error(
            "OperatorTrait::apply_add_field_buffers_with_transpose(Adjoint) is not implemented for this operator",
        ),
    }
}

/// Text of the refusal to add a diagonal.
pub open spec fn no_add_diagonal_text() -> Seq<char> {
    "OperatorTrait::linear_assemble_add_diagonal is not implemented (libCEED CeedOperatorLinearAssembleAddDiagonal)"@
}

/// Refuses to add a diagonal.
pub fn no_add_diagonal() -> (e: ReedError)
    ensures
        e@ == (ErrorKind::Operator, no_add_diagonal_text()),
{
    operator_error(
        "OperatorTrait::linear_assemble_add_diagonal is not implemented (libCEED CeedOperatorLinearAssembleAddDiagonal)",
    )
}

} // verus!
