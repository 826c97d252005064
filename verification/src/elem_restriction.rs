//! Restriction of global vectors to elements.

use vstd::prelude::*;

use crate::csr::CsrPattern;
use crate::enums::TransposeMode;
use crate::error::{ErrorKind, ReedError, ReedResult};
#[allow(unused_imports)]
use crate::error::refused;
use crate::scalar::Real;
use crate::text::Message;

verus! {

/// Degree-of-freedom restriction operator.
///
/// `NoTranspose` reads a global vector into an element-local one; `Transpose` adds an
/// element-local vector into a global one. What an application does is a function of the
/// restriction and the two vectors: `refusal` says when and how it fails, `applied` what the output
/// vector then holds.
///
/// The specification functions default to an unknown value; a verified implementation defines
/// them.
pub trait ElemRestrictionTrait<T: Real> {
    /// The restriction is valid and its index arithmetic stays in machine range.
    closed spec fn wf(&self) -> bool {
        arbitrary()
    }

    /// Number of elements.
    closed spec fn elements(&self) -> int {
        arbitrary()
    }

    /// Number of local nodes per element.
    closed spec fn nodes_per_elem(&self) -> int {
        arbitrary()
    }

    /// Length of a global vector.
    closed spec fn global_len(&self) -> int {
        arbitrary()
    }

    /// Number of components.
    closed spec fn comps(&self) -> int {
        arbitrary()
    }

    /// The error of an application to vectors of the given lengths, if it fails.
    closed spec fn refusal(&self, t_mode: TransposeMode, ulen: nat, vlen: nat) -> Option<
        (ErrorKind, Seq<char>),
    > {
        arbitrary()
    }

    /// The output vector after an application, given the input and the output before.
    closed spec fn applied(&self, t_mode: TransposeMode, u: Seq<T>, v: Seq<T>) -> Seq<T> {
        arbitrary()
    }

    /// `r` is the sparsity pattern of the assembled operator, or the refusal of it.
    closed spec fn gives_pattern(&self, r: ReedResult<CsrPattern>) -> bool {
        arbitrary()
    }

    fn num_elements(&self) -> (n: usize)
        ensures
            n == self.elements(),
    ;

    fn num_dof_per_elem(&self) -> (n: usize)
        ensures
            n == self.nodes_per_elem(),
    ;

    fn num_global_dof(&self) -> (n: usize)
        ensures
            n == self.global_len(),
    ;

    fn num_comp(&self) -> (n: usize)
        ensures
            n == self.comps(),
    ;

    fn apply(&self, t_mode: TransposeMode, u: &[T], v: &mut [T]) -> (r: ReedResult<()>)
        requires
            self.wf(),
        ensures
            final(v)@ == self.applied(t_mode, u@, old(v)@),
            final(v)@.len() == old(v)@.len(),
            match self.refusal(t_mode, u@.len(), old(v)@.len()) {
                Some(e) => r matches Err(x) && x@ == e,
                None => r is Ok,
            },
    ;

    /// Length of an element-local vector.
    fn local_size(&self) -> (n: usize)
        requires
            self.elements() * self.nodes_per_elem() <= usize::MAX,
            self.elements() * self.nodes_per_elem() * self.comps() <= usize::MAX,
        ensures
            n == self.elements() * self.nodes_per_elem() * self.comps(),
    {
        self.num_elements() * self.num_dof_per_elem() * self.num_comp()
    }

    /// Sparsity of the operator assembled from this restriction's element connectivity. A
    /// restriction without one answers with [`no_pattern`].
    fn assembled_csr_pattern(&self) -> (r: ReedResult<CsrPattern>)
        requires
            self.wf(),
        ensures
            self.gives_pattern(r),
    ;
}

/// Text of the refusal of a sparsity pattern.
pub open spec fn no_pattern_text() -> Seq<char> {
    "assembled_csr_pattern is not implemented for this restriction type"@
}

/// Refuses a sparsity pattern.
pub fn no_pattern() -> (e: ReedError)
    ensures
        e@ == (ErrorKind::ElemRestriction, no_pattern_text()),
{
    ReedError::ElemRestriction(
        Message::new("assembled_csr_pattern is not implemented for this restriction type").done(),
    )
}

/// Restrictions that can be cloned behind a trait object.
pub trait BoxedClone<T: Real>: ElemRestrictionTrait<T> {
    /// Clones this restriction into a boxed trait object.
    fn boxed_clone(&self) -> (r: ReedResult<Box<dyn ElemRestrictionTrait<T>>>)
        ensures
            r matches Ok(b) ==> {
                &&& b.wf() == self.wf()
                &&& b.elements() == self.elements()
                &&& b.nodes_per_elem() == self.nodes_per_elem()
                &&& b.global_len() == self.global_len()
                &&& b.comps() == self.comps()
                &&& forall|t_mode: TransposeMode, ulen: nat, vlen: nat| #[trigger]
                    b.refusal(t_mode, ulen, vlen) == self.refusal(t_mode, ulen, vlen)
                &&& forall|t_mode: TransposeMode, u: Seq<T>, v: Seq<T>| #[trigger]
                    b.applied(t_mode, u, v) == self.applied(t_mode, u, v)
                &&& forall|p: ReedResult<CsrPattern>| #[trigger]
                    b.gives_pattern(p) == self.gives_pattern(p)
            },
        default_ensures
            refused(
                r,
                ErrorKind::ElemRestriction,
                "boxed_clone is not implemented for this restriction type"@,
            ),
    {
        Err(
            ReedError::ElemRestriction(
                Message::new("boxed_clone is not implemented for this restriction type").done(),
            ),
        )
    }
}

} // verus!
