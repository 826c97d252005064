//! Basis evaluation on reference elements.

use vstd::prelude::*;

use crate::enums::EvalMode;
use crate::error::{ErrorKind, ReedResult};
use crate::scalar::Real;

verus! {

/// Reference-element basis.
///
/// What an application does is a function of the basis, the mode and the vectors: `refusal` says
/// when and how it fails, `applied` what the output vector then holds.
///
/// The specification functions default to an unknown value; a verified implementation defines
/// them.
pub trait BasisTrait<T: Real> {
    /// The basis is valid.
    closed spec fn wf(&self) -> bool {
        arbitrary()
    }

    /// Topological dimension.
    closed spec fn dimension(&self) -> int {
        arbitrary()
    }

    /// Degrees of freedom per element.
    closed spec fn dofs(&self) -> int {
        arbitrary()
    }

    /// Quadrature points per element.
    closed spec fn qpoints(&self) -> int {
        arbitrary()
    }

    /// Number of components.
    closed spec fn comps(&self) -> int {
        arbitrary()
    }

    /// Quadrature weights.
    closed spec fn weight_values(&self) -> Seq<T> {
        arbitrary()
    }

    /// Quadrature point coordinates.
    closed spec fn point_values(&self) -> Seq<T> {
        arbitrary()
    }

    /// Sizes stay in machine range, and the batch is one an application is defined on.
    closed spec fn admits(
        &self,
        num_elem: int,
        transpose: bool,
        eval_mode: EvalMode,
        ulen: nat,
        vlen: nat,
    ) -> bool {
        arbitrary()
    }

    /// The error of an application to vectors of the given lengths, if it fails.
    closed spec fn refusal(
        &self,
        num_elem: int,
        transpose: bool,
        eval_mode: EvalMode,
        ulen: nat,
        vlen: nat,
    ) -> Option<(ErrorKind, Seq<char>)> {
        arbitrary()
    }

    /// The output vector after an application, given the input and the output before.
    closed spec fn applied(
        &self,
        num_elem: int,
        transpose: bool,
        eval_mode: EvalMode,
        u: Seq<T>,
        v: Seq<T>,
    ) -> Seq<T> {
        arbitrary()
    }

    /// One-dimensional tables `(interp, grad, weights, p, q)` of a tensor-product basis.
    closed spec fn tensor_tables(&self) -> Option<(Seq<T>, Seq<T>, Seq<T>, int, int)> {
        arbitrary()
    }

    /// Face quadrature weights for a local face, if the basis has any.
    closed spec fn face_weight_values(&self, local_face: int) -> Option<Seq<T>> {
        arbitrary()
    }

    /// Face quadrature points for a local face, if the basis has any.
    closed spec fn face_point_values(&self, local_face: int) -> Option<Seq<T>> {
        arbitrary()
    }

    fn dim(&self) -> (n: usize)
        requires
            self.wf(),
        ensures
            n == self.dimension(),
    ;

    fn num_dof(&self) -> (n: usize)
        requires
            self.wf(),
        ensures
            n == self.dofs(),
    ;

    fn num_qpoints(&self) -> (n: usize)
        requires
            self.wf(),
        ensures
            n == self.qpoints(),
    ;

    fn num_comp(&self) -> (n: usize)
        requires
            self.wf(),
        ensures
            n == self.comps(),
    ;

    /// Applies the basis to a batch of elements: forward from nodal values to quadrature points,
    /// transposed from quadrature points to nodal values.
    fn apply(
        &self,
        num_elem: usize,
        transpose: bool,
        eval_mode: EvalMode,
        u: &[T],
        v: &mut [T],
    ) -> (r: ReedResult<()>)
        requires
            self.wf(),
            self.admits(num_elem as int, transpose, eval_mode, u@.len(), old(v)@.len()),
        ensures
            final(v)@ == self.applied(num_elem as int, transpose, eval_mode, u@, old(v)@),
            final(v)@.len() == old(v)@.len(),
            match self.refusal(num_elem as int, transpose, eval_mode, u@.len(), old(v)@.len()) {
                Some(e) => r matches Err(x) && x@ == e,
                None => r is Ok,
            },
    ;

    /// Quadrature weights.
    fn q_weights(&self) -> (w: &[T])
        ensures
            w@ == self.weight_values(),
    ;

    /// Quadrature point coordinates on the reference element, row-major.
    fn q_ref(&self) -> (x: &[T])
        ensures
            x@ == self.point_values(),
    ;

    /// One-dimensional tables of a tensor-product basis, if this is one.
    fn tensor_fdm_1d_data(&self) -> (r: Option<(&[T], &[T], &[T], usize, usize)>)
        requires
            self.wf(),
        ensures
            match r {
                Some((i, g, w, p, q)) => self.tensor_tables() == Some(
                    (i@, g@, w@, p as int, q as int),
                ),
                None => self.tensor_tables() is None,
            },
    ;

    /// Face quadrature weights for a local face, if the basis has any.
    fn face_q_weights(&self, local_face: usize) -> (r: Option<Vec<T>>)
        ensures
            match r {
                Some(w) => self.face_weight_values(local_face as int) == Some(w@),
                None => self.face_weight_values(local_face as int) is None,
            },
    ;

    /// Face quadrature points for a local face, if the basis has any.
    fn face_q_ref(&self, local_face: usize) -> (r: Option<Vec<T>>)
        ensures
            match r {
                Some(x) => self.face_point_values(local_face as int) == Some(x@),
                None => self.face_point_values(local_face as int) is None,
            },
    ;
}

} // verus!
