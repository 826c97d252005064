//! Room for the dense matrix of an operator, columns one after the other.

use vstd::prelude::*;

use crate::error::{ErrorKind, ReedResult};
#[allow(unused_imports)]
use crate::error::refused;
use crate::operator::operator_error;
use crate::scalar::{zeros, Real};

verus! {

/// A square matrix under assembly.
#[derive(Debug)]
pub struct DenseLinearAssemblySlot<T> {
    pub n: usize,
    pub a: Vec<T>,
    pub symbolic_done: bool,
    pub numeric_done: bool,
}

impl<T: Real> DenseLinearAssemblySlot<T> {
    /// A zero matrix whose numbers are not ready.
    pub fn new_symbolic(n: usize) -> (r: ReedResult<Self>)
        ensures
            if n * n > usize::MAX {
                refused(
                    r,
                    ErrorKind::Operator,
                    "linear_assemble_symbolic: active global DOF count overflow in n*n"@,
                )
            } else {
                &&& r matches Ok(s)
                &&& s.n == n
                &&& s.a@ == Seq::new((n * n) as nat, |i: int| T::zero_val())
                &&& s.symbolic_done
                &&& !s.numeric_done
            },
    {
        match n.checked_mul(n) {
            Some(len) => Ok(
                DenseLinearAssemblySlot {
                    n,
                    a: zeros(len),
                    symbolic_done: true,
                    numeric_done: false,
                },
            ),
            None => Err(
                operator_error("linear_assemble_symbolic: active global DOF count overflow in n*n"),
            ),
        }
    }
}

} // verus!
