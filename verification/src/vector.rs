//! Vectors of numbers.

use vstd::prelude::*;

use crate::error::{ErrorKind, ReedResult};
use crate::scalar::Real;

verus! {

/// What an operation that may fail leaves behind: the error, if it fails, and the numbers in the
/// vector that it writes to.
pub struct Outcome<T> {
    pub error: Option<(ErrorKind, Seq<char>)>,
    pub values: Seq<T>,
}

impl<T> Outcome<T> {
    /// The operation succeeds and leaves `values`.
    pub open spec fn done(values: Seq<T>) -> Outcome<T> {
        Outcome { error: None, values }
    }

    /// The operation fails and leaves `values`.
    pub open spec fn failed(kind: ErrorKind, message: Seq<char>, values: Seq<T>) -> Outcome<T> {
        Outcome { error: Some((kind, message)), values }
    }

    /// `r` reports this outcome.
    pub open spec fn reported<A>(self, r: ReedResult<A>) -> bool {
        match self.error {
            Some(e) => r matches Err(x) && x@ == e,
            None => r is Ok,
        }
    }
}

/// A vector as something to write to: its numbers, and what filling and copying do.
#[verifier::reject_recursive_types(T)]
pub struct WriteTarget<T> {
    pub values: Seq<T>,
    pub filled: spec_fn(T) -> Outcome<T>,
    pub copied: spec_fn(Seq<T>) -> Outcome<T>,
}

/// The vector as something to write to.
pub open spec fn write_target<T: Real, V: VectorTrait<T> + ?Sized>(v: &V) -> WriteTarget<T> {
    WriteTarget {
        values: v.values(),
        filled: |a: T| v.filled(a),
        copied: |data: Seq<T>| v.copied(data),
    }
}

/// A vector of numbers that lives on the host or is mirrored there.
///
/// An implementation says what filling and copying do, failures included. Neither changes the
/// number of entries.
///
/// The specification functions default to an unknown value; a verified implementation defines
/// them.
pub trait VectorTrait<T: Real> {
    /// The numbers.
    closed spec fn values(&self) -> Seq<T> {
        arbitrary()
    }

    /// What setting every number to `v` does.
    closed spec fn filled(&self, v: T) -> Outcome<T> {
        arbitrary()
    }

    /// What copying `data` does.
    closed spec fn copied(&self, data: Seq<T>) -> Outcome<T> {
        arbitrary()
    }

    /// Number of entries.
    fn len(&self) -> (n: usize)
        ensures
            n == self.values().len(),
    ;

    /// The numbers.
    fn as_slice(&self) -> (s: &[T])
        ensures
            s@ == self.values(),
    ;

    /// The numbers, for writing.
    fn as_mut_slice(&mut self) -> (s: &mut [T])
        ensures
            s@ == old(self).values(),
            final(self).values() == final(s)@,
    ;

    /// Sets every number to `v`.
    fn set_value(&mut self, v: T) -> (r: ReedResult<()>)
        ensures
            final(self).values().len() == old(self).values().len(),
            final(self).values() == old(self).filled(v).values,
            old(self).filled(v).reported(r),
    ;

    /// Copies `data`.
    fn copy_from_slice(&mut self, data: &[T]) -> (r: ReedResult<()>)
        ensures
            final(self).values().len() == old(self).values().len(),
            final(self).values() == old(self).copied(data@).values,
            old(self).copied(data@).reported(r),
    ;
}

/// Two vectors hold the same numbers and answer alike.
pub open spec fn same_vector<
    T: Real,
    A: VectorTrait<T> + ?Sized,
    B: VectorTrait<T> + ?Sized,
>(a: &A, b: &B) -> bool {
    &&& a.values() == b.values()
    &&& forall|v: T| #[trigger] a.filled(v) == b.filled(v)
    &&& forall|data: Seq<T>| #[trigger] a.copied(data) == b.copied(data)
}

/// Vectors that hold the same numbers and answer alike are the same to write to.
pub proof fn lemma_same_target<
    T: Real,
    A: VectorTrait<T> + ?Sized,
    B: VectorTrait<T> + ?Sized,
>(a: &A, b: &B)
    requires
        same_vector(a, b),
    ensures
        write_target(a) == write_target(b),
{
    let (p, q) = (write_target(a), write_target(b));
    assert forall|v: T| #[trigger] (p.filled)(v) == (q.filled)(v) by {
        assert(a.filled(v) == b.filled(v));
    }
    assert forall|data: Seq<T>| #[trigger] (p.copied)(data) == (q.copied)(data) by {
        assert(a.copied(data) == b.copied(data));
    }
    assert(p.filled =~= q.filled);
    assert(p.copied =~= q.copied);
}

} // verus!
