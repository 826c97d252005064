//! Vectors in host memory.

use vstd::prelude::*;

use crate::error::{ErrorKind, ReedError, ReedResult};
use crate::scalar::{zeros, Real};
use crate::text::Message;
#[allow(unused_imports)]
use crate::text::decimal;
use crate::vector::VectorTrait;
#[allow(unused_imports)]
use crate::vector::{write_target, Outcome, WriteTarget};

verus! {

/// A vector in host memory.
pub struct CpuVector<T> {
    data: Vec<T>,
}

/// The message about data of the wrong length.
pub open spec fn length_message(want: nat, got: nat) -> Seq<char> {
    "vector length "@ + decimal(want) + " != data length "@ + decimal(got)
}

/// What copying into a vector in host memory does.
pub open spec fn host_copied<T>(values: Seq<T>, data: Seq<T>) -> Outcome<T> {
    if data.len() == values.len() {
        Outcome::done(data)
    } else {
        Outcome::failed(
            ErrorKind::InvalidArgument,
            length_message(values.len(), data.len()),
            values,
        )
    }
}

/// A vector in host memory as something to write to.
pub open spec fn host_target<T>(values: Seq<T>) -> WriteTarget<T> {
    WriteTarget {
        values,
        filled: |v: T| Outcome::done(Seq::new(values.len(), |i: int| v)),
        copied: |data: Seq<T>| host_copied(values, data),
    }
}

/// What a vector in host memory is to write to depends on its numbers alone.
pub proof fn lemma_host_target<T: Real>(v: CpuVector<T>)
    ensures
        write_target(&v) == host_target(v.values()),
{
    let (p, q) = (write_target(&v), host_target(v.values()));
    assert forall|a: T| #[trigger] (p.filled)(a) == (q.filled)(a) by {
        assert((p.filled)(a).values =~= (q.filled)(a).values);
    }
    assert forall|data: Seq<T>| #[trigger] (p.copied)(data) == (q.copied)(data) by {}
    assert(p.filled =~= q.filled);
    assert(p.copied =~= q.copied);
}

impl<T: Real> CpuVector<T> {
    /// A vector of `n` zeros.
    pub fn new(n: usize) -> (v: Self)
        ensures
            v.values() == Seq::new(n as nat, |i: int| T::zero_val()),
    {
        let data = zeros(n);
        assert(data@ =~= Seq::new(n as nat, |i: int| T::zero_val()));
        CpuVector { data }
    }

    /// A vector with the given numbers.
    pub fn from_vec(data: Vec<T>) -> (v: Self)
        ensures
            v.values() == data@,
    {
        CpuVector { data }
    }
}

impl<T: Real> VectorTrait<T> for CpuVector<T> {
    closed spec fn values(&self) -> Seq<T> {
        self.data@
    }

    open spec fn filled(&self, v: T) -> Outcome<T> {
        Outcome::done(Seq::new(self.values().len(), |i: int| v))
    }

    open spec fn copied(&self, data: Seq<T>) -> Outcome<T> {
        host_copied(self.values(), data)
    }

    fn len(&self) -> (n: usize) {
        self.data.len()
    }

    fn as_slice(&self) -> (s: &[T]) {
        self.data.as_slice()
    }

    fn as_mut_slice(&mut self) -> (s: &mut [T]) {
        self.data.as_mut_slice()
    }

    fn set_value(&mut self, v: T) -> (r: ReedResult<()>) {
        let n: usize = self.data.len();
        for i in 0..n
            invariant
                self.data@.len() == n == old(self).data@.len(),
                forall|k: int| 0 <= k < i ==> #[trigger] self.data@[k] == v,
        {
            self.data.set(i, v);
        }
        assert(self.data@ =~= old(self).filled(v).values);
        Ok(())
    }

    fn copy_from_slice(&mut self, data: &[T]) -> (r: ReedResult<()>) {
        let n: usize = self.data.len();
        if data.len() != n {
            return Err(
                ReedError::InvalidArgument(
                    Message::new("vector length ").num(n).text(" != data length ").num(
                        data.len(),
                    ).done(),
                ),
            );
        }
        for i in 0..n
            invariant
                self.data@.len() == n == old(self).data@.len(),
                data@.len() == n,
                forall|k: int| 0 <= k < i ==> #[trigger] self.data@[k] == data@[k],
        {
            self.data.set(i, data[i]);
        }
        assert(self.data@ =~= data@);
        Ok(())
    }
}

} // verus!
